//! Bit-packing codec: extract an unsigned value from a byte span given a bit
//! window, and merge a value back into the span while preserving every bit
//! outside the window.
//!
//! Byte order within a span is big-endian: the lowest-indexed byte is the
//! most significant. Bits are numbered from bit 0 = least significant bit of
//! the last byte of the span. All arithmetic runs in a 32-bit accumulator,
//! which caps codec fields at four bytes.

use vstd::prelude::*;

use crate::layout::FieldLayout;

verus! {

/// The big-endian accumulation of a byte span: each byte shifted in from the
/// least significant end, most significant byte first.
pub open spec fn acc_val(span: Seq<u8>) -> u32
    decreases span.len(),
{
    if span.len() == 0 {
        0u32
    } else {
        (acc_val(span.drop_last()) << 8u32) | (span.last() as u32)
    }
}

/// Ones at every bit position up to `e`, inclusive.
pub open spec fn keep_mask(e: u32) -> u32 {
    if e >= 31 {
        u32::MAX
    } else {
        u32::MAX >> ((31 - e) as u32)
    }
}

/// Ones at exactly the bit positions of the window `s ..= e`.
pub open spec fn win_mask(s: u32, e: u32) -> u32 {
    (u32::MAX << s) & keep_mask(e)
}

/// What decoding a span through the window `s ..= e` yields: bits above `e`
/// cleared, then shifted down so the window's low bit lands at bit 0.
pub open spec fn decode_val(span: Seq<u8>, s: u32, e: u32) -> u32 {
    (acc_val(span) & keep_mask(e)) >> s
}

/// The value as it sits inside the accumulator after encoding: shifted up to
/// the window and truncated to it.
pub open spec fn shifted_val(s: u32, e: u32, v: u32) -> u32 {
    (v << s) & win_mask(s, e)
}

/// Byte `k` of a 32-bit word, counting from the least significant byte.
pub open spec fn byte_at(x: u32, k: u32) -> u8 {
    (x >> (8u32 * k)) as u8
}

/// One byte of a read-modify-write merge: keep the bits of `b` outside the
/// mask's byte `k`, and lay in byte `k` of the shifted value `w`.
pub open spec fn merged_byte(b: u8, k: u32, m: u32, w: u32) -> u8 {
    (b & !byte_at(m, k)) | byte_at(w, k)
}

/// Extracts the unsigned value of the bit window `start_bit ..= end_bit` from
/// the byte span `start_byte ..= end_byte` of `bytes`.
pub fn decode(bytes: &[u8], start_byte: usize, end_byte: usize, start_bit: u32, end_bit: u32) -> (r:
    u32)
    requires
        start_byte <= end_byte < bytes@.len(),
        start_bit <= end_bit < 32,
    ensures
        r == decode_val(
            bytes@.subrange(start_byte as int, end_byte + 1),
            start_bit,
            end_bit,
        ),
{
    let mut acc: u32 = 0;
    let mut i: usize = start_byte;
    while i <= end_byte
        invariant
            start_byte <= i <= end_byte + 1,
            end_byte < bytes@.len(),
            acc == acc_val(bytes@.subrange(start_byte as int, i as int)),
        decreases end_byte + 1 - i,
    {
        proof {
            assert(bytes@.subrange(start_byte as int, i + 1).drop_last() =~= bytes@.subrange(
                start_byte as int,
                i as int,
            ));
        }
        acc = (acc << 8u32) | (bytes[i] as u32);
        i = i + 1;
    }
    if end_bit < 31 {
        acc = acc & (u32::MAX >> (31 - end_bit));
    } else {
        proof {
            lemma_and_all_ones(acc);
        }
    }
    acc >> start_bit
}

/// Conjunction with a full mask changes nothing.
proof fn lemma_and_all_ones(x: u32)
    by (bit_vector)
    ensures
        x & u32::MAX == x,
{
}

/// Complementing before or after truncation to a byte is the same.
proof fn lemma_not_low_byte(x: u32)
    by (bit_vector)
    ensures
        (!x) as u8 == !(x as u8),
{
}

/// A shift by nothing moves nothing.
proof fn lemma_shr_zero(x: u32)
    by (bit_vector)
    ensures
        x >> 0u32 == x,
{
}

/// Two right shifts compose.
proof fn lemma_shr_compose(x: u32, a: u32)
    by (bit_vector)
    requires
        a <= 24,
    ensures
        (x >> a) >> 8u32 == x >> ((a + 8) as u32),
{
}

/// Merges `v` into the bit window `start_bit ..= end_bit` of the byte span
/// `start_byte ..= end_byte` of `bytes`. Every bit outside the window keeps
/// its old value; bits of `v` that overflow the window are discarded.
pub fn encode(
    bytes: &mut Vec<u8>,
    start_byte: usize,
    end_byte: usize,
    start_bit: u32,
    end_bit: u32,
    v: u32,
)
    requires
        start_byte <= end_byte < old(bytes)@.len(),
        end_byte - start_byte < 4,
        start_bit <= end_bit < 32,
    ensures
        final(bytes)@.len() == old(bytes)@.len(),
        forall|j: int|
            0 <= j < old(bytes)@.len() && !(start_byte <= j <= end_byte) ==> final(bytes)@[j]
                == old(bytes)@[j],
        forall|j: int|
            start_byte <= j <= end_byte ==> final(bytes)@[j] == merged_byte(
                old(bytes)@[j],
                (end_byte - j) as u32,
                win_mask(start_bit, end_bit),
                shifted_val(start_bit, end_bit, v),
            ),
{
    let mut mask: u32 = u32::MAX << start_bit;
    if end_bit < 31 {
        mask = mask & (u32::MAX >> (31 - end_bit));
    } else {
        proof {
            lemma_and_all_ones(mask);
        }
    }
    let mut w: u32 = (v << start_bit) & mask;
    let ghost m0: u32 = mask;
    let ghost w0: u32 = w;
    assert(m0 == win_mask(start_bit, end_bit));
    assert(w0 == shifted_val(start_bit, end_bit, v));
    proof {
        lemma_shr_zero(m0);
        lemma_shr_zero(w0);
    }
    let span: usize = end_byte - start_byte + 1;
    let mut k: usize = 0;
    while k < span
        invariant
            span == end_byte - start_byte + 1,
            span <= 4,
            k <= span,
            start_byte <= end_byte < old(bytes)@.len(),
            bytes@.len() == old(bytes)@.len(),
            k < 4 ==> mask == m0 >> ((8 * k) as u32),
            k < 4 ==> w == w0 >> ((8 * k) as u32),
            forall|j: int|
                0 <= j < old(bytes)@.len() && !(end_byte - k < j <= end_byte) ==> bytes@[j] == old(
                    bytes,
                )@[j],
            forall|j: int|
                end_byte - k < j <= end_byte ==> bytes@[j] == merged_byte(
                    old(bytes)@[j],
                    (end_byte - j) as u32,
                    m0,
                    w0,
                ),
        decreases span - k,
    {
        let i: usize = end_byte - k;
        let b: u8 = bytes[i];
        bytes[i] = (b & (#[verifier::truncate] ((!mask) as u8))) | (#[verifier::truncate] (w
            as u8));
        proof {
            lemma_not_low_byte(mask);
            let kk: u32 = k as u32;
            assert(byte_at(m0, kk) == mask as u8) by {
                assert(8u32 * kk == (8 * k) as u32);
            }
            assert(byte_at(w0, kk) == w as u8) by {
                assert(8u32 * kk == (8 * k) as u32);
            }
            assert(bytes@[i as int] == merged_byte(b, kk, m0, w0));
            if k + 1 < 4 {
                lemma_shr_compose(m0, (8 * k) as u32);
                lemma_shr_compose(w0, (8 * k) as u32);
            }
        }
        mask = mask >> 8u32;
        w = w >> 8u32;
        k = k + 1;
    }
}

/// Ones at exactly the bit positions a span of `len_b` bytes does not reach.
pub open spec fn high_mask(len_b: u32) -> u32 {
    if len_b == 0 {
        u32::MAX
    } else if len_b == 1 {
        0xffff_ff00u32
    } else if len_b == 2 {
        0xffff_0000u32
    } else if len_b == 3 {
        0xff00_0000u32
    } else {
        0u32
    }
}

/// A span's byte `j` is byte `len - 1 - j` of its accumulator.
pub proof fn lemma_acc_byte(span: Seq<u8>, j: int)
    requires
        span.len() <= 4,
        0 <= j < span.len(),
    ensures
        byte_at(acc_val(span), (span.len() - 1 - j) as u32) == span[j],
    decreases span.len(),
{
    let x = acc_val(span.drop_last());
    let b = span.last();
    if j == span.len() - 1 {
        assert(byte_at((x << 8u32) | (b as u32), 0u32) == b) by (bit_vector);
    } else {
        lemma_acc_byte(span.drop_last(), j);
        let k: u32 = (span.len() - 1 - j) as u32;
        assert(byte_at((x << 8u32) | (b as u32), k) == byte_at(x, (k - 1) as u32))
            by (bit_vector)
            requires
                1 <= k <= 3,
        ;
    }
}

/// If `b` arises from `a` by merging the word `w` under the mask `m`, byte by
/// byte, then `b`'s accumulator is `a`'s with the masked bits replaced by `w`.
pub proof fn lemma_acc_merge(a: Seq<u8>, b: Seq<u8>, m: u32, w: u32)
    requires
        a.len() == b.len(),
        1 <= a.len() <= 4,
        w & high_mask(a.len() as u32) == 0,
        forall|j: int|
            0 <= j < a.len() ==> b[j] == merged_byte(a[j], (a.len() - 1 - j) as u32, m, w),
    ensures
        acc_val(b) == (acc_val(a) & !m) | w,
    decreases a.len(),
{
    let l: u32 = a.len() as u32;
    if a.len() == 1 {
        let a0 = a[0];
        let b0 = b[0];
        assert(b0 == merged_byte(a0, 0u32, m, w));
        assert((((a0 & !((m >> (8u32 * 0u32)) as u8)) | ((w >> (8u32 * 0u32)) as u8)) as u32) == ((
        (a0 as u32) & !m) | w)) by (bit_vector)
            requires
                w & 0xffff_ff00u32 == 0,
        ;
        assert(acc_val(a.drop_last()) == 0);
        assert(acc_val(b.drop_last()) == 0);
        assert(acc_val(a) == (0u32 << 8u32) | (a0 as u32));
        assert(acc_val(b) == (0u32 << 8u32) | (b0 as u32));
        assert((0u32 << 8u32) | (a0 as u32) == a0 as u32) by (bit_vector);
        assert((0u32 << 8u32) | (b0 as u32) == b0 as u32) by (bit_vector);
    } else {
        let a1 = a.drop_last();
        let b1 = b.drop_last();
        assert forall|j: int| 0 <= j < a1.len() implies b1[j] == merged_byte(
            a1[j],
            (a1.len() - 1 - j) as u32,
            m >> 8u32,
            w >> 8u32,
        ) by {
            let k: u32 = (a.len() - 1 - j) as u32;
            assert(b[j] == merged_byte(a[j], k, m, w));
            assert(byte_at(m, k) == byte_at(m >> 8u32, (k - 1) as u32)) by (bit_vector)
                requires
                    1 <= k <= 3,
            ;
            assert(byte_at(w, k) == byte_at(w >> 8u32, (k - 1) as u32)) by (bit_vector)
                requires
                    1 <= k <= 3,
            ;
        }
        assert((w >> 8u32) & high_mask((l - 1) as u32) == 0) by (bit_vector)
            requires
                w & high_mask(l) == 0,
                2 <= l <= 4,
        ;
        lemma_acc_merge(a1, b1, m >> 8u32, w >> 8u32);
        let x = acc_val(a1);
        let y = acc_val(b1);
        let al = a.last();
        let bl = b.last();
        assert(bl == merged_byte(al, 0u32, m, w));
        assert(((((x & !(m >> 8u32)) | (w >> 8u32)) << 8u32) | (((al & !((m >> (8u32 * 0u32))
            as u8)) | ((w >> (8u32 * 0u32)) as u8)) as u32)) == ((((x << 8u32) | (al as u32)) & !m)
            | w)) by (bit_vector);
        assert(acc_val(a) == (x << 8u32) | (al as u32));
        assert(acc_val(b) == (y << 8u32) | (bl as u32));
    }
}

/// Two spans that agree on every bit of the mask `m`, byte by byte, have
/// accumulators that agree under `m`.
pub proof fn lemma_acc_window(a: Seq<u8>, b: Seq<u8>, m: u32)
    requires
        a.len() == b.len(),
        a.len() <= 4,
        forall|j: int|
            0 <= j < a.len() ==> b[j] & byte_at(m, (a.len() - 1 - j) as u32) == a[j] & byte_at(
                m,
                (a.len() - 1 - j) as u32,
            ),
    ensures
        acc_val(b) & m == acc_val(a) & m,
    decreases a.len(),
{
    if a.len() == 0 {
    } else {
        let a1 = a.drop_last();
        let b1 = b.drop_last();
        assert forall|j: int| 0 <= j < a1.len() implies b1[j] & byte_at(
            m >> 8u32,
            (a1.len() - 1 - j) as u32,
        ) == a1[j] & byte_at(m >> 8u32, (a1.len() - 1 - j) as u32) by {
            let k: u32 = (a.len() - 1 - j) as u32;
            assert(b[j] & byte_at(m, k) == a[j] & byte_at(m, k));
            assert(byte_at(m, k) == byte_at(m >> 8u32, (k - 1) as u32)) by (bit_vector)
                requires
                    1 <= k <= 3,
            ;
        }
        lemma_acc_window(a1, b1, m >> 8u32);
        let x = acc_val(a1);
        let y = acc_val(b1);
        let al = a.last();
        let bl = b.last();
        assert(bl & byte_at(m, 0u32) == al & byte_at(m, 0u32));
        assert(((y << 8u32) | (bl as u32)) & m == ((x << 8u32) | (al as u32)) & m) by (bit_vector)
            requires
                y & (m >> 8u32) == x & (m >> 8u32),
                bl & ((m >> (8u32 * 0u32)) as u8) == al & ((m >> (8u32 * 0u32)) as u8),
        ;
    }
}

/// Round trip: when the span `b` arises from `a` by encoding `v` into the
/// window `s ..= e` (the relation `encode` establishes), decoding `b` through
/// the same window yields `v` truncated to the window's width. For every `v`
/// that fits the window, that is `v` itself.
pub proof fn lemma_round_trip(a: Seq<u8>, b: Seq<u8>, s: u32, e: u32, v: u32)
    requires
        a.len() == b.len(),
        1 <= a.len() <= 4,
        s <= e < 32,
        e < 8 * a.len(),
        forall|j: int|
            0 <= j < a.len() ==> b[j] == merged_byte(
                a[j],
                (a.len() - 1 - j) as u32,
                win_mask(s, e),
                shifted_val(s, e, v),
            ),
    ensures
        decode_val(b, s, e) == v & (win_mask(s, e) >> s),
{
    let l: u32 = a.len() as u32;
    let m = win_mask(s, e);
    let w = shifted_val(s, e, v);
    assert(w & high_mask(l) == 0) by (bit_vector)
        requires
            w == shifted_val(s, e, v),
            s <= e < 32,
            e < 8 * l,
            1 <= l <= 4,
    ;
    lemma_acc_merge(a, b, m, w);
    let x = acc_val(a);
    let y = acc_val(b);
    assert((y & keep_mask(e)) >> s == v & (win_mask(s, e) >> s)) by (bit_vector)
        requires
            y == (x & !win_mask(s, e)) | shifted_val(s, e, v),
            s <= e < 32,
    ;
}

/// Decoding a window and encoding the decoded value straight back leaves the
/// span exactly as it was.
pub proof fn lemma_reencode_identity(a: Seq<u8>, b: Seq<u8>, s: u32, e: u32)
    requires
        a.len() == b.len(),
        1 <= a.len() <= 4,
        s <= e < 32,
        forall|j: int|
            0 <= j < a.len() ==> b[j] == merged_byte(
                a[j],
                (a.len() - 1 - j) as u32,
                win_mask(s, e),
                shifted_val(s, e, decode_val(a, s, e)),
            ),
    ensures
        b == a,
{
    let x = acc_val(a);
    let d = decode_val(a, s, e);
    assert(d == (x & keep_mask(e)) >> s);
    assert forall|j: int| 0 <= j < a.len() implies b[j] == a[j] by {
        lemma_acc_byte(a, j);
        let k: u32 = (a.len() - 1 - j) as u32;
        let aj = a[j];
        assert(merged_byte(aj, k, win_mask(s, e), shifted_val(s, e, d)) == aj) by (bit_vector)
            requires
                s <= e < 32,
                k <= 3,
                aj == byte_at(x, k),
                d == (x & keep_mask(e)) >> s,
        ;
    }
    assert(b =~= a);
}

/// The window mask is derived generically — clear all bits outside
/// `s ..= e` of a 32-bit word — and degenerates correctly at the
/// accumulator's full width: the window `0 ..= 31` keeps every bit.
pub proof fn lemma_full_window()
    ensures
        win_mask(0u32, 31u32) == u32::MAX,
{
    assert((u32::MAX << 0u32) & u32::MAX == u32::MAX) by (bit_vector);
}

/// A one-bit window keeps a one-bit value whole.
pub proof fn lemma_single_bit(s: u32, v: u32)
    by (bit_vector)
    requires
        s < 32,
        v == 0 || v == 1,
    ensures
        v & (win_mask(s, s) >> s) == v,
{
}

/// The resolved low bit of a field's window, as the codec takes it.
pub open spec fn field_s(f: FieldLayout) -> u32 {
    f.start_bit() as u32
}

/// The resolved high bit of a field's window, as the codec takes it.
pub open spec fn field_e(f: FieldLayout) -> u32 {
    f.end_bit() as u32
}

/// The byte span of a record buffer that a field addresses.
pub open spec fn field_span(bytes: Seq<u8>, f: FieldLayout) -> Seq<u8> {
    bytes.subrange(f.start_byte(), f.end_byte() + 1)
}

/// The value a field decodes to out of a record buffer.
pub open spec fn field_decode(bytes: Seq<u8>, f: FieldLayout) -> u32 {
    decode_val(field_span(bytes, f), field_s(f), field_e(f))
}

/// The bits of record byte `j` that belong to field `f`'s window.
pub open spec fn field_mask_at(f: FieldLayout, j: int) -> u8 {
    if f.start_byte() <= j <= f.end_byte() {
        byte_at(win_mask(field_s(f), field_e(f)), (f.end_byte() - j) as u32)
    } else {
        0u8
    }
}

/// How a whole record buffer changes when `v` is encoded into field `f`:
/// bytes outside the field's byte range keep their value, bytes inside are
/// merged under the field's window. This is the relation `encode` establishes.
pub open spec fn field_encoded(a: Seq<u8>, b: Seq<u8>, f: FieldLayout, v: u32) -> bool {
    &&& b.len() == a.len()
    &&& forall|j: int|
        0 <= j < a.len() && !(f.start_byte() <= j <= f.end_byte()) ==> b[j] == a[j]
    &&& forall|j: int|
        f.start_byte() <= j <= f.end_byte() ==> b[j] == merged_byte(
            a[j],
            (f.end_byte() - j) as u32,
            win_mask(field_s(f), field_e(f)),
            shifted_val(field_s(f), field_e(f), v),
        )
}

/// Setting a field flips no bit outside that field's declared window: the
/// difference between the new and the old buffer is a subset of the window,
/// byte for byte.
pub proof fn lemma_set_changes_only_window(a: Seq<u8>, b: Seq<u8>, f: FieldLayout, v: u32)
    requires
        f.codec_ready(),
        f.end_byte() < a.len(),
        field_encoded(a, b, f, v),
    ensures
        forall|j: int| 0 <= j < a.len() ==> ((#[trigger] b[j] ^ a[j]) & !field_mask_at(f, j)) == 0,
{
    let s = field_s(f);
    let e = field_e(f);
    let m = win_mask(s, e);
    let w = shifted_val(s, e, v);
    assert forall|j: int| 0 <= j < a.len() implies ((#[trigger] b[j] ^ a[j]) & !field_mask_at(
        f,
        j,
    )) == 0 by {
        let aj = a[j];
        if f.start_byte() <= j <= f.end_byte() {
            let k: u32 = (f.end_byte() - j) as u32;
            assert(w & !m == 0) by (bit_vector)
                requires
                    w == shifted_val(s, e, v),
                    m == win_mask(s, e),
            ;
            assert(((merged_byte(aj, k, m, w) ^ aj) & !byte_at(m, k)) == 0) by (bit_vector)
                requires
                    w & !m == 0,
            ;
        } else {
            assert(((aj ^ aj) & !0u8) == 0) by (bit_vector);
        }
    }
}

/// Fields whose windows share no bit do not interfere: encoding into one
/// leaves the other's decoded value exactly as it was.
pub proof fn lemma_non_interference(a: Seq<u8>, b: Seq<u8>, fa: FieldLayout, fb: FieldLayout, v: u32)
    requires
        fa.codec_ready(),
        fb.codec_ready(),
        fa.end_byte() < a.len(),
        fb.end_byte() < a.len(),
        field_encoded(a, b, fa, v),
        forall|j: int| 0 <= j < a.len() ==> field_mask_at(fa, j) & field_mask_at(fb, j) == 0,
    ensures
        field_decode(b, fb) == field_decode(a, fb),
{
    let sa = field_s(fa);
    let ea = field_e(fa);
    let ma = win_mask(sa, ea);
    let wa = shifted_val(sa, ea, v);
    let s = field_s(fb);
    let e = field_e(fb);
    let m = win_mask(s, e);
    let pa = field_span(a, fb);
    let pb = field_span(b, fb);
    assert forall|jj: int| 0 <= jj < pa.len() implies pb[jj] & byte_at(
        m,
        (pa.len() - 1 - jj) as u32,
    ) == pa[jj] & byte_at(m, (pa.len() - 1 - jj) as u32) by {
        let j = fb.start_byte() + jj;
        let kb: u32 = (fb.end_byte() - j) as u32;
        assert(pa[jj] == a[j] && pb[jj] == b[j]);
        assert((pa.len() - 1 - jj) as u32 == kb);
        assert(field_mask_at(fb, j) == byte_at(m, kb));
        if fa.start_byte() <= j <= fa.end_byte() {
            let ka: u32 = (fa.end_byte() - j) as u32;
            let aj = a[j];
            let mbk = byte_at(m, kb);
            assert(field_mask_at(fa, j) == byte_at(ma, ka));
            assert(byte_at(ma, ka) & mbk == 0);
            assert(wa & !ma == 0) by (bit_vector)
                requires
                    wa == shifted_val(sa, ea, v),
                    ma == win_mask(sa, ea),
            ;
            assert(merged_byte(aj, ka, ma, wa) & mbk == aj & mbk) by (bit_vector)
                requires
                    wa & !ma == 0,
                    byte_at(ma, ka) & mbk == 0,
            ;
        } else {
            assert(b[j] == a[j]);
        }
    }
    lemma_acc_window(pa, pb, m);
    let xa = acc_val(pa);
    let xb = acc_val(pb);
    assert((xb & keep_mask(e)) >> s == (xa & keep_mask(e)) >> s) by (bit_vector)
        requires
            xb & win_mask(s, e) == xa & win_mask(s, e),
            s <= e < 32,
    ;
}

/// Decoding a field and encoding the decoded value straight back leaves the
/// whole record untouched.
pub proof fn lemma_field_reencode_identity(a: Seq<u8>, b: Seq<u8>, f: FieldLayout)
    requires
        f.codec_ready(),
        f.end_byte() < a.len(),
        field_encoded(a, b, f, field_decode(a, f)),
    ensures
        b == a,
{
    let s = field_s(f);
    let e = field_e(f);
    let pa = field_span(a, f);
    let pb = field_span(b, f);
    assert forall|jj: int| 0 <= jj < pa.len() implies pb[jj] == merged_byte(
        pa[jj],
        (pa.len() - 1 - jj) as u32,
        win_mask(s, e),
        shifted_val(s, e, decode_val(pa, s, e)),
    ) by {
        assert(pa[jj] == a[f.start_byte() + jj] && pb[jj] == b[f.start_byte() + jj]);
    }
    lemma_reencode_identity(pa, pb, s, e);
    assert forall|j: int| 0 <= j < a.len() implies b[j] == a[j] by {
        if f.start_byte() <= j <= f.end_byte() {
            assert(pb[j - f.start_byte()] == pa[j - f.start_byte()]);
        }
    }
    assert(b =~= a);
}

/// A field declared with only a byte range behaves exactly like one
/// declared with the explicit full-width bit range of that span: the two
/// resolve to the same window, so they decode alike, and their encodings
/// merge the same bits.
pub proof fn lemma_implied_bits_equal_explicit(f1: FieldLayout, f2: FieldLayout, bytes: Seq<u8>)
    requires
        f1.byte == f2.byte,
        !(f1.kind is Bool),
        f1.bits is None,
        f2.bits matches Some(b) && b.start_spec() == 0 && b.end_incl_spec() == 8 * f1.span() - 1,
    ensures
        field_s(f1) == field_s(f2),
        field_e(f1) == field_e(f2),
        field_decode(bytes, f1) == field_decode(bytes, f2),
        forall|j: int| field_mask_at(f1, j) == field_mask_at(f2, j),
{
}

/// Projecting a nested byte range and decoding a sub-field inside the
/// projection is the same as decoding the outer buffer at the composed
/// offset: the projection is a reinterpretation of the same bytes.
pub proof fn lemma_nested_projection(outer: Seq<u8>, off: int, sub_len: int, f: FieldLayout)
    requires
        0 <= off,
        0 <= sub_len,
        off + sub_len <= outer.len(),
        f.byte.valid(),
        f.end_byte() < sub_len,
    ensures
        field_decode(outer.subrange(off, off + sub_len), f) == decode_val(
            outer.subrange(off + f.start_byte(), off + f.end_byte() + 1),
            field_s(f),
            field_e(f),
        ),
{
    assert(outer.subrange(off, off + sub_len).subrange(f.start_byte(), f.end_byte() + 1)
        =~= outer.subrange(off + f.start_byte(), off + f.end_byte() + 1));
}

} // verus!
