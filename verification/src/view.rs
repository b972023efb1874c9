//! Typed view cast and nested view projection: a byte buffer read and
//! written through the field table of a record type.

use vstd::prelude::*;

use crate::codec;
use crate::codec::{field_decode, field_encoded, field_e, field_s};
use crate::layout;
use crate::layout::{FieldKind, FieldLayout, Record};

verus! {

/// The run-time fault of the typed view cast: the buffer is shorter than the
/// record it should hold.
#[derive(Clone, Copy, PartialEq, Eq, Debug)]
pub enum Error {
    InsufficientLength,
}

/// A typed record view: the record's bytes together with the validated
/// layout table they are read through. Field accessors address the bytes
/// through the table; nothing is recomputed or reallocated per access.
#[derive(Debug, Clone)]
pub struct RecordView {
    pub rec: Record,
    pub buf: Vec<u8>,
}

/// The typed view cast: obtain a record view over a byte buffer, after a
/// length check, or refuse the buffer.
pub trait Overlay: Sized {
    /// The record bytes the view holds.
    spec fn bytes_spec(&self) -> Seq<u8>;

    /// The layout table the view reads its bytes through.
    spec fn layout_spec(&self) -> Record;

    /// Casts a byte buffer to a read view of the record. Fails if and only
    /// if the buffer is shorter than the record; a longer buffer is
    /// accepted, and only its prefix is addressed.
    fn overlay(rec: Record, bytes: &[u8]) -> (r: Result<Self, Error>)
        requires
            rec.wf(),
        ensures
            r is Ok <==> bytes@.len() >= rec.byte_len,
            bytes@.len() < rec.byte_len ==> r == Err::<Self, Error>(Error::InsufficientLength),
            r matches Ok(view) ==> view.layout_spec() == rec && view.bytes_spec() == bytes@
                .subrange(0, rec.byte_len as int),
    ;

    /// As [`Overlay::overlay`], over a buffer borrowed exclusively so that
    /// the view's edits can be written back to it.
    fn overlay_mut(rec: Record, bytes: &mut Vec<u8>) -> (r: Result<Self, Error>)
        requires
            rec.wf(),
        ensures
            final(bytes)@ == old(bytes)@,
            r is Ok <==> old(bytes)@.len() >= rec.byte_len,
            old(bytes)@.len() < rec.byte_len ==> r == Err::<Self, Error>(
                Error::InsufficientLength,
            ),
            r matches Ok(view) ==> view.layout_spec() == rec && view.bytes_spec() == old(
                bytes,
            )@.subrange(0, rec.byte_len as int),
    ;
}

impl RecordView {
    /// The view's bytes are exactly one record of its (validated) layout.
    pub open spec fn wf(self) -> bool {
        &&& self.rec.wf()
        &&& self.buf@.len() == self.rec.byte_len
    }

    /// The field table entry the view reads field `i` through.
    pub open spec fn field(self, i: int) -> FieldLayout {
        self.rec.fields@[i]
    }

    /// How many fields the record declares.
    pub open spec fn field_count(self) -> int {
        self.rec.fields@.len() as int
    }

    /// A field index whose value travels through the bit codec.
    pub open spec fn codec_kind(self, i: int) -> bool {
        &&& 0 <= i < self.field_count()
        &&& (self.field(i).kind is Integer || self.field(i).kind is Enumerated || self.field(
            i,
        ).kind is Bool)
    }

    /// The all-zero record value: well-formed storage for every field, and a
    /// valid value for every kind whose zero pattern is meaningful.
    pub fn new(rec: Record) -> (r: RecordView)
        requires
            rec.wf(),
            rec.byte_len <= usize::MAX,
        ensures
            r.wf(),
            r.rec == rec,
            forall|j: int| 0 <= j < r.buf@.len() ==> r.buf@[j] == 0u8,
    {
        let n: usize = rec.byte_len as usize;
        let mut buf: Vec<u8> = Vec::new();
        while buf.len() < n
            invariant
                buf@.len() <= n,
                forall|j: int| 0 <= j < buf@.len() ==> buf@[j] == 0u8,
            decreases n - buf@.len(),
        {
            buf.push(0u8);
        }
        RecordView { rec, buf }
    }

    /// The backing byte span, equal in length to the record's byte length.
    pub fn as_bytes(&self) -> (r: &Vec<u8>)
        ensures
            r@ == self.buf@,
    {
        &self.buf
    }

    /// The backing byte span, exclusively borrowed.
    pub fn as_bytes_mut(&mut self) -> (r: &mut Vec<u8>)
        ensures
            *r == old(self).buf,
            final(self).buf == *final(r),
            final(self).rec == old(self).rec,
    {
        &mut self.buf
    }

    /// Decodes the unsigned value of field `i` out of the record's bytes.
    /// For an enumerated field this is the raw value, before the domain
    /// conversion.
    pub fn get(&self, i: usize) -> (r: u32)
        requires
            self.wf(),
            self.codec_kind(i as int),
        ensures
            r == field_decode(self.buf@, self.field(i as int)),
    {
        let f = &self.rec.fields[i];
        proof {
            layout::lemma_field_within(self.rec.fields@, i as int);
            assert(self.rec.fields@[i as int].wf());
            assert(f.codec_ready());
        }
        let (sb, eb, s, e) = f.window();
        codec::decode(self.buf.as_slice(), sb, eb, s, e)
    }

    /// Reads a boolean field: true exactly when its addressed bit is set.
    pub fn get_bool(&self, i: usize) -> (r: bool)
        requires
            self.wf(),
            0 <= i < self.field_count(),
            self.field(i as int).kind is Bool,
        ensures
            r == (field_decode(self.buf@, self.field(i as int)) != 0),
    {
        self.get(i) != 0
    }

    /// Encodes `v` into field `i`'s bit window. Bits of `v` beyond the
    /// window are discarded; every bit of the record outside the window
    /// keeps its value.
    pub fn set(&mut self, i: usize, v: u32)
        requires
            old(self).wf(),
            old(self).codec_kind(i as int),
        ensures
            final(self).rec == old(self).rec,
            final(self).wf(),
            field_encoded(old(self).buf@, final(self).buf@, old(self).field(i as int), v),
            field_decode(final(self).buf@, old(self).field(i as int)) == v & (codec::win_mask(
                field_s(old(self).field(i as int)),
                field_e(old(self).field(i as int)),
            ) >> field_s(old(self).field(i as int))),
    {
        let f: FieldLayout = self.rec.fields[i];
        proof {
            layout::lemma_field_within(self.rec.fields@, i as int);
            assert(self.rec.fields@[i as int].wf());
            assert(f.codec_ready());
        }
        let (sb, eb, s, e) = f.window();
        codec::encode(&mut self.buf, sb, eb, s, e, v);
        proof {
            let a = old(self).buf@;
            let b = self.buf@;
            let pa = codec::field_span(a, f);
            let pb = codec::field_span(b, f);
            assert forall|jj: int| 0 <= jj < pa.len() implies pb[jj] == codec::merged_byte(
                pa[jj],
                (pa.len() - 1 - jj) as u32,
                codec::win_mask(s, e),
                codec::shifted_val(s, e, v),
            ) by {
                assert(pa[jj] == a[f.start_byte() + jj] && pb[jj] == b[f.start_byte() + jj]);
            }
            codec::lemma_round_trip(pa, pb, s, e, v);
        }
    }

    /// Writes a boolean field: sets or clears its single addressed bit.
    pub fn set_bool(&mut self, i: usize, val: bool)
        requires
            old(self).wf(),
            0 <= i < old(self).field_count(),
            old(self).field(i as int).kind is Bool,
        ensures
            final(self).rec == old(self).rec,
            final(self).wf(),
            field_encoded(
                old(self).buf@,
                final(self).buf@,
                old(self).field(i as int),
                if val {
                    1u32
                } else {
                    0u32
                },
            ),
            (field_decode(final(self).buf@, old(self).field(i as int)) != 0) == val,
    {
        let v: u32 = if val {
            1
        } else {
            0
        };
        let ghost f = self.field(i as int);
        proof {
            assert(self.rec.fields@[i as int].wf());
            assert(field_s(f) == field_e(f) && field_s(f) < 32);
        }
        self.set(i, v);
        proof {
            codec::lemma_single_bit(field_s(f), v);
        }
    }

    /// Reads a byte-slice field: exactly the raw bytes of its byte range.
    pub fn get_bytes(&self, i: usize) -> (r: Vec<u8>)
        requires
            self.wf(),
            0 <= i < self.field_count(),
            self.field(i as int).kind is ByteSlice,
        ensures
            r@ == self.buf@.subrange(
                self.field(i as int).start_byte(),
                self.field(i as int).end_byte() + 1,
            ),
    {
        let f = &self.rec.fields[i];
        proof {
            layout::lemma_field_within(self.rec.fields@, i as int);
            assert(self.rec.fields@[i as int].wf());
        }
        let sb: usize = f.byte.start() as usize;
        let eb: usize = f.byte.end_inclusive() as usize;
        self.copy_range(sb, eb)
    }

    /// Copies the bytes `sb ..= eb` of the record.
    fn copy_range(&self, sb: usize, eb: usize) -> (r: Vec<u8>)
        requires
            sb <= eb < self.buf@.len(),
        ensures
            r@ == self.buf@.subrange(sb as int, eb + 1),
    {
        let len: usize = self.buf.len();
        let mut out: Vec<u8> = Vec::new();
        let mut j: usize = sb;
        while j <= eb
            invariant
                sb <= j <= eb + 1,
                eb < self.buf@.len(),
                self.buf@.len() == len,
                out@ == self.buf@.subrange(sb as int, j as int),
            decreases eb + 1 - j,
        {
            proof {
                assert(self.buf@.subrange(sb as int, j + 1).drop_last() =~= self.buf@.subrange(
                    sb as int,
                    j as int,
                ));
            }
            out.push(self.buf[j]);
            j = j + 1;
        }
        out
    }

    /// Overwrites a byte-slice field with `vals`, which must have exactly
    /// the field's length. No other byte of the record changes.
    pub fn set_bytes(&mut self, i: usize, vals: &[u8])
        requires
            old(self).wf(),
            0 <= i < old(self).field_count(),
            old(self).field(i as int).kind is ByteSlice,
            vals@.len() == old(self).field(i as int).span(),
        ensures
            final(self).rec == old(self).rec,
            final(self).wf(),
            forall|j: int|
                old(self).field(i as int).start_byte() <= j <= old(self).field(
                    i as int,
                ).end_byte() ==> final(self).buf@[j] == vals@[j - old(self).field(
                    i as int,
                ).start_byte()],
            forall|j: int|
                0 <= j < old(self).buf@.len() && !(old(self).field(i as int).start_byte() <= j
                    <= old(self).field(i as int).end_byte()) ==> final(self).buf@[j] == old(
                    self,
                ).buf@[j],
    {
        let f: FieldLayout = self.rec.fields[i];
        proof {
            layout::lemma_field_within(self.rec.fields@, i as int);
            assert(self.rec.fields@[i as int].wf());
        }
        let sb: usize = f.byte.start() as usize;
        let n: usize = vals.len();
        let mut j: usize = 0;
        while j < n
            invariant
                j <= n,
                n == vals@.len(),
                vals@.len() == f.span(),
                f.start_byte() == sb,
                sb + vals@.len() <= self.buf@.len(),
                self.buf@.len() == old(self).buf@.len(),
                self.rec == old(self).rec,
                forall|jj: int| 0 <= jj < j ==> self.buf@[sb + jj] == vals@[jj],
                forall|jj: int|
                    0 <= jj < self.buf@.len() && !(sb <= jj < sb + j) ==> self.buf@[jj] == old(
                        self,
                    ).buf@[jj],
            decreases vals@.len() - j,
        {
            let b: u8 = vals[j];
            self.buf[sb + j] = b;
            j = j + 1;
        }
    }

    /// Projects the nested field `i` as a view of the sub-record type whose
    /// table is `sub`: the same bytes, reinterpreted from the field's first
    /// byte on. Edits made through the projection are laid back into the
    /// outer record with [`RecordView::splice_nested`].
    pub fn nested(&self, i: usize, sub: Record) -> (r: RecordView)
        requires
            self.wf(),
            sub.wf(),
            0 <= i < self.field_count(),
            self.field(i as int).kind matches FieldKind::Nested(n) && sub.byte_len == n,
        ensures
            r.wf(),
            r.rec == sub,
            r.buf@ == self.buf@.subrange(
                self.field(i as int).start_byte(),
                self.field(i as int).end_byte() + 1,
            ),
    {
        let f = &self.rec.fields[i];
        proof {
            layout::lemma_field_within(self.rec.fields@, i as int);
            assert(self.rec.fields@[i as int].wf());
        }
        let sb: usize = f.byte.start() as usize;
        let eb: usize = f.byte.end_inclusive() as usize;
        let buf = self.copy_range(sb, eb);
        RecordView { rec: sub, buf }
    }

    /// Lays the bytes of a sub-record view back into the nested field `i`.
    /// No byte outside the field's range changes.
    pub fn splice_nested(&mut self, i: usize, inner: &RecordView)
        requires
            old(self).wf(),
            0 <= i < old(self).field_count(),
            old(self).field(i as int).kind matches FieldKind::Nested(n) && inner.buf@.len() == n,
        ensures
            final(self).rec == old(self).rec,
            final(self).wf(),
            forall|j: int|
                old(self).field(i as int).start_byte() <= j <= old(self).field(
                    i as int,
                ).end_byte() ==> final(self).buf@[j] == inner.buf@[j - old(self).field(
                    i as int,
                ).start_byte()],
            forall|j: int|
                0 <= j < old(self).buf@.len() && !(old(self).field(i as int).start_byte() <= j
                    <= old(self).field(i as int).end_byte()) ==> final(self).buf@[j] == old(
                    self,
                ).buf@[j],
    {
        let f: FieldLayout = self.rec.fields[i];
        proof {
            layout::lemma_field_within(self.rec.fields@, i as int);
            assert(self.rec.fields@[i as int].wf());
        }
        let sb: usize = f.byte.start() as usize;
        let n: usize = inner.buf.len();
        let mut j: usize = 0;
        while j < n
            invariant
                j <= n,
                n == inner.buf@.len(),
                inner.buf@.len() == f.span(),
                f.start_byte() == sb,
                sb + inner.buf@.len() <= self.buf@.len(),
                self.buf@.len() == old(self).buf@.len(),
                self.rec == old(self).rec,
                forall|jj: int| 0 <= jj < j ==> self.buf@[sb + jj] == inner.buf@[jj],
                forall|jj: int|
                    0 <= jj < self.buf@.len() && !(sb <= jj < sb + j) ==> self.buf@[jj] == old(
                        self,
                    ).buf@[jj],
            decreases inner.buf@.len() - j,
        {
            let b: u8 = inner.buf[j];
            self.buf[sb + j] = b;
            j = j + 1;
        }
    }

    /// Writes the record's bytes back over the prefix of `out`; the rest of
    /// `out` keeps its value.
    pub fn write_back(&self, out: &mut Vec<u8>)
        requires
            self.wf(),
            old(out)@.len() >= self.rec.byte_len,
        ensures
            final(out)@.len() == old(out)@.len(),
            forall|j: int| 0 <= j < self.buf@.len() ==> final(out)@[j] == self.buf@[j],
            forall|j: int|
                self.buf@.len() <= j < old(out)@.len() ==> final(out)@[j] == old(out)@[j],
    {
        let mut j: usize = 0;
        while j < self.buf.len()
            invariant
                j <= self.buf@.len(),
                self.buf@.len() <= out@.len(),
                out@.len() == old(out)@.len(),
                forall|jj: int| 0 <= jj < j ==> out@[jj] == self.buf@[jj],
                forall|jj: int| j <= jj < out@.len() ==> out@[jj] == old(out)@[jj],
            decreases self.buf@.len() - j,
        {
            let b: u8 = self.buf[j];
            out[j] = b;
            j = j + 1;
        }
    }
}

impl Overlay for RecordView {
    open spec fn bytes_spec(&self) -> Seq<u8> {
        self.buf@
    }

    open spec fn layout_spec(&self) -> Record {
        self.rec
    }

    fn overlay(rec: Record, bytes: &[u8]) -> (r: Result<RecordView, Error>) {
        if (bytes.len() as u64) < rec.byte_len {
            return Err(Error::InsufficientLength);
        }
        let n: usize = rec.byte_len as usize;
        let mut buf: Vec<u8> = Vec::new();
        let mut j: usize = 0;
        while j < n
            invariant
                j <= n,
                n <= bytes@.len(),
                buf@ == bytes@.subrange(0, j as int),
            decreases n - j,
        {
            proof {
                assert(bytes@.subrange(0, j + 1).drop_last() =~= bytes@.subrange(0, j as int));
            }
            buf.push(bytes[j]);
            j = j + 1;
        }
        Ok(RecordView { rec, buf })
    }

    fn overlay_mut(rec: Record, bytes: &mut Vec<u8>) -> (r: Result<RecordView, Error>) {
        RecordView::overlay(rec, bytes.as_slice())
    }
}

} // verus!
