//! Enumerated-value adapter: routes a field's raw unsigned value through a
//! closed symbolic domain, rejecting raw values outside the domain, and
//! converts a domain member back to its one raw value for encoding.

use vstd::prelude::*;

use crate::codec;
use crate::codec::{field_decode, field_e, field_encoded, field_s};
use crate::view::RecordView;

verus! {

/// The raw bits of an enumerated field name no member of its domain. The
/// record bytes are left exactly as they were; the caller decides whether to
/// reject the input or treat the value as unknown.
#[derive(Clone, Copy, PartialEq, Eq, Debug)]
pub struct ConversionError;

/// A closed symbolic domain for an enumerated field: member `k` of the
/// domain is represented on the wire by `raws[k]`, and no other raw value is
/// accepted. The symbolic-to-raw direction is total; the raw-to-symbolic
/// direction fails on values outside the listed set.
#[derive(Debug, Clone)]
pub struct EnumDomain {
    pub raws: Vec<u32>,
}

impl EnumDomain {
    /// No two members share a raw representation.
    pub open spec fn distinct(self) -> bool {
        forall|p: int, q: int|
            0 <= p < q < self.raws@.len() ==> self.raws@[p] != self.raws@[q]
    }

    /// The raw-to-symbolic conversion: the first member represented by
    /// `raw`, or a rejection when no member is.
    pub fn lookup(&self, raw: u32) -> (r: Result<usize, ConversionError>)
        ensures
            r matches Ok(sym) ==> sym < self.raws@.len() && self.raws@[sym as int] == raw && (
            forall|j: int| 0 <= j < sym ==> self.raws@[j] != raw),
            r is Err <==> (forall|j: int| 0 <= j < self.raws@.len() ==> self.raws@[j] != raw),
    {
        let n: usize = self.raws.len();
        let mut k: usize = 0;
        while k < n
            invariant
                k <= n,
                n == self.raws@.len(),
                forall|j: int| 0 <= j < k ==> self.raws@[j] != raw,
            decreases n - k,
        {
            if self.raws[k] == raw {
                return Ok(k);
            }
            k = k + 1;
        }
        Err(ConversionError)
    }

    /// The symbolic-to-raw conversion: total, one raw value per member.
    pub fn raw_of(&self, sym: usize) -> (r: u32)
        requires
            sym < self.raws@.len(),
        ensures
            r == self.raws@[sym as int],
    {
        self.raws[sym]
    }
}

/// Decoding after encoding yields the member itself: in a duplicate-free
/// domain, the first position holding member `sym`'s raw value is `sym`.
pub proof fn lemma_symbol_round_trip(dom: EnumDomain, sym: int, idx: int)
    requires
        dom.distinct(),
        0 <= sym < dom.raws@.len(),
        0 <= idx < dom.raws@.len(),
        dom.raws@[idx] == dom.raws@[sym],
        forall|j: int| 0 <= j < idx ==> dom.raws@[j] != dom.raws@[sym],
    ensures
        idx == sym,
{
}

impl RecordView {
    /// Reads enumerated field `i`: decodes the raw value over the field's
    /// window — it fits the field's representation width by construction —
    /// then converts it through `dom`. On rejection nothing is modified.
    pub fn get_enum(&self, i: usize, dom: &EnumDomain) -> (r: Result<usize, ConversionError>)
        requires
            self.wf(),
            0 <= i < self.field_count(),
            self.field(i as int).kind is Enumerated,
        ensures
            r matches Ok(sym) ==> sym < dom.raws@.len() && dom.raws@[sym as int] == field_decode(
                self.buf@,
                self.field(i as int),
            ) && (forall|j: int|
                0 <= j < sym ==> dom.raws@[j] != field_decode(self.buf@, self.field(i as int))),
            r is Err <==> (forall|j: int|
                0 <= j < dom.raws@.len() ==> dom.raws@[j] != field_decode(
                    self.buf@,
                    self.field(i as int),
                )),
    {
        let raw: u32 = self.get(i);
        dom.lookup(raw)
    }

    /// Writes enumerated field `i`: converts member `sym` to its raw value —
    /// a total conversion — and encodes it over the field's window.
    pub fn set_enum(&mut self, i: usize, dom: &EnumDomain, sym: usize)
        requires
            old(self).wf(),
            0 <= i < old(self).field_count(),
            old(self).field(i as int).kind is Enumerated,
            sym < dom.raws@.len(),
        ensures
            final(self).rec == old(self).rec,
            final(self).wf(),
            field_encoded(
                old(self).buf@,
                final(self).buf@,
                old(self).field(i as int),
                dom.raws@[sym as int],
            ),
            field_decode(final(self).buf@, old(self).field(i as int)) == dom.raws@[sym as int] & (
            codec::win_mask(
                field_s(old(self).field(i as int)),
                field_e(old(self).field(i as int)),
            ) >> field_s(old(self).field(i as int))),
    {
        let raw: u32 = dom.raw_of(sym);
        self.set(i, raw);
    }
}

} // verus!
