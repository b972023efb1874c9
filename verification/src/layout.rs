//! Field layout model: where a field lives inside a record, and the
//! definition-time validation of a whole layout table.

use vstd::prelude::*;

verus! {

/// A definition-time fault in a layout table. A malformed layout is a
/// configuration error: it is reported once, when the record type is defined,
/// and a validated table never fails at field-access time.
#[derive(Clone, Copy, PartialEq, Eq, Debug)]
pub enum LayoutError {
    /// A byte or bit range runs backwards, or a byte range is wider than the
    /// 32-bit accumulator allows for an integer or enumerated field.
    BadRange,
    /// A bit index lies outside the bits addressed by the byte range.
    BitRangeOutOfByteRange,
    /// A boolean field addresses more than one bit or more than one byte.
    BadBoolRange,
    /// A nested or byte-slice field carries a bit range.
    NestedWithBits,
    /// A nested field's byte span differs from the sub-record's declared length.
    NestedSizeMismatch,
}

/// One index, or a span of indices, over bytes or over bits.
/// `Range` excludes its end; `RangeIncl` includes it.
#[derive(Clone, Copy, Debug)]
pub enum SingleOrRange {
    Single(u32),
    Range(u32, u32),
    RangeIncl(u32, u32),
}

impl SingleOrRange {
    /// The first index addressed.
    pub open spec fn start_spec(self) -> u32 {
        match self {
            SingleOrRange::Single(x) => x,
            SingleOrRange::Range(s, _) => s,
            SingleOrRange::RangeIncl(s, _) => s,
        }
    }

    /// The last index addressed, inclusive.
    pub open spec fn end_incl_spec(self) -> int {
        match self {
            SingleOrRange::Single(x) => x as int,
            SingleOrRange::Range(_, e) => e - 1,
            SingleOrRange::RangeIncl(_, e) => e as int,
        }
    }

    /// A span is valid when it addresses at least one index and does not run
    /// backwards.
    pub open spec fn valid(self) -> bool {
        self.start_spec() <= self.end_incl_spec()
    }

    /// How many indices the span addresses.
    pub open spec fn len_spec(self) -> int {
        self.end_incl_spec() - self.start_spec() + 1
    }

    /// Definition-time check that the span is valid.
    pub fn assert_range_valid(&self) -> (r: Result<(), LayoutError>)
        ensures
            r is Ok <==> self.valid(),
            r is Err ==> r == Err::<(), LayoutError>(LayoutError::BadRange),
    {
        match *self {
            SingleOrRange::Single(_) => Ok(()),
            SingleOrRange::Range(s, e) => {
                if s < e {
                    Ok(())
                } else {
                    Err(LayoutError::BadRange)
                }
            },
            SingleOrRange::RangeIncl(s, e) => {
                if s <= e {
                    Ok(())
                } else {
                    Err(LayoutError::BadRange)
                }
            },
        }
    }

    /// The first index addressed.
    pub fn start(&self) -> (r: u32)
        ensures
            r == self.start_spec(),
    {
        match *self {
            SingleOrRange::Single(x) => x,
            SingleOrRange::Range(s, _) => s,
            SingleOrRange::RangeIncl(s, _) => s,
        }
    }

    /// The last index addressed, inclusive.
    pub fn end_inclusive(&self) -> (r: u32)
        requires
            self.valid(),
        ensures
            r == self.end_incl_spec(),
    {
        match *self {
            SingleOrRange::Single(x) => x,
            SingleOrRange::Range(_, e) => e - 1,
            SingleOrRange::RangeIncl(_, e) => e,
        }
    }

    /// How many indices the span addresses.
    pub fn len(&self) -> (r: u32)
        requires
            self.valid(),
            self.len_spec() <= u32::MAX,
        ensures
            r == self.len_spec(),
    {
        self.end_inclusive() - self.start() + 1
    }
}

/// What kind of logical value a field holds.
#[derive(Clone, Copy, Debug)]
pub enum FieldKind {
    /// A single bit, read as a boolean.
    Bool,
    /// An unsigned integer over the field's bit window.
    Integer,
    /// An unsigned integer routed through a closed symbolic domain.
    Enumerated,
    /// The raw bytes of the byte range, untouched by the bit codec.
    ByteSlice,
    /// A sub-record occupying the byte range; the payload is the sub-record's
    /// declared byte length.
    Nested(u64),
}

/// Where one field lives: its byte range, its optional bit sub-range
/// (numbered from bit 0 = least significant bit of the last byte in the
/// range), and its kind. Absent bits imply the full width of the byte range.
#[derive(Clone, Copy, Debug)]
pub struct FieldLayout {
    pub byte: SingleOrRange,
    pub bits: Option<SingleOrRange>,
    pub kind: FieldKind,
}

impl FieldLayout {
    /// First byte index of the field within the record.
    pub open spec fn start_byte(self) -> int {
        self.byte.start_spec() as int
    }

    /// Last byte index of the field, inclusive.
    pub open spec fn end_byte(self) -> int {
        self.byte.end_incl_spec()
    }

    /// How many bytes the field addresses.
    pub open spec fn span(self) -> int {
        self.byte.len_spec()
    }

    /// First bit of the window, relative to the byte range.
    pub open spec fn start_bit(self) -> int {
        match self.bits {
            Some(b) => b.start_spec() as int,
            None => 0,
        }
    }

    /// Last bit of the window, inclusive, relative to the byte range. A
    /// boolean field with no explicit bit range addresses bit 0 alone; any
    /// other field spreads over the full width of its byte range.
    pub open spec fn end_bit(self) -> int {
        match self.bits {
            Some(b) => b.end_incl_spec(),
            None => if self.kind is Bool {
                0
            } else {
                8 * self.span() - 1
            },
        }
    }

    /// The window is one the 32-bit accumulator codec can address.
    pub open spec fn codec_ready(self) -> bool {
        &&& self.byte.valid()
        &&& 1 <= self.span() <= 4
        &&& 0 <= self.start_bit() <= self.end_bit() < 8 * self.span()
    }

    /// Every invariant a field must meet, by kind. Integer and enumerated
    /// fields are capped at the 32-bit accumulator's width: a wider byte range
    /// is a bad range for those kinds, a hard ceiling of the codec.
    pub open spec fn wf(self) -> bool {
        &&& self.byte.valid()
        &&& (self.bits matches Some(b) ==> b.valid() && b.end_incl_spec() < 8 * self.span())
        &&& match self.kind {
            FieldKind::Bool => self.span() == 1 && self.start_bit() == self.end_bit(),
            FieldKind::Integer => self.span() <= 4,
            FieldKind::Enumerated => self.span() == 1 || self.span() == 2 || self.span() == 4,
            FieldKind::ByteSlice => self.bits is None,
            FieldKind::Nested(n) => self.bits is None && self.span() == n,
        }
    }

    /// The fault `check_field` reports for this field, or `None` when it is
    /// well-formed. Checks run in this order: backwards ranges and spans too
    /// wide for the accumulator, then bit indices outside the byte range,
    /// then the kind-specific shape.
    pub open spec fn field_error(self) -> Option<LayoutError> {
        if !self.byte.valid() {
            Some(LayoutError::BadRange)
        } else if self.bits matches Some(b) && !b.valid() {
            Some(LayoutError::BadRange)
        } else if self.kind is Integer && self.span() > 4 {
            Some(LayoutError::BadRange)
        } else if self.kind is Enumerated && !(self.span() == 1 || self.span() == 2
            || self.span() == 4) {
            Some(LayoutError::BadRange)
        } else if self.bits matches Some(b) && b.end_incl_spec() >= 8 * self.span() {
            Some(LayoutError::BitRangeOutOfByteRange)
        } else if self.kind is Bool && !(self.span() == 1 && self.start_bit() == self.end_bit()) {
            Some(LayoutError::BadBoolRange)
        } else if (self.kind is ByteSlice || self.kind is Nested) && self.bits is Some {
            Some(LayoutError::NestedWithBits)
        } else if self.kind matches FieldKind::Nested(n) && self.span() != n {
            Some(LayoutError::NestedSizeMismatch)
        } else {
            None
        }
    }

    /// Resolves the field's addressed bytes and bit window for the codec:
    /// first byte, last byte (inclusive), first bit, last bit (inclusive).
    pub fn window(&self) -> (r: (usize, usize, u32, u32))
        requires
            self.codec_ready(),
        ensures
            r.0 == self.start_byte(),
            r.1 == self.end_byte(),
            r.2 == self.start_bit(),
            r.3 == self.end_bit(),
    {
        let sb = self.byte.start() as usize;
        let eb = self.byte.end_inclusive() as usize;
        match self.bits {
            Some(b) => (sb, eb, b.start(), b.end_inclusive()),
            None => {
                if matches!(self.kind, FieldKind::Bool) {
                    (sb, eb, 0, 0)
                } else {
                    (sb, eb, 0, ((eb - sb + 1) * 8 - 1) as u32)
                }
            },
        }
    }

    /// Definition-time check of one field against every invariant of the model.
    pub fn check_field(&self) -> (r: Result<(), LayoutError>)
        ensures
            r is Ok <==> self.wf(),
            r matches Err(e) ==> self.field_error() == Some(e),
    {
        if let Err(e) = self.byte.assert_range_valid() {
            return Err(e);
        }
        if let Some(b) = self.bits {
            if let Err(e) = b.assert_range_valid() {
                return Err(e);
            }
        }
        let start64: u64 = self.byte.start() as u64;
        let end64: u64 = self.byte.end_inclusive() as u64;
        let span64: u64 = end64 - start64 + 1;
        match self.kind {
            FieldKind::Integer => {
                if span64 > 4 {
                    return Err(LayoutError::BadRange);
                }
            },
            FieldKind::Enumerated => {
                if !(span64 == 1 || span64 == 2 || span64 == 4) {
                    return Err(LayoutError::BadRange);
                }
            },
            _ => {},
        }
        if let Some(b) = self.bits {
            if b.end_inclusive() as u64 >= 8 * span64 {
                return Err(LayoutError::BitRangeOutOfByteRange);
            }
        }
        match self.kind {
            FieldKind::Bool => {
                let one_bit = match self.bits {
                    Some(b) => b.start() == b.end_inclusive(),
                    None => span64 == 1,
                };
                if !(span64 == 1 && one_bit) {
                    return Err(LayoutError::BadBoolRange);
                }
            },
            FieldKind::ByteSlice => {
                if self.bits.is_some() {
                    return Err(LayoutError::NestedWithBits);
                }
            },
            FieldKind::Nested(n) => {
                if self.bits.is_some() {
                    return Err(LayoutError::NestedWithBits);
                }
                if span64 != n {
                    return Err(LayoutError::NestedSizeMismatch);
                }
            },
            _ => {},
        }
        Ok(())
    }
}

/// The largest byte index any field addresses; 0 when no field is declared.
pub open spec fn max_end_spec(fields: Seq<FieldLayout>) -> int
    decreases fields.len(),
{
    if fields.len() == 0 {
        0
    } else {
        let rest = max_end_spec(fields.drop_last());
        let e = fields.last().end_byte();
        if e > rest {
            e
        } else {
            rest
        }
    }
}

/// The record's byte length: one past the largest addressed byte index.
pub open spec fn record_len_spec(fields: Seq<FieldLayout>) -> int {
    1 + max_end_spec(fields)
}

/// Every field ends before the record's byte length.
pub proof fn lemma_field_within(fields: Seq<FieldLayout>, i: int)
    requires
        0 <= i < fields.len(),
    ensures
        fields[i].end_byte() < record_len_spec(fields),
    decreases fields.len(),
{
    if i < fields.len() - 1 {
        lemma_field_within(fields.drop_last(), i);
    }
}

/// Checks every field of a layout table; on success returns the record's
/// total byte length.
pub fn validate(fields: &Vec<FieldLayout>) -> (r: Result<u64, LayoutError>)
    ensures
        r is Ok <==> (forall|i: int| 0 <= i < fields@.len() ==> #[trigger] fields@[i].wf()),
        r matches Ok(n) ==> n == record_len_spec(fields@),
        r matches Err(e) ==> exists|i: int|
            0 <= i < fields@.len() && #[trigger] fields@[i].field_error() == Some(e)
                && (forall|j: int| 0 <= j < i ==> #[trigger] fields@[j].wf()),
{
    let mut max_end: u32 = 0;
    let mut idx: usize = 0;
    while idx < fields.len()
        invariant
            idx <= fields@.len(),
            forall|j: int| 0 <= j < idx ==> #[trigger] fields@[j].wf(),
            max_end == max_end_spec(fields@.subrange(0, idx as int)),
        decreases fields@.len() - idx,
    {
        let f = &fields[idx];
        if let Err(e) = f.check_field() {
            return Err(e);
        }
        let e = f.byte.end_inclusive();
        if e > max_end {
            max_end = e;
        }
        proof {
            assert(fields@.subrange(0, idx + 1).drop_last() =~= fields@.subrange(0, idx as int));
        }
        idx = idx + 1;
    }
    proof {
        assert(fields@.subrange(0, fields@.len() as int) =~= fields@);
    }
    Ok(max_end as u64 + 1)
}

/// A validated layout table: the ordered field list of one record type and
/// the record's total byte length. Build one with [`Record::define`].
#[derive(Debug, Clone)]
pub struct Record {
    pub fields: Vec<FieldLayout>,
    pub byte_len: u64,
}

impl Record {
    /// Every field is well-formed and `byte_len` is the declared record length.
    pub open spec fn wf(self) -> bool {
        &&& forall|i: int| 0 <= i < self.fields@.len() ==> #[trigger] self.fields@[i].wf()
        &&& self.byte_len == record_len_spec(self.fields@)
    }

    /// Defines a record type from its field table, validating every invariant.
    pub fn define(fields: Vec<FieldLayout>) -> (r: Result<Record, LayoutError>)
        ensures
            r matches Ok(rec) ==> rec.wf() && rec.fields == fields
                && rec.byte_len == record_len_spec(fields@),
            r is Ok <==> (forall|i: int| 0 <= i < fields@.len() ==> #[trigger] fields@[i].wf()),
            r matches Err(e) ==> exists|i: int|
                0 <= i < fields@.len() && #[trigger] fields@[i].field_error() == Some(e)
                    && (forall|j: int| 0 <= j < i ==> #[trigger] fields@[j].wf()),
    {
        match validate(&fields) {
            Ok(n) => Ok(Record { fields, byte_len: n }),
            Err(e) => Err(e),
        }
    }

    /// The record's total byte length, a property of the type.
    pub fn byte_len(&self) -> (r: u64)
        ensures
            r == self.byte_len,
    {
        self.byte_len
    }
}

} // verus!
