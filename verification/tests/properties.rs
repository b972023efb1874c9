//! Behavioural checks of the layout validation, the cast's length rule, the
//! codec's round trip and non-interference, and the enumerated adapter.

use overlay::enums::{ConversionError, EnumDomain};
use overlay::layout::{FieldKind, FieldLayout, LayoutError, Record, SingleOrRange, validate};
use overlay::view::{Error, Overlay, RecordView};

fn int_field(byte: SingleOrRange, bits: Option<SingleOrRange>) -> FieldLayout {
    FieldLayout {
        byte,
        bits,
        kind: FieldKind::Integer,
    }
}

fn one_field_record(f: FieldLayout) -> Record {
    Record::define(vec![f]).unwrap()
}

#[test]
fn validate_reports_backwards_byte_range() {
    let r = validate(&vec![int_field(SingleOrRange::Range(3, 3), None)]);
    assert_eq!(r, Err(LayoutError::BadRange));
    let r = validate(&vec![int_field(SingleOrRange::RangeIncl(4, 2), None)]);
    assert_eq!(r, Err(LayoutError::BadRange));
}

#[test]
fn validate_reports_backwards_bit_range() {
    let r = validate(&vec![int_field(
        SingleOrRange::Single(0),
        Some(SingleOrRange::Range(5, 2)),
    )]);
    assert_eq!(r, Err(LayoutError::BadRange));
}

#[test]
fn validate_reports_span_beyond_accumulator() {
    // five bytes exceed the 32-bit accumulator for an integer field
    let r = validate(&vec![int_field(SingleOrRange::RangeIncl(0, 4), None)]);
    assert_eq!(r, Err(LayoutError::BadRange));
    // a three-byte enumerated field has no representation width
    let r = validate(&vec![FieldLayout {
        byte: SingleOrRange::RangeIncl(0, 2),
        bits: None,
        kind: FieldKind::Enumerated,
    }]);
    assert_eq!(r, Err(LayoutError::BadRange));
}

#[test]
fn validate_reports_bits_outside_byte_range() {
    let r = validate(&vec![int_field(
        SingleOrRange::Single(0),
        Some(SingleOrRange::RangeIncl(0, 8)),
    )]);
    assert_eq!(r, Err(LayoutError::BitRangeOutOfByteRange));
}

#[test]
fn validate_reports_bad_bool_range() {
    // two bits
    let r = validate(&vec![FieldLayout {
        byte: SingleOrRange::Single(0),
        bits: Some(SingleOrRange::RangeIncl(0, 1)),
        kind: FieldKind::Bool,
    }]);
    assert_eq!(r, Err(LayoutError::BadBoolRange));
    // two bytes
    let r = validate(&vec![FieldLayout {
        byte: SingleOrRange::RangeIncl(0, 1),
        bits: Some(SingleOrRange::Single(0)),
        kind: FieldKind::Bool,
    }]);
    assert_eq!(r, Err(LayoutError::BadBoolRange));
}

#[test]
fn validate_reports_nested_with_bits() {
    let r = validate(&vec![FieldLayout {
        byte: SingleOrRange::RangeIncl(0, 2),
        bits: Some(SingleOrRange::Single(0)),
        kind: FieldKind::Nested(3),
    }]);
    assert_eq!(r, Err(LayoutError::NestedWithBits));
    let r = validate(&vec![FieldLayout {
        byte: SingleOrRange::RangeIncl(0, 2),
        bits: Some(SingleOrRange::Range(0, 8)),
        kind: FieldKind::ByteSlice,
    }]);
    assert_eq!(r, Err(LayoutError::NestedWithBits));
}

#[test]
fn validate_reports_nested_size_mismatch() {
    let r = validate(&vec![FieldLayout {
        byte: SingleOrRange::RangeIncl(0, 2),
        bits: None,
        kind: FieldKind::Nested(5),
    }]);
    assert_eq!(r, Err(LayoutError::NestedSizeMismatch));
}

#[test]
fn validate_returns_record_length() {
    // the record reaches one past the largest addressed byte
    let r = validate(&vec![
        int_field(SingleOrRange::RangeIncl(3, 4), None),
        int_field(SingleOrRange::Single(1), None),
    ]);
    assert_eq!(r, Ok(5));
    // the first invalid field decides the error
    let r = validate(&vec![
        int_field(SingleOrRange::Single(0), Some(SingleOrRange::RangeIncl(0, 9))),
        int_field(SingleOrRange::Range(2, 2), None),
    ]);
    assert_eq!(r, Err(LayoutError::BitRangeOutOfByteRange));
}

#[test]
fn cast_rejects_short_buffers() {
    // fails if and only if the buffer is shorter than the record
    let rec = one_field_record(int_field(SingleOrRange::RangeIncl(3, 4), None));
    assert_eq!(rec.byte_len, 5);
    for len in 0..5usize {
        let bytes = vec![0u8; len];
        let r = RecordView::overlay(
            one_field_record(int_field(SingleOrRange::RangeIncl(3, 4), None)),
            &bytes,
        );
        assert!(matches!(r, Err(Error::InsufficientLength)));
    }
    let exact = RecordView::overlay(
        one_field_record(int_field(SingleOrRange::RangeIncl(3, 4), None)),
        &[1u8, 2, 3, 4, 5],
    )
    .unwrap();
    assert_eq!(*exact.as_bytes(), [1, 2, 3, 4, 5]);
    // a longer buffer is accepted and only its prefix is addressed
    let longer = RecordView::overlay(
        one_field_record(int_field(SingleOrRange::RangeIncl(3, 4), None)),
        &[1u8, 2, 3, 4, 5, 6, 7],
    )
    .unwrap();
    assert_eq!(*longer.as_bytes(), [1, 2, 3, 4, 5]);
}

#[test]
fn round_trip_masks_to_window() {
    // an 11-bit window spanning two bytes: values within the window come
    // back whole, larger values come back truncated to the window
    let rec = one_field_record(int_field(
        SingleOrRange::RangeIncl(0, 1),
        Some(SingleOrRange::RangeIncl(2, 12)),
    ));
    let mut v = RecordView::new(rec);
    v.set(0, 0x7ff);
    assert_eq!(v.get(0), 0x7ff);
    v.set(0, 1281);
    assert_eq!(v.get(0), 1281);
    v.set(0, 0xffff_ffff);
    assert_eq!(v.get(0), 0x7ff);
    v.set(0, 0x800 | 5);
    assert_eq!(v.get(0), 5);
}

#[test]
fn setting_never_touches_other_bits() {
    // snapshot, set one field, and check the XOR of old and new bytes is a
    // subset of that field's bit window, here bits 2..=4 of byte 1
    let rec = Record::define(vec![
        int_field(SingleOrRange::RangeIncl(0, 1), None),
        int_field(SingleOrRange::Single(1), Some(SingleOrRange::RangeIncl(2, 4))),
    ])
    .unwrap();
    let snapshot = [0xa5u8, 0x5a];
    let mut v = RecordView::overlay(rec, &snapshot).unwrap();
    v.set(1, 0b101);
    let window_masks = [0x00u8, 0b0001_1100];
    for j in 0..2usize {
        let diff = v.as_bytes()[j] ^ snapshot[j];
        assert_eq!(diff & !window_masks[j], 0);
    }
    assert_eq!(v.get(1), 0b101);
}

#[test]
fn bool_set_and_clear() {
    let rec = Record::define(vec![
        FieldLayout {
            byte: SingleOrRange::Single(0),
            bits: Some(SingleOrRange::Single(6)),
            kind: FieldKind::Bool,
        },
        FieldLayout {
            byte: SingleOrRange::Single(0),
            bits: None,
            kind: FieldKind::Bool,
        },
    ])
    .unwrap();
    let mut v = RecordView::overlay(rec, &[0b0100_0000u8]).unwrap();
    assert_eq!(v.get_bool(0), true);
    assert_eq!(v.get_bool(1), false);
    v.set_bool(1, true);
    assert_eq!(*v.as_bytes(), [0b0100_0001]);
    v.set_bool(0, false);
    assert_eq!(*v.as_bytes(), [0b0000_0001]);
    assert_eq!(v.get_bool(0), false);
    assert_eq!(v.get_bool(1), true);
}

#[test]
fn enum_round_trip_over_domain() {
    // every raw value in the domain decodes to a member whose re-encoding
    // restores the exact bytes; every raw value outside fails and leaves
    // the bytes untouched
    let dom = EnumDomain {
        raws: vec![3, 9, 17],
    };
    let rec_of = || {
        one_field_record(FieldLayout {
            byte: SingleOrRange::Single(0),
            bits: None,
            kind: FieldKind::Enumerated,
        })
    };
    for raw in 0..=255u8 {
        let bytes = [raw];
        let mut v = RecordView::overlay(rec_of(), &bytes).unwrap();
        let decoded = v.get_enum(0, &dom);
        if dom.raws.contains(&(raw as u32)) {
            let sym = decoded.unwrap();
            assert_eq!(dom.raws[sym], raw as u32);
            v.set_enum(0, &dom, sym);
            assert_eq!(*v.as_bytes(), bytes);
        } else {
            assert_eq!(decoded, Err(ConversionError));
            assert_eq!(*v.as_bytes(), bytes);
        }
    }
}

#[test]
fn enum_zero_pattern_needs_zero_member() {
    // the all-zero default is well-formed storage; the enumerated getter
    // reports a conversion failure until the field is set, when no member
    // has raw value zero
    let dom = EnumDomain { raws: vec![7, 8] };
    let rec = one_field_record(FieldLayout {
        byte: SingleOrRange::Single(0),
        bits: None,
        kind: FieldKind::Enumerated,
    });
    let mut v = RecordView::new(rec);
    assert_eq!(v.get_enum(0, &dom), Err(ConversionError));
    v.set_enum(0, &dom, 1);
    assert_eq!(v.get_enum(0, &dom), Ok(1));
}

#[test]
fn nested_projection_shares_bytes() {
    // the projected view holds exactly the outer bytes of the field's
    // range, and splicing an edited projection back changes exactly them
    let sub = Record::define(vec![int_field(SingleOrRange::RangeIncl(0, 1), None)]).unwrap();
    let rec = Record::define(vec![
        int_field(SingleOrRange::Single(0), None),
        FieldLayout {
            byte: SingleOrRange::RangeIncl(1, 2),
            bits: None,
            kind: FieldKind::Nested(2),
        },
        int_field(SingleOrRange::Single(3), None),
    ])
    .unwrap();
    let mut outer = RecordView::overlay(rec, &[10u8, 20, 30, 40]).unwrap();
    let sub2 = Record::define(vec![int_field(SingleOrRange::RangeIncl(0, 1), None)]).unwrap();
    let mut inner = outer.nested(1, sub);
    assert_eq!(*inner.as_bytes(), [20, 30]);
    assert_eq!(inner.get(0), 20 << 8 | 30);
    inner.set(0, 0xbeef);
    outer.splice_nested(1, &inner);
    assert_eq!(*outer.as_bytes(), [10, 0xbe, 0xef, 40]);
    let again = outer.nested(1, sub2);
    assert_eq!(again.get(0), 0xbeef);
}

#[test]
fn explicit_full_width_bits_equal_implied() {
    // a field declared with only a byte range behaves exactly like one
    // declared with the full-width bit range
    let implied = one_field_record(int_field(SingleOrRange::RangeIncl(0, 1), None));
    let explicit = one_field_record(int_field(
        SingleOrRange::RangeIncl(0, 1),
        Some(SingleOrRange::Range(0, 16)),
    ));
    let bytes = [0xc3u8, 0x5a];
    let a = RecordView::overlay(implied, &bytes).unwrap();
    let b = RecordView::overlay(explicit, &bytes).unwrap();
    assert_eq!(a.get(0), b.get(0));
    assert_eq!(a.get(0), 0xc35a);
}
