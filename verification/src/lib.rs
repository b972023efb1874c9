//! Bit-field layout model and codec for fixed-size, bit-packed binary records.
//!
//! A record type is described once, as an ordered table of [`layout::FieldLayout`]
//! entries; the table is validated at definition time. A byte buffer can then be
//! cast to a typed view and every declared field decoded from, or encoded into,
//! its exact bit window without disturbing neighbouring bits.
//!
//! [`layout`] holds the field model and its validation; [`codec`] the
//! big-endian bit-packing arithmetic with its laws — the encode/decode round
//! trip, non-interference between disjoint windows, and re-encoding as the
//! identity; [`view`] the length-checked cast and nested projection; and
//! [`enums`] the adapter between raw field values and closed symbolic
//! domains.

pub mod codec;
pub mod enums;
pub mod layout;
pub mod view;
