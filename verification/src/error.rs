//! Validation errors: one kind per invalid field per constructor, each
//! carrying the offending value.

use vstd::prelude::*;

verus! {

/// The error returned when a constructor rejects an input.
///
/// Numeric payloads are in the same fixed-point micro-units as the rejected
/// argument; `IncorrectLength` carries the length of the offending hex string.
#[derive(Clone, Copy, Debug, PartialEq, Eq, Structural)]
pub enum ColorError {
    RedOutOfRange(i64),
    GreenOutOfRange(i64),
    BlueOutOfRange(i64),
    CyanOutOfRange(i64),
    MagentaOutOfRange(i64),
    YellowOutOfRange(i64),
    BlackOutOfRange(i64),
    HueOutOfRange(i64),
    SaturationOutOfRange(i64),
    LightnessOutOfRange(i64),
    ValueOutOfRange(i64),
    IncorrectLength(usize),
    InvalidHexSyntax,
}

} // verus!
