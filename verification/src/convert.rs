//! Conversions from native values to [`Field`]: every signed width gives an
//! integer field, every unsigned width an unsigned integer field, the text of
//! a float a float field, a bool a bool field, and other text a string field.

use crate::field::{Field, FieldValue, FloatText};
use vstd::prelude::*;
use vstd::std_specs::convert::FromSpecImpl;

verus! {

impl From<u8> for Field {
    fn from(v: u8) -> (r: Field) {
        Field::UInteger(v as u128)
    }
}

impl FromSpecImpl<u8> for Field {
    open spec fn obeys_from_spec() -> bool {
        true
    }

    open spec fn from_spec(v: u8) -> Field {
        Field::UInteger(v as u128)
    }
}

impl From<u16> for Field {
    fn from(v: u16) -> (r: Field) {
        Field::UInteger(v as u128)
    }
}

impl FromSpecImpl<u16> for Field {
    open spec fn obeys_from_spec() -> bool {
        true
    }

    open spec fn from_spec(v: u16) -> Field {
        Field::UInteger(v as u128)
    }
}

impl From<u32> for Field {
    fn from(v: u32) -> (r: Field) {
        Field::UInteger(v as u128)
    }
}

impl FromSpecImpl<u32> for Field {
    open spec fn obeys_from_spec() -> bool {
        true
    }

    open spec fn from_spec(v: u32) -> Field {
        Field::UInteger(v as u128)
    }
}

impl From<u64> for Field {
    fn from(v: u64) -> (r: Field) {
        Field::UInteger(v as u128)
    }
}

impl FromSpecImpl<u64> for Field {
    open spec fn obeys_from_spec() -> bool {
        true
    }

    open spec fn from_spec(v: u64) -> Field {
        Field::UInteger(v as u128)
    }
}

impl From<u128> for Field {
    fn from(v: u128) -> (r: Field) {
        Field::UInteger(v)
    }
}

impl FromSpecImpl<u128> for Field {
    open spec fn obeys_from_spec() -> bool {
        true
    }

    open spec fn from_spec(v: u128) -> Field {
        Field::UInteger(v)
    }
}

impl From<i8> for Field {
    fn from(v: i8) -> (r: Field) {
        Field::Integer(v as i128)
    }
}

impl FromSpecImpl<i8> for Field {
    open spec fn obeys_from_spec() -> bool {
        true
    }

    open spec fn from_spec(v: i8) -> Field {
        Field::Integer(v as i128)
    }
}

impl From<i16> for Field {
    fn from(v: i16) -> (r: Field) {
        Field::Integer(v as i128)
    }
}

impl FromSpecImpl<i16> for Field {
    open spec fn obeys_from_spec() -> bool {
        true
    }

    open spec fn from_spec(v: i16) -> Field {
        Field::Integer(v as i128)
    }
}

impl From<i32> for Field {
    fn from(v: i32) -> (r: Field) {
        Field::Integer(v as i128)
    }
}

impl FromSpecImpl<i32> for Field {
    open spec fn obeys_from_spec() -> bool {
        true
    }

    open spec fn from_spec(v: i32) -> Field {
        Field::Integer(v as i128)
    }
}

impl From<i64> for Field {
    fn from(v: i64) -> (r: Field) {
        Field::Integer(v as i128)
    }
}

impl FromSpecImpl<i64> for Field {
    open spec fn obeys_from_spec() -> bool {
        true
    }

    open spec fn from_spec(v: i64) -> Field {
        Field::Integer(v as i128)
    }
}

impl From<i128> for Field {
    fn from(v: i128) -> (r: Field) {
        Field::Integer(v)
    }
}

impl FromSpecImpl<i128> for Field {
    open spec fn obeys_from_spec() -> bool {
        true
    }

    open spec fn from_spec(v: i128) -> Field {
        Field::Integer(v)
    }
}

impl From<FloatText> for Field {
    fn from(v: FloatText) -> (r: Field) {
        Field::Float(v)
    }
}

impl FromSpecImpl<FloatText> for Field {
    open spec fn obeys_from_spec() -> bool {
        true
    }

    open spec fn from_spec(v: FloatText) -> Field {
        Field::Float(v)
    }
}

impl From<bool> for Field {
    fn from(v: bool) -> (r: Field) {
        Field::Bool(v)
    }
}

impl FromSpecImpl<bool> for Field {
    open spec fn obeys_from_spec() -> bool {
        true
    }

    open spec fn from_spec(v: bool) -> Field {
        Field::Bool(v)
    }
}

impl From<String> for Field {
    fn from(v: String) -> (r: Field) {
        Field::String(v)
    }
}

impl FromSpecImpl<String> for Field {
    open spec fn obeys_from_spec() -> bool {
        true
    }

    open spec fn from_spec(v: String) -> Field {
        Field::String(v)
    }
}

impl<'a> From<&'a str> for Field {
    fn from(v: &'a str) -> (r: Field)
        ensures
            r@ == FieldValue::String(v@),
    {
        Field::String(v.to_owned())
    }
}

// The string that `from` allocates has no name in specifications: what the
// conversion returns is stated by the `ensures` of `from` above.
impl<'a> FromSpecImpl<&'a str> for Field {
    open spec fn obeys_from_spec() -> bool {
        false
    }

    open spec fn from_spec(v: &'a str) -> Field {
        arbitrary()
    }
}

} // verus!
