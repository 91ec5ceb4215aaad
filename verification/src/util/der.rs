//! Reading values that the remote service writes as numbers or as text.

use crate::codec::Scalar;
use vstd::prelude::*;

verus! {

/// Why a value of the wire is not what it should be.
#[derive(Debug, Clone, Copy, PartialEq, Eq, Structural)]
pub enum WireError {
    /// A flag that is neither 0 nor 1.
    NotAFlag(i64),
    /// A text that does not write a value of the type that is expected.
    NotAValue,
}

/// Reads a flag that is written as a number: 0 is false, 1 is true, and no other
/// number is a flag.
pub fn bool_from_number(value: i64) -> (flag: Result<bool, WireError>)
    ensures
        value == 0 ==> flag == Ok::<bool, WireError>(false),
        value == 1 ==> flag == Ok::<bool, WireError>(true),
        value != 0 && value != 1 ==> flag == Err::<bool, WireError>(WireError::NotAFlag(value)),
{
    if value == 0 {
        Ok(false)
    } else if value == 1 {
        Ok(true)
    } else {
        Err(WireError::NotAFlag(value))
    }
}

/// Reads a value that is written as text.
pub fn from_string<T: Scalar>(text: &str) -> (value: Result<T, WireError>)
    ensures
        match value {
            Ok(v) => T::decoded(text@) == Some(v@),
            Err(e) => T::decoded(text@) is None && e == WireError::NotAValue,
        },
{
    match T::decode(text) {
        Some(v) => Ok(v),
        None => Err(WireError::NotAValue),
    }
}

/// Reads a value that is written as text and may be missing: a text that
/// writes no value counts as missing.
pub fn opt_from_string<T: Scalar>(text: &str) -> (value: Option<T>)
    ensures
        match value {
            Some(v) => T::decoded(text@) == Some(v@),
            None => T::decoded(text@) is None,
        },
{
    match from_string::<T>(text) {
        Ok(v) => Some(v),
        Err(_) => None,
    }
}

} // verus!
