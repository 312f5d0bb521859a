use vstd::prelude::*;

verus! {

/// Why a bencoded buffer could not be decoded.
#[derive(Clone, Copy, Debug, PartialEq, Eq, Structural)]
pub enum ParseError {
    /// A length or an integer is not a decimal numeral that fits in 64 bits.
    Int,
    /// A string that must be text is not valid UTF-8.
    Str,
    /// The buffer is empty, ends too early, or holds a byte that starts no value.
    BadFile,
}

} // verus!
