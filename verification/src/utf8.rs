//! UTF-8 validation of byte strings, through `core::str::from_utf8`.
use vstd::prelude::*;
use vstd::string::StringSliceAdditionalSpecFns;
use vstd::utf8::valid_utf8;

verus! {

/// `core::str::from_utf8`: the bytes read as a string slice when they are
/// well-formed UTF-8 (as `valid_utf8` defines it), otherwise nothing. The
/// contract claims exactly what the function's documentation states: it
/// succeeds on valid UTF-8 only, and the resulting slice has those bytes.
#[verifier::external_body]
pub(crate) fn str_from_utf8(v: &[u8]) -> (r: Option<&str>)
    ensures
        r is Some <==> valid_utf8(v@),
        r matches Some(s) ==> s.spec_bytes() == v@,
{
    core::str::from_utf8(v).ok()
}

} // verus!
