//! UTF-8 text inside payloads.

use vstd::prelude::*;
use vstd::string::StringSliceAdditionalSpecFns;
use vstd::utf8::valid_utf8;

verus! {

/// The error of `core::str::from_utf8`, carried through unread.
#[verifier::external_type_specification]
#[verifier::external_body]
pub struct ExUtf8Error(core::str::Utf8Error);

/// `core::str::from_utf8` accepts exactly the well-formed UTF-8 byte
/// strings, and the string slice it returns is made of the very bytes it was
/// given.
pub assume_specification[ core::str::from_utf8 ](v: &[u8]) -> (outcome: Result<
    &str,
    core::str::Utf8Error,
>)
    ensures
        outcome is Ok <==> valid_utf8(v@),
        outcome matches Ok(text) ==> text.spec_bytes() == v@,
;

/// Why a payload cannot be read.
#[derive(Debug, PartialEq, Eq)]
pub enum PayloadError {
    /// The payload ends before a field or an announced text does.
    Eof,
    /// A text is not well-formed UTF-8.
    Utf8,
}

/// Reads `bytes` as text.
pub fn decode_text(bytes: &[u8]) -> (outcome: Result<&str, PayloadError>)
    ensures
        valid_utf8(bytes@) ==> outcome is Ok && outcome->Ok_0.spec_bytes() == bytes@,
        !valid_utf8(bytes@) ==> outcome == Err::<&str, PayloadError>(PayloadError::Utf8),
{
    match core::str::from_utf8(bytes) {
        Ok(text) => Ok(text),
        Err(_) => Err(PayloadError::Utf8),
    }
}

} // verus!
