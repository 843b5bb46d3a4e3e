//! What this crate takes on trust of the standard library: the two
//! functions below, which Verus has no specification for. Nothing here is
//! proved; everything else in the crate is.

use vstd::prelude::*;
use vstd::utf8::decode_utf8;
use vstd::utf8::valid_utf8;

verus! {

/// The error type of `core::str::from_utf8`. It is carried through unread.
#[verifier::external_type_specification]
#[verifier::external_body]
pub struct ExUtf8Error(core::str::Utf8Error);

/// `core::str::from_utf8` succeeds exactly on the byte sequences that are
/// valid UTF-8, and the string slice it then returns holds the characters
/// that those bytes encode.
pub assume_specification[ core::str::from_utf8 ](v: &[u8]) -> (res: Result<
    &str,
    core::str::Utf8Error,
>)
    ensures
        res is Ok <==> valid_utf8(v@),
        res matches Ok(s) ==> s@ == decode_utf8(v@),
;

/// `String::push` appends the character to the end of the string and
/// leaves what stood there before unchanged.
pub assume_specification[ String::push ](s: &mut String, c: char)
    ensures
        final(s)@ == old(s)@.push(c),
;

} // verus!
