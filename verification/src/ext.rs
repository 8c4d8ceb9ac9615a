use vstd::prelude::*;

use vstd::utf8::{encode_utf8, valid_utf8};

verus! {

// The few outside calls the library's logic leans on, each behind a trusted
// wrapper whose contract states what the outside code's source shows.

/// The standard, padded base64 encoding of `b`, as ASCII bytes.
pub uninterp spec fn base64_bytes(b: Seq<u8>) -> Seq<u8>;

/// Relies on `cosmwasm_std::Binary::to_base64`: standard alphabet, padded;
/// the encoding is a function of the bytes alone, and every byte of it is
/// one of `A-Z a-z 0-9 + / =`, all within `0x2B ..= 0x7A`.
#[verifier::external_body]
pub(crate) fn base64_encode(b: &Vec<u8>) -> (r: String)
    ensures
        encode_utf8(r@) == base64_bytes(b@) && (forall|i: int|
            0 <= i < encode_utf8(r@).len() ==> 0x2B <= #[trigger] encode_utf8(r@)[i] <= 0x7A),
{
    cosmwasm_std::Binary(b.clone()).to_base64()
}

/// Relies on `cosmwasm_std::Binary::from_base64`: standard alphabet, padding
/// accepted with or without; decoding a string produced by the standard
/// padded encoding returns exactly the bytes that were encoded.
#[verifier::external_body]
pub(crate) fn base64_decode(s: &str) -> (r: Option<Vec<u8>>)
    ensures
        r is None ==> forall|v: Seq<u8>| encode_utf8(s@) != #[trigger] base64_bytes(v),
        r matches Some(u) ==> forall|v: Seq<u8>|
            encode_utf8(s@) == #[trigger] base64_bytes(v) ==> u@ == v,
{
    match cosmwasm_std::Binary::from_base64(s) {
        Ok(b) => Some(b.0),
        Err(_) => None,
    }
}

/// Relies on `String::from_utf8`: succeeds exactly on valid UTF-8, returning
/// the string whose UTF-8 encoding is the input.
#[verifier::external_body]
pub(crate) fn bytes_to_string(b: Vec<u8>) -> (r: Option<String>)
    ensures
        r matches Some(s) ==> valid_utf8(b@) && encode_utf8(s@) == b@,
        r is None ==> !valid_utf8(b@),
{
    match String::from_utf8(b) {
        Ok(s) => Some(s),
        Err(_) => None,
    }
}

} // verus!
