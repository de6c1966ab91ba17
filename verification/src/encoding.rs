//! Texts and the bytes that stand for them.

use vstd::prelude::*;

verus! {

/// What `String::from_utf8_lossy` makes of bytes that are no UTF-8.
pub uninterp spec fn replaced_text(bytes: Seq<u8>) -> Seq<char>;

/// The text that bytes stand for, where they are UTF-8.
pub open spec fn utf8(bytes: Seq<u8>) -> Option<Seq<char>> {
    if vstd::utf8::valid_utf8(bytes) {
        Some(vstd::utf8::decode_utf8(bytes))
    } else {
        None
    }
}

/// The text that bytes stand for, with replacement characters for what is no UTF-8.
pub open spec fn lossy(bytes: Seq<u8>) -> Seq<char> {
    match utf8(bytes) {
        Some(text) => text,
        None => replaced_text(bytes),
    }
}

/// The UTF-8 bytes of a text.
pub open spec fn encoded(text: Seq<char>) -> Seq<u8> {
    vstd::utf8::encode_utf8(text)
}

/// `std::str::from_utf8` accepts exactly the bytes that are UTF-8, and yields the text that they
/// encode.
#[verifier::external_body]
pub(crate) fn utf8_text(bytes: &Vec<u8>) -> (text: Option<String>)
    ensures
        match text {
            Some(t) => utf8(bytes@) == Some(t@),
            None => utf8(bytes@) is None,
        },
{
    match std::str::from_utf8(bytes) {
        Ok(text) => Some(text.to_owned()),
        Err(_) => None,
    }
}

/// `String::from_utf8_lossy` yields the text that UTF-8 bytes encode; its result for other bytes is
/// named and not described further.
#[verifier::external_body]
pub(crate) fn lossy_text(bytes: &Vec<u8>) -> (text: String)
    ensures
        vstd::utf8::valid_utf8(bytes@) ==> text@ == vstd::utf8::decode_utf8(bytes@),
        !vstd::utf8::valid_utf8(bytes@) ==> text@ == replaced_text(bytes@),
{
    String::from_utf8_lossy(bytes).into_owned()
}

/// The UTF-8 bytes of a text.
pub fn text_bytes(text: &str) -> (bytes: Vec<u8>)
    ensures
        bytes@ == encoded(text@),
{
    text.as_bytes_vec()
}

/// The bytes of a text stand for that text.
pub proof fn law_encoded_text_is_read_back(text: Seq<char>)
    ensures
        utf8(encoded(text)) == Some(text),
        lossy(encoded(text)) == text,
{
    broadcast use vstd::utf8::encode_utf8_valid_utf8, vstd::utf8::encode_utf8_decode_utf8;

}

}
