use vstd::prelude::*;

verus! {

/// A byte that an HTTP header value may hold: horizontal tab, or any byte
/// from space upwards except DEL.
pub open spec fn is_header_value_byte(b: u8) -> bool {
    (b >= 32 && b != 127) || b == 9
}

/// A byte that a header value may hold if it is to be read as text:
/// horizontal tab or visible ASCII.
pub open spec fn is_visible_ascii_byte(b: u8) -> bool {
    (b >= 32 && b < 127) || b == 9
}

/// Every byte of `bytes` may stand in a header value.
pub open spec fn valid_header_bytes(bytes: Seq<u8>) -> bool {
    forall|i: int| 0 <= i < bytes.len() ==> #[trigger] is_header_value_byte(bytes[i])
}

/// Every byte of `bytes` is visible ASCII or a tab.
pub open spec fn visible_ascii_bytes(bytes: Seq<u8>) -> bool {
    forall|i: int| 0 <= i < bytes.len() ==> #[trigger] is_visible_ascii_byte(bytes[i])
}

/// The text whose characters are the bytes of an ASCII byte string.
pub open spec fn ascii_text(bytes: Seq<u8>) -> Seq<char> {
    Seq::new(bytes.len(), |i: int| bytes[i] as char)
}

/// The UTF-8 bytes of a text.
pub open spec fn text_bytes(text: Seq<char>) -> Seq<u8> {
    vstd::utf8::encode_utf8(text)
}

/// Whether `http::HeaderValue::from_str` accepts `text`. It accepts exactly
/// the texts whose UTF-8 bytes are all tabs or bytes from space upwards other
/// than DEL.
#[verifier::external_body]
pub(crate) fn header_value_accepts(text: &str) -> (accepted: bool)
    ensures
        accepted == valid_header_bytes(text_bytes(text@)),
{
    http::HeaderValue::from_str(text).is_ok()
}

/// The text of a raw header value as `http::HeaderValue::to_str` yields it:
/// `Some` exactly when every byte is visible ASCII or a tab, and then the text
/// has one character per byte. The bytes are first made into a
/// `http::HeaderValue` by `http::HeaderValue::from_bytes`, which accepts every
/// such byte string.
#[verifier::external_body]
pub(crate) fn header_value_text(raw: &[u8]) -> (text: Option<String>)
    ensures
        text is Some <==> visible_ascii_bytes(raw@),
        text matches Some(t) ==> t@ == ascii_text(raw@),
{
    match http::HeaderValue::from_bytes(raw) {
        Ok(value) => match value.to_str() {
            Ok(t) => Some(t.to_string()),
            Err(_) => None,
        },
        Err(_) => None,
    }
}

} // verus!
