//! Text out of bytes that need not be valid UTF-8.

use vstd::prelude::*;
use vstd::utf8::*;

verus! {

/// What `String::from_utf8_lossy` makes of a byte string that is not valid UTF-8.
pub uninterp spec fn utf8_repaired(bytes: Seq<u8>) -> Seq<char>;

/// The text that a byte string stands for: what it encodes where it is valid UTF-8, and otherwise
/// what is left of it once the invalid parts are replaced.
pub open spec fn text_of_bytes(bytes: Seq<u8>) -> Seq<char> {
    if valid_utf8(bytes) {
        decode_utf8(bytes)
    } else {
        utf8_repaired(bytes)
    }
}

/// Decodes UTF-8 with `String::from_utf8_lossy`.
///
/// Valid UTF-8 decodes to the text that it encodes. In anything else each invalid part comes out
/// as U+FFFD, so that at least one such character is in the result.
#[verifier::external_body]
pub(crate) fn decode_lossy(bytes: &[u8]) -> (text: String)
    ensures
        valid_utf8(bytes@) ==> text@ == decode_utf8(bytes@),
        !valid_utf8(bytes@) ==> text@ == utf8_repaired(bytes@),
        !valid_utf8(bytes@) ==> text@.contains('\u{fffd}'),
{
    String::from_utf8_lossy(bytes).into_owned()
}

/// Bytes that encode a text stand for that text.
pub proof fn lemma_text_of_encoded(text: Seq<char>)
    ensures
        text_of_bytes(encode_utf8(text)) == text,
{
    encode_utf8_valid_utf8(text);
    encode_utf8_decode_utf8(text);
}

/// What a byte string stands for: the text where it encodes one, whichever that is, and else what
/// the repair makes of it.
pub proof fn law_only_broken_text_is_repaired(text: Seq<char>, bytes: Seq<u8>)
    ensures
        text_of_bytes(encode_utf8(text)) == text,
        valid_utf8(bytes) ==> encode_utf8(text_of_bytes(bytes)) == bytes,
        !valid_utf8(bytes) ==> text_of_bytes(bytes) == utf8_repaired(bytes),
{
    lemma_text_of_encoded(text);
    if valid_utf8(bytes) {
        decode_utf8_encode_utf8(bytes);
    }
}

} // verus!
