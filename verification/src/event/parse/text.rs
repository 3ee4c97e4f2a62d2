//! Bytes as text.
use vstd::prelude::*;
use vstd::utf8::{decode_utf8, valid_utf8};

verus! {

/// The text that `String::from_utf8_lossy` makes of bytes.
pub uninterp spec fn lossy_text(bytes: Seq<u8>) -> Seq<char>;

/// `String::from_utf8_lossy` turns bytes into text. The text depends on the bytes alone, and valid
/// UTF-8 becomes exactly the text that it encodes; what takes the place of invalid bytes is left
/// to the function.
#[verifier::external_body]
pub(crate) fn text_from_bytes(bytes: &[u8]) -> (r: String)
    ensures
        r@ == lossy_text(bytes@),
        valid_utf8(bytes@) ==> r@ == decode_utf8(bytes@),
{
    String::from_utf8_lossy(bytes).into_owned()
}

/// The text that bytes are taken for: what they encode, where they are valid UTF-8.
pub open spec fn text_of(bytes: Seq<u8>) -> Seq<char> {
    if valid_utf8(bytes) {
        decode_utf8(bytes)
    } else {
        lossy_text(bytes)
    }
}

/// `std::str::from_utf8` takes bytes as text if, and only if, they are valid UTF-8.
#[verifier::external_body]
pub(crate) fn text_in_bytes(bytes: &[u8]) -> (r: Option<&str>)
    ensures
        r is Some <==> valid_utf8(bytes@),
        r matches Some(text) ==> text@ == decode_utf8(bytes@),
{
    std::str::from_utf8(bytes).ok()
}

/// Whether `char::is_uppercase` counts a character as upper case.
pub uninterp spec fn upper_case(c: char) -> bool;

/// `char::is_uppercase` tells whether a character has the Unicode property `Uppercase`. The answer
/// depends on the character alone, and among the ASCII characters `A` to `Z` have the property.
pub assume_specification[ char::is_uppercase ](c: char) -> (r: bool)
    ensures
        r == upper_case(c),
        c as u32 <= 0x7f ==> r == (0x41 <= c as u32 <= 0x5a),
;

/// Whether a character is upper case.
pub open spec fn is_upper(c: char) -> bool {
    if c as u32 <= 0x7f {
        0x41 <= c as u32 <= 0x5a
    } else {
        upper_case(c)
    }
}

/// What the bytes of a character say before the character is known.
pub enum CharBytes {
    /// The character that the bytes begin with.
    Complete(char),
    /// A beginning of a character.
    Partial,
    /// No beginning of a character.
    Malformed,
}

/// How many bytes a character has that begins with this byte; 0 for a byte that begins none.
pub open spec fn char_width(first: u8) -> int {
    if first <= 0x7f {
        1
    } else if 0xc0 <= first <= 0xdf {
        2
    } else if 0xe0 <= first <= 0xef {
        3
    } else if 0xf0 <= first <= 0xf7 {
        4
    } else {
        0
    }
}

/// Bytes in UTF-8 give their first character. Other bytes are the beginning of a character while
/// they are fewer than their first byte asks for and continue as a character does.
pub open spec fn char_bytes(bytes: Seq<u8>) -> CharBytes {
    if valid_utf8(bytes) {
        CharBytes::Complete(decode_utf8(bytes)[0])
    } else if bytes.len() < char_width(bytes[0]) && (forall|i: int|
        1 <= i < bytes.len() ==> 0x80 <= #[trigger] bytes[i] <= 0xbf) {
        CharBytes::Partial
    } else {
        CharBytes::Malformed
    }
}

fn width_of_char(first: u8) -> (r: usize)
    ensures
        r == char_width(first),
{
    if first <= 0x7f {
        1
    } else if 0xc0 <= first && first <= 0xdf {
        2
    } else if 0xe0 <= first && first <= 0xef {
        3
    } else if 0xf0 <= first && first <= 0xf7 {
        4
    } else {
        0
    }
}

/// Reads the first character of bytes that are not empty.
pub fn read_char(bytes: &[u8]) -> (r: CharBytes)
    requires
        bytes@.len() > 0,
    ensures
        r == char_bytes(bytes@),
{
    match text_in_bytes(bytes) {
        Some(text) => {
            assert(decode_utf8(bytes@).len() > 0);
            CharBytes::Complete(text.get_char(0))
        },
        None => {
            if bytes.len() >= width_of_char(bytes[0]) {
                return CharBytes::Malformed;
            }
            let mut i: usize = 1;
            while i < bytes.len()
                invariant
                    1 <= i <= bytes@.len(),
                    forall|j: int| 1 <= j < i ==> 0x80 <= #[trigger] bytes@[j] <= 0xbf,
                    !valid_utf8(bytes@),
                decreases bytes@.len() - i,
            {
                if bytes[i] < 0x80 || bytes[i] > 0xbf {
                    return CharBytes::Malformed;
                }
                i = i + 1;
            }
            CharBytes::Partial
        },
    }
}

} // verus!
