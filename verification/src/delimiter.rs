//! Reading a field delimiter that was given as text.

use vstd::prelude::*;
use vstd::string::{is_ascii, is_ascii_spec_bytes, StringSliceAdditionalSpecFns};
use vstd::utf8::is_ascii_chars;

verus! {

/// Whether `text` is one ASCII character and nothing else.
pub open spec fn is_single_ascii(text: Seq<char>) -> bool {
    text.len() == 1 && is_ascii_chars(text)
}

/// Reads `s` as a one-byte delimiter: the byte of its character where `s` is
/// a single ASCII character, and an error for any other text.
pub fn str_as_char_u8(s: &str) -> (byte: Result<u8, ()>)
    ensures
        match byte {
            Ok(b) => is_single_ascii(s@) && b == s@[0] as u8,
            Err(_) => !is_single_ascii(s@),
        },
{
    broadcast use is_ascii_spec_bytes;

    proof {
        if is_ascii(s) {
            assert(s.spec_bytes().len() == s@.len());
        }
    }
    let bytes = s.as_bytes();
    if s.is_ascii() && bytes.len() == 1 {
        Ok(bytes[0])
    } else {
        Err(())
    }
}

} // verus!
