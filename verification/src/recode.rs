//! Re-reading archived pages, which were saved in ISO-8859-1, as text.

use vstd::prelude::*;
use crate::forum::{is_image, is_image_path};
use crate::outside::decode_latin1;

verus! {

/// The text that bytes in ISO-8859-1 stand for: each byte is the
/// character with the same code.
pub open spec fn latin1_text(bytes: Seq<u8>) -> Seq<char> {
    bytes.map_values(|b: u8| b as char)
}

/// Whether a file is re-read: every file but pictures.
pub fn needs_recoding(path: &str) -> (res: bool)
    ensures
        res == !is_image(path@),
{
    !is_image_path(path)
}

/// The text that a file's bytes in ISO-8859-1 stand for.
pub fn recode_latin1(bytes: &[u8]) -> (res: String)
    ensures
        res@ == latin1_text(bytes@),
        res@.len() == bytes@.len(),
{
    decode_latin1(bytes).unwrap()
}

} // verus!
