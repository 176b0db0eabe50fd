//! Images out of the clipboard.

use crate::text::{decimal, push_decimal};
use vstd::prelude::*;
use vstd::string::StringExecFns;

verus! {

/// An image of four bytes for each pixel, row by row.
#[derive(Debug)]
pub struct RgbaPixels {
    pub width: u32,
    pub height: u32,
    pub bytes: Vec<u8>,
}

/// Whether a buffer of `len` bytes holds an image of this size.
pub open spec fn holds_image(width: u32, height: u32, len: nat) -> bool {
    4 * width <= usize::MAX && 4 * width * height <= len
}

/// `ImageBuffer::from_raw` of the `image` crate, for four 8-bit channels: an
/// image over the buffer, or `None` where the buffer is too small for the
/// width and the height. The image is handed out as the buffer it keeps, which
/// is the one that was given.
#[verifier::external_body]
fn image_from_raw(width: u32, height: u32, bytes: Vec<u8>) -> (r: Option<Vec<u8>>)
    ensures
        match r {
            Some(kept) => holds_image(width, height, bytes@.len()) && kept@ == bytes@,
            None => !holds_image(width, height, bytes@.len()),
        },
{
    match image::ImageBuffer::<image::Rgba<u8>, Vec<u8>>::from_raw(width, height, bytes) {
        Some(image) => Some(image.into_raw()),
        None => None,
    }
}

/// Checks an image that came from the clipboard. Its width and height are
/// taken modulo 2^32.
pub fn clipboard_image(width: usize, height: usize, bytes: Vec<u8>) -> (r: Result<
    RgbaPixels,
    String,
>)
    ensures
        match r {
            Ok(image) => {
                &&& holds_image(width as u32, height as u32, bytes@.len())
                &&& image.width == width as u32
                &&& image.height == height as u32
                &&& image.bytes@ == bytes@
            },
            Err(e) => {
                &&& !holds_image(width as u32, height as u32, bytes@.len())
                &&& e@ == "剪贴板图片像素格式异常"@
            },
        },
{
    #[verifier::truncate]
    let width: u32 = width as u32;
    #[verifier::truncate]
    let height: u32 = height as u32;
    match image_from_raw(width, height, bytes) {
        Some(bytes) => Ok(RgbaPixels { width, height, bytes }),
        None => Err("剪贴板图片像素格式异常".to_owned()),
    }
}

/// The name of the file in which an image of the clipboard is kept.
pub fn clipboard_file_name(now_ms: u128) -> (r: String)
    ensures
        r@ == "clipboard-"@ + decimal(now_ms as nat) + ".png"@,
{
    let mut name = "clipboard-".to_owned();
    push_decimal(&mut name, now_ms);
    name.append(".png");
    name
}

/// A buffer holds an image exactly if it has four bytes for each pixel, where
/// the row itself can be counted.
pub proof fn lemma_holds_image(width: u32, height: u32, len: nat)
    requires
        len <= usize::MAX,
    ensures
        holds_image(width, height, len) ==> len >= 4 * width * height,
        len >= 4 * width * height && 4 * width <= usize::MAX ==> holds_image(width, height, len),
{
}

} // verus!
