//! Decoded images.

use vstd::prelude::*;

verus! {

/// What `image::load_from_memory` makes of the bytes of an image file, as
/// the width, the height and the pixels in rows of red, green, blue and
/// alpha bytes; nothing where it reports an error.
pub uninterp spec fn decoded_rgba(bytes: Seq<u8>) -> Option<(u32, u32, Seq<u8>)>;

/// Calls `image::load_from_memory`, which guesses the format of the file
/// and decodes it, and hands out the image's `dimensions` and the raw buffer
/// of its `to_rgba8` copy. The decoder works on the bytes alone, so the
/// result is given a name; nothing more is claimed of it.
#[verifier::external_body]
fn decode_rgba(bytes: &[u8]) -> (out: Option<(u32, u32, Vec<u8>)>)
    ensures
        match out {
            Some((width, height, pixels)) => decoded_rgba(bytes@) == Some(
                (width, height, pixels@),
            ),
            None => decoded_rgba(bytes@).is_none(),
        },
{
    match image::load_from_memory(bytes) {
        Ok(img) => {
            let (width, height) = image::GenericImageView::dimensions(&img);
            Some((width, height, img.to_rgba8().into_raw()))
        },
        Err(_) => None,
    }
}

/// The pixels of an image, with its dimensions.
pub struct Texture {
    pub width: i32,
    pub height: i32,
    pub data: Vec<u8>,
}

impl Texture {
    /// A texture of the given dimensions that owns `data`.
    pub fn new(width: i32, height: i32, data: Vec<u8>) -> (texture: Texture)
        ensures
            texture.width == width,
            texture.height == height,
            texture.data == data,
    {
        Self { width, height, data }
    }

    /// The texture of a decoded image: its dimensions, cut to 32 signed bits,
    /// and its pixels.
    pub fn from_decoded(width: u32, height: u32, pixels: Vec<u8>) -> (texture: Texture)
        ensures
            texture.width == width as i32,
            texture.height == height as i32,
            texture.data == pixels,
    {
        Texture::new(
            #[verifier::truncate]
            (width as i32),
            #[verifier::truncate]
            (height as i32),
            pixels,
        )
    }

    /// Decodes the image file `bytes` into a texture of four bytes a pixel:
    /// red, green, blue and alpha. There is no texture where the bytes are no
    /// image that the decoder reads.
    pub fn decode(bytes: &[u8]) -> (texture: Option<Texture>)
        ensures
            match texture {
                Some(t) => match decoded_rgba(bytes@) {
                    Some((width, height, pixels)) => t.width == width as i32 && t.height
                        == height as i32 && t.data@ == pixels,
                    None => false,
                },
                None => decoded_rgba(bytes@).is_none(),
            },
    {
        match decode_rgba(bytes) {
            Some((width, height, pixels)) => Some(Texture::from_decoded(width, height, pixels)),
            None => None,
        }
    }

    /// The width and the height.
    pub fn get_dimensions(&self) -> (dimensions: (i32, i32))
        ensures
            dimensions == (self.width, self.height),
    {
        (self.width, self.height)
    }

    /// The pixel data.
    pub fn get_data(&self) -> (data: &[u8])
        ensures
            data@ == self.data@,
    {
        self.data.as_slice()
    }
}

} // verus!
