use vstd::prelude::*;

verus! {

/// An image decoded to 8-bit RGBA pixels, row by row.
pub struct DecodedImage {
    pub width: u32,
    pub height: u32,
    pub rgba: Vec<u8>,
}

/// What `image` decodes the file `bytes` to, as width, height and RGBA
/// pixel bytes, or `None` where it is no image it reads.
pub uninterp spec fn decoded_image(bytes: Seq<u8>) -> Option<(u32, u32, Seq<u8>)>;

/// `image::load_from_memory` followed by `to_rgba8`: guesses the format
/// from the bytes, decodes them and converts the pixels to RGBA. The
/// result depends on the bytes alone; it is only named.
#[verifier::external_body]
fn decode_rgba8(bytes: &[u8]) -> (r: Option<DecodedImage>)
    ensures
        r is None <==> decoded_image(bytes@) is None,
        r matches Some(d) ==> decoded_image(bytes@) == Some((d.width, d.height, d.rgba@)),
{
    match image::load_from_memory(bytes) {
        Ok(img) => {
            let rgba = img.to_rgba8();
            let (width, height) = rgba.dimensions();
            Some(DecodedImage { width, height, rgba: rgba.into_raw() })
        },
        Err(_) => None,
    }
}

/// Decodes an image file to RGBA pixels; `None` where the bytes are no
/// image the decoder reads.
pub fn decode_image(bytes: &[u8]) -> (r: Option<DecodedImage>)
    ensures
        r is None <==> decoded_image(bytes@) is None,
        r matches Some(d) ==> decoded_image(bytes@) == Some((d.width, d.height, d.rgba@)),
{
    decode_rgba8(bytes)
}

/// The size of a texture: a two-dimensional one has one layer.
pub struct TextureSize {
    pub width: u32,
    pub height: u32,
    pub depth_or_array_layers: u32,
}

/// The size of the texture that holds `image`.
pub fn texture_size_of_image(image: &DecodedImage) -> (r: TextureSize)
    ensures
        r.width == image.width,
        r.height == image.height,
        r.depth_or_array_layers == 1,
{
    TextureSize { width: image.width, height: image.height, depth_or_array_layers: 1 }
}

/// The bytes of one row of RGBA pixels of `image`: four per pixel.
pub fn bytes_per_row(image: &DecodedImage) -> (r: u32)
    requires
        4 * image.width <= u32::MAX,
    ensures
        r == 4 * image.width,
{
    4 * image.width
}

} // verus!
