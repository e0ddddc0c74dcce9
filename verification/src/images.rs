//! Decoded images: the RGBA pixels that textures are made from, read from
//! encoded image bytes or filled with white.
use vstd::prelude::*;

verus! {

/// The error that the image decoder reports for bytes it cannot read.
#[verifier::external_type_specification]
#[verifier::external_body]
pub struct ExImageError(image::ImageError);

/// An image as 8-bit RGBA pixels, row by row, four bytes per pixel.
pub struct DecodedImage {
    pub width: u32,
    pub height: u32,
    pub pixels: Vec<u8>,
}

impl View for DecodedImage {
    type V = (u32, u32, Seq<u8>);

    open spec fn view(&self) -> (u32, u32, Seq<u8>) {
        (self.width, self.height, self.pixels@)
    }
}

/// Why an image could not be loaded.
pub enum ImageLoadError {
    /// The bytes are no image that the decoder reads.
    Decode(image::ImageError),
}

/// What the image decoder makes of `data`, as width, height and RGBA
/// pixels; `None` when it cannot read the bytes.
pub uninterp spec fn decoded_rgba8(data: Seq<u8>) -> Option<(u32, u32, Seq<u8>)>;

/// `image::load_from_memory`, then `to_rgba8`: decodes `data`, guessing the
/// format from its first bytes, and converts it to RGBA. The result is
/// `decoded_rgba8(data)`; the pixel buffer holds four bytes per pixel, as
/// every RGBA buffer that the decoder makes does.
#[verifier::external_body]
fn decode_rgba8(data: &[u8]) -> (r: Result<DecodedImage, image::ImageError>)
    ensures
        match r {
            Ok(img) => {
                &&& decoded_rgba8(data@) == Some(img@)
                &&& img.pixels@.len() == 4 * img.width * img.height
            },
            Err(_) => decoded_rgba8(data@) is None,
        },
{
    match image::load_from_memory(data) {
        Ok(img) => {
            let rgba = img.to_rgba8();
            let width = rgba.width();
            let height = rgba.height();
            Ok(DecodedImage { width, height, pixels: rgba.into_raw() })
        },
        Err(e) => Err(e),
    }
}

/// Decodes encoded image bytes into RGBA pixels; the decoder's error when
/// the bytes are no image it reads.
pub fn decode_image(data: &[u8]) -> (r: Result<DecodedImage, ImageLoadError>)
    ensures
        match r {
            Ok(img) => {
                &&& decoded_rgba8(data@) == Some(img@)
                &&& img.pixels@.len() == 4 * img.width * img.height
            },
            Err(_) => decoded_rgba8(data@) is None,
        },
{
    match decode_rgba8(data) {
        Ok(img) => Ok(img),
        Err(e) => Err(ImageLoadError::Decode(e)),
    }
}

/// An all-white, fully opaque image of `width` by `height` pixels.
pub fn white_image(width: u32, height: u32) -> (img: DecodedImage)
    requires
        4 * width * height <= usize::MAX,
    ensures
        img.width == width,
        img.height == height,
        img.pixels@ == Seq::new((4 * width * height) as nat, |i: int| 255u8),
{
    let w = width as usize;
    let h = height as usize;
    proof {
        assert(w * h <= 4 * w * h) by (nonlinear_arith)
            requires
                0 <= w,
                0 <= h,
        ;
        assert(w * h * 4 == 4 * w * h) by (nonlinear_arith);
    }
    let n: usize = w * h * 4;
    let mut pixels: Vec<u8> = Vec::new();
    let mut i: usize = 0;
    while i < n
        invariant
            i <= n,
            pixels@ == Seq::new(i as nat, |k: int| 255u8),
        decreases n - i,
    {
        pixels.push(255u8);
        i = i + 1;
        proof {
            assert(pixels@ =~= Seq::new(i as nat, |k: int| 255u8));
        }
    }
    DecodedImage { width, height, pixels }
}

/// The texture that an image is drawn from: its atlas when it lies in one,
/// else its own texture.
pub fn image_texture_id(texture: usize, atlas_id: Option<usize>) -> (id: Option<usize>)
    ensures
        id == Some(
            match atlas_id {
                Some(a) => a,
                None => texture,
            },
        ),
{
    match atlas_id {
        Some(a) => Some(a),
        None => Some(texture),
    }
}

} // verus!
