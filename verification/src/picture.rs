//! Pictures, decoded and resized by the `image` crate.

use vstd::prelude::*;

verus! {

/// `image::DynamicImage`.
#[verifier::external_type_specification]
#[verifier::external_body]
pub struct ExDynamicImage(image::DynamicImage);

/// `image::ImageError`.
#[verifier::external_type_specification]
#[verifier::external_body]
pub struct ExImageError(image::ImageError);

/// The samples of an image as red, green, blue and opacity, row by row.
pub uninterp spec fn held_rgba(img: image::DynamicImage) -> Seq<u8>;

/// The width and the height of an image.
pub uninterp spec fn held_size(img: image::DynamicImage) -> (u32, u32);

/// The samples, the width and the height of the image that a PNG file holds, if
/// it holds one.
pub uninterp spec fn decoded(file: Seq<u8>) -> Option<(Seq<u8>, u32, u32)>;

/// `image::load_from_memory_with_format` decodes a PNG file; what it makes of
/// the file depends on the bytes alone. A decoded image has the samples of its
/// size and no others.
#[verifier::external_body]
fn decode(file: &[u8]) -> (r: Result<image::DynamicImage, image::ImageError>)
    ensures
        match r {
            Ok(img) => decoded(file@) == Some((held_rgba(img), held_size(img).0, held_size(img).1))
                && held_rgba(img).len() == 4 * held_size(img).0 * held_size(img).1,
            Err(_) => decoded(file@) is None,
        },
{
    image::load_from_memory_with_format(file, image::ImageFormat::Png)
}

/// `image::DynamicImage::resize_exact` makes an image of the size asked for,
/// and copies one that has that size already, without samples that it holds
/// beyond its size. Of the samples of an image that had another size only the
/// number is stated: they come out of a filter that computes in floating point.
#[verifier::external_body]
fn resize(img: &image::DynamicImage, width: u32, height: u32) -> (r: image::DynamicImage)
    requires
        0 < width <= 1024,
        0 < height <= 1024,
    ensures
        held_size(r) == (width, height),
        held_rgba(r).len() == 4 * width * height,
        held_size(*img) == (width, height) && held_rgba(*img).len() >= 4 * width * height
            ==> held_rgba(r) == held_rgba(*img).take(4 * width * height),
{
    img.resize_exact(width, height, image::imageops::FilterType::Lanczos3)
}

/// `image::DynamicImage::into_rgba8` gives the samples of an image.
#[verifier::external_body]
fn samples(img: image::DynamicImage) -> (r: Vec<u8>)
    ensures
        r@ == held_rgba(img),
{
    img.into_rgba8().into_raw()
}

/// `image::ImageBuffer::from_raw` makes an image of samples, if there are
/// enough of them.
#[verifier::external_body]
fn from_samples(width: u32, height: u32, rgba: Vec<u8>) -> (r: Option<image::DynamicImage>)
    ensures
        r is Some <==> 4 * width * height <= rgba@.len(),
        r is Some ==> held_rgba(r->0) == rgba@ && held_size(r->0) == (width, height),
{
    image::RgbaImage::from_raw(width, height, rgba).map(image::DynamicImage::ImageRgba8)
}

/// The samples of the image that a PNG file holds, in the size asked for; none
/// if the file holds no image.
pub fn load_resized(file: &[u8], width: u32, height: u32) -> (r: Option<Vec<u8>>)
    requires
        0 < width <= 1024,
        0 < height <= 1024,
    ensures
        match decoded(file@) {
            Some((rgba, w, h)) => r is Some && r->0@.len() == 4 * width * height && (w == width
                && h == height ==> r->0@ == rgba),
            None => r is None,
        },
{
    match decode(file) {
        Ok(img) => {
            let rgba = samples(resize(&img, width, height));
            assert(held_rgba(img).take(held_rgba(img).len() as int) =~= held_rgba(img));
            Some(rgba)
        },
        Err(_) => None,
    }
}

/// The image that has the samples given, or none if there are too few.
pub fn image_of(width: u32, height: u32, rgba: Vec<u8>) -> (r: Option<image::DynamicImage>)
    ensures
        r is Some <==> 4 * width * height <= rgba@.len(),
        r is Some ==> held_rgba(r->0) == rgba@ && held_size(r->0) == (width, height),
{
    from_samples(width, height, rgba)
}

} // verus!
