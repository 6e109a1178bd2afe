//! Decoding imported images with the `image` crate: still images keep the
//! colour type they were stored in until they are resampled, animated GIFs
//! become an RGBA raster per frame with its display length.

use vstd::prelude::*;
use crate::animation::{frame_duration_us, gif_frame_us};
use crate::image_formation::{lattice_fits, lattice_from_rgba, packed_pixels, slot_spec, ImageDisplay};
use image::AnimationDecoder;
use image::GenericImageView;

verus! {

#[verifier::external_type_specification]
#[verifier::external_body]
pub struct ExImageError(image::ImageError);

#[verifier::external_type_specification]
#[verifier::external_body]
pub struct ExDynamicImage(image::DynamicImage);

/// A decoded still image in its stored colour type (8 or 16 bits per
/// channel, grey or colour, with or without alpha) and its size in pixels.
/// Only [`decode_still_image`] makes one, with the size the decoder reports
/// for the image, so the fields always agree.
pub struct DecodedImage {
    image: image::DynamicImage,
    width: u32,
    height: u32,
    source: Ghost<Seq<u8>>,
}

impl DecodedImage {
    /// The bytes the image was decoded from.
    pub closed spec fn spec_source(&self) -> Seq<u8> {
        self.source@
    }

    pub closed spec fn spec_width(&self) -> u32 {
        self.width
    }

    pub closed spec fn spec_height(&self) -> u32 {
        self.height
    }

    pub fn width(&self) -> (r: u32)
        ensures
            r == self.spec_width(),
    {
        self.width
    }

    pub fn height(&self) -> (r: u32)
        ensures
            r == self.spec_height(),
    {
        self.height
    }
}

/// A decoded RGBA raster, row-major, four bytes per pixel.
pub struct DecodedRaster {
    pub rgba: Vec<u8>,
    pub width: u32,
    pub height: u32,
}

impl DecodedRaster {
    /// The bytes hold exactly `width * height` pixels.
    pub open spec fn wf(&self) -> bool {
        self.rgba.len() == self.width * self.height * 4
    }
}

/// One decoded GIF frame: its composited raster, its delay of `delay_numer
/// / delay_denom` milliseconds, and the display length made of that delay.
pub struct DecodedFrame {
    pub raster: DecodedRaster,
    pub delay_numer: u32,
    pub delay_denom: u32,
    pub duration_us: u64,
}

/// Why an image could not be decoded: the decoder's own message.
#[derive(Debug)]
pub enum ImageDecodeError {
    Decode { message: String },
}

/// The size in pixels of the still image that `image::load_from_memory`
/// decodes from `bytes`, or `None` when the crate rejects them.
pub uninterp spec fn still_image_size(bytes: Seq<u8>) -> Option<(u32, u32)>;

/// Decodes an image of any supported format with `image::load_from_memory`,
/// with its size from `GenericImageView::dimensions`. Claimed: decoding
/// depends on the bytes alone (the crate's default limits, no I/O), so
/// success and the size are [`still_image_size`] of the bytes. What the
/// image holds is left to the crate.
#[verifier::external_body]
fn decode_image(bytes: &[u8]) -> (r: Result<(image::DynamicImage, u32, u32), image::ImageError>)
    ensures
        r is Ok <==> still_image_size(bytes@) is Some,
        r matches Ok((_, width, height)) ==> still_image_size(bytes@) == Some((width, height)),
{
    let image = image::load_from_memory(bytes)?;
    let (width, height) = image.dimensions();
    Ok((image, width, height))
}

/// `out` is an RGBA raster that `DynamicImage::resize_exact` (Lanczos3)
/// followed by `DynamicImage::to_rgba8` may give for the still image
/// decoded from `bytes`, resampled to `new_width` x `new_height`. A relation,
/// not a function: the filter's `f32::sin` may differ between platforms.
pub uninterp spec fn decoded_image_resampled(bytes: Seq<u8>, new_width: u32, new_height: u32, out: Seq<u8>) -> bool;

/// Resamples a decoded image in its own colour type with
/// `DynamicImage::resize_exact` and the Lanczos3 filter, then converts it
/// with `DynamicImage::to_rgba8`. Claimed: the result holds `new_width *
/// new_height` RGBA pixels (the crate allocates its output at the new size;
/// the bounds keep its intermediate `f32` buffer and its 16-bit output
/// addressable), and the pixels are a resampling of the image decoded from
/// the source bytes ([`decoded_image_resampled`]; only
/// [`decode_still_image`] makes a `DecodedImage`, recording those bytes).
/// Their values are not named as a function of the input: the filter
/// evaluates `f32::sin`, whose last bits std leaves to the platform.
#[verifier::external_body]
fn resize_image(source: &DecodedImage, new_width: u32, new_height: u32) -> (r: Vec<u8>)
    requires
        source.spec_width() >= 1,
        source.spec_height() >= 1,
        new_width >= 1,
        new_height >= 1,
        source.spec_width() * new_height * 16 <= isize::MAX,
        new_width * new_height * 16 <= isize::MAX,
    ensures
        r.len() == new_width * new_height * 4,
        decoded_image_resampled(source.spec_source(), new_width, new_height, r@),
{
    source.image.resize_exact(new_width, new_height, image::imageops::FilterType::Lanczos3).to_rgba8().into_raw()
}

impl DecodedImage {
    /// The image laid out as a display of `count` drones on a `width` x
    /// `height` raster: resampled to the raster in its own colour type, then
    /// laid out with every pixel shown (see [`lattice_from_rgba`]). `None`
    /// for an image without pixels.
    pub fn display(&self, width: u32, height: u32, count: usize) -> (r: Option<ImageDisplay>)
        requires
            lattice_fits(width, height, count as int),
            self.spec_width() * height * 16 <= isize::MAX,
            width * height * 16 <= isize::MAX,
        ensures
            r is None <==> (self.spec_width() == 0 || self.spec_height() == 0),
            r matches Some(display) ==> {
                &&& display.raster.len() == width * height * 4
                &&& decoded_image_resampled(self.spec_source(), width, height, display.raster@)
                &&& display.slots.len() == count
                &&& forall|i: int|
                    0 <= i < count ==> #[trigger] display.slots@[i] == slot_spec(
                        i,
                        count as int,
                        width,
                        height,
                        packed_pixels(display.raster@),
                    )
            },
    {
        if self.width == 0 || self.height == 0 {
            return None;
        }
        let raster = resize_image(self, width, height);
        let slots = lattice_from_rgba(&raster, width, height, count);
        Some(ImageDisplay { raster, slots })
    }
}

/// The frames that `image::codecs::gif::GifDecoder` decodes from `bytes`,
/// in order, each as its composited RGBA bytes, width, height and the
/// numerator and denominator of its delay in milliseconds; `None` when the
/// crate rejects the bytes.
pub uninterp spec fn gif_frames(bytes: Seq<u8>) -> Option<Seq<(Seq<u8>, u32, u32, u32, u32)>>;

/// Decoded frames with their RGBA buffers taken by view.
pub open spec fn frames_view(frames: Seq<(Vec<u8>, u32, u32, u32, u32)>) -> Seq<(Seq<u8>, u32, u32, u32, u32)> {
    Seq::new(frames.len(), |i: int| (frames[i].0@, frames[i].1, frames[i].2, frames[i].3, frames[i].4))
}

/// Decodes every frame of a GIF with `image::codecs::gif::GifDecoder` and
/// `Frames::collect_frames`, each as its composited RGBA buffer and the
/// `Delay::numer_denom_ms` of the frame. Claimed: decoding depends on the
/// bytes alone (an in-memory reader, the crate's default limits), so
/// success and the frames are [`gif_frames`] of the bytes; and every frame
/// raster holds exactly `width * height` RGBA pixels (the decoder allocates
/// the frame and composited canvas at that size).
#[verifier::external_body]
fn decode_gif(bytes: &[u8]) -> (r: Result<Vec<(Vec<u8>, u32, u32, u32, u32)>, image::ImageError>)
    ensures
        r is Ok <==> gif_frames(bytes@) is Some,
        r matches Ok(frames) ==> gif_frames(bytes@) == Some(frames_view(frames@)),
        r matches Ok(frames) ==> forall|i: int| 0 <= i < frames.len() ==> #[trigger] frames[i].0.len() == frames[i].1 * frames[i].2 * 4,
{
    let frames = image::codecs::gif::GifDecoder::new(std::io::Cursor::new(bytes))?.into_frames().collect_frames()?;
    Ok(frames.into_iter().map(|frame| {
        let (numer, denom) = frame.delay().numer_denom_ms();
        let buffer = frame.into_buffer();
        let (width, height) = buffer.dimensions();
        (buffer.into_raw(), width, height, numer, denom)
    }).collect())
}

/// The message of an `image::ImageError`, by its `Display` implementation.
#[verifier::external_body]
fn error_message(error: &image::ImageError) -> String {
    error.to_string()
}

fn decode_error(error: &image::ImageError) -> ImageDecodeError {
    ImageDecodeError::Decode { message: error_message(error) }
}

/// Decodes a still image (PNG, JPEG or another format the crate guesses
/// from the bytes), keeping its stored colour type; a failure carries the
/// decoder's message.
pub fn decode_still_image(bytes: &[u8]) -> (r: Result<DecodedImage, ImageDecodeError>)
    ensures
        r is Ok <==> still_image_size(bytes@) is Some,
        r matches Ok(image) ==> still_image_size(bytes@) == Some((image.spec_width(), image.spec_height())),
        r matches Ok(image) ==> image.spec_source() == bytes@,
{
    match decode_image(bytes) {
        Ok((image, width, height)) => Ok(DecodedImage { image, width, height, source: Ghost(bytes@) }),
        Err(error) => Err(decode_error(&error)),
    }
}

/// `frame` is the decoded frame `named`: the same raster and delay, with
/// the display length of that delay.
pub open spec fn decoded_frame_is(frame: DecodedFrame, named: (Seq<u8>, u32, u32, u32, u32)) -> bool {
    &&& frame.raster.rgba@ == named.0
    &&& frame.raster.width == named.1
    &&& frame.raster.height == named.2
    &&& frame.delay_numer == named.3
    &&& frame.delay_denom == named.4
    &&& frame.duration_us == gif_frame_us(named.3, named.4)
}

/// Decodes the frames of an animated GIF, in order, each with the display
/// length of its delay (at least a sixtieth of a second, see
/// [`gif_frame_us`]); a failure carries the decoder's message.
pub fn decode_gif_frames(bytes: &[u8]) -> (r: Result<Vec<DecodedFrame>, ImageDecodeError>)
    ensures
        r is Ok <==> gif_frames(bytes@) is Some,
        r matches Ok(frames) ==> {
            &&& frames.len() == gif_frames(bytes@).unwrap().len()
            &&& forall|i: int|
                0 <= i < frames.len() ==> {
                    &&& decoded_frame_is(#[trigger] frames[i], gif_frames(bytes@).unwrap()[i])
                    &&& frames[i].raster.wf()
                }
        },
{
    let decoded = match decode_gif(bytes) {
        Ok(decoded) => decoded,
        Err(error) => return Err(decode_error(&error)),
    };
    let ghost all = decoded@;
    let ghost named = frames_view(all);
    assert(gif_frames(bytes@) == Some(named));
    let mut frames: Vec<DecodedFrame> = Vec::new();
    let mut rest = decoded;
    assert(all.len() == rest.len());
    let mut taken: usize = 0;
    while rest.len() > 0
        invariant
            forall|i: int| 0 <= i < all.len() ==> #[trigger] all[i].0.len() == all[i].1 * all[i].2 * 4,
            named == frames_view(all),
            taken <= all.len() <= usize::MAX,
            rest@ == all.subrange(taken as int, all.len() as int),
            frames.len() == taken,
            forall|i: int|
                0 <= i < frames.len() ==> {
                    &&& decoded_frame_is(#[trigger] frames@[i], named[i])
                    &&& frames@[i].raster.wf()
                },
        decreases rest.len(),
    {
        let (rgba, width, height, delay_numer, delay_denom) = rest.remove(0);
        assert(all[taken as int].0.len() == all[taken as int].1 * all[taken as int].2 * 4);
        assert(named[taken as int] == (all[taken as int].0@, all[taken as int].1, all[taken as int].2, all[taken as int].3, all[taken as int].4));
        let duration_us = frame_duration_us(delay_numer, delay_denom);
        frames.push(DecodedFrame { raster: DecodedRaster { rgba, width, height }, delay_numer, delay_denom, duration_us });
        taken = taken + 1;
        assert(rest@ =~= all.subrange(taken as int, all.len() as int));
    }
    Ok(frames)
}

} // verus!
