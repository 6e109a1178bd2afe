use std::io::Cursor;

use image::codecs::gif::GifEncoder;
use image::{Delay, Frame, ImageBuffer, ImageFormat, Rgb, Rgba, RgbaImage};
use luma_swarm_studio::animation::MIN_GIF_FRAME_US;
use luma_swarm_studio::image_decoding::{decode_gif_frames, decode_still_image, ImageDecodeError};

fn png_bytes(image: &RgbaImage) -> Vec<u8> {
    let mut bytes = Cursor::new(Vec::new());
    image.write_to(&mut bytes, ImageFormat::Png).unwrap();
    bytes.into_inner()
}

#[test]
fn png_decodes_to_its_rgba_pixels() {
    let mut image = RgbaImage::new(2, 1);
    image.put_pixel(0, 0, Rgba([255, 0, 0, 255]));
    image.put_pixel(1, 0, Rgba([0, 10, 250, 128]));
    let decoded = decode_still_image(&png_bytes(&image)).unwrap();
    assert_eq!((decoded.width(), decoded.height()), (2, 1));
    let display = decoded.display(2, 1, 2).unwrap();
    assert_eq!(display.raster, vec![255, 0, 0, 255, 0, 10, 250, 128]);
    assert_eq!(display.slots[1].packed_rgba, u32::from_le_bytes([0, 10, 250, 128]));
}

#[test]
fn sixteen_bit_png_is_resampled_before_narrowing() {
    let mut image: ImageBuffer<Rgb<u16>, Vec<u16>> = ImageBuffer::new(2, 1);
    image.put_pixel(0, 0, Rgb([65_535, 0, 0]));
    image.put_pixel(1, 0, Rgb([0, 0, 65_535]));
    let mut bytes = Cursor::new(Vec::new());
    image.write_to(&mut bytes, ImageFormat::Png).unwrap();
    let decoded = decode_still_image(&bytes.into_inner()).unwrap();
    assert_eq!((decoded.width(), decoded.height()), (2, 1));
    let same = decoded.display(2, 1, 2).unwrap();
    assert_eq!(same.raster, vec![255, 0, 0, 255, 0, 0, 255, 255]);
    let blended = decoded.display(1, 1, 1).unwrap();
    assert_eq!(blended.raster.len(), 4);
    assert!(blended.raster[0] > 0 && blended.raster[0] < 255, "{:?}", blended.raster);
    assert!(blended.raster[2] > 0 && blended.raster[2] < 255, "{:?}", blended.raster);
    assert_eq!(blended.raster[3], 255);
}

#[test]
fn undecodable_bytes_report_the_decoder_message() {
    match decode_still_image(b"not an image") {
        Err(ImageDecodeError::Decode { message }) => assert!(!message.is_empty()),
        Ok(_) => panic!("garbage decoded"),
    }
    assert!(decode_gif_frames(b"GIF89a").is_err());
}

#[test]
fn gif_frames_decode_in_order_with_their_delays() {
    let mut bytes = Vec::new();
    {
        let mut encoder = GifEncoder::new(&mut bytes);
        let red = RgbaImage::from_pixel(2, 2, Rgba([255, 0, 0, 255]));
        let blue = RgbaImage::from_pixel(2, 2, Rgba([0, 0, 255, 255]));
        encoder
            .encode_frames(vec![
                Frame::from_parts(red, 0, 0, Delay::from_numer_denom_ms(100, 1)),
                Frame::from_parts(blue, 0, 0, Delay::from_numer_denom_ms(0, 1)),
            ])
            .unwrap();
    }
    let frames = decode_gif_frames(&bytes).unwrap();
    assert_eq!(frames.len(), 2);
    assert_eq!((frames[0].raster.width, frames[0].raster.height), (2, 2));
    assert_eq!(frames[0].raster.rgba.len(), 16);
    let first = &frames[0].raster.rgba;
    let second = &frames[1].raster.rgba;
    assert!(first[0] > 200 && first[2] < 60, "{first:?}");
    assert!(second[2] > 200 && second[0] < 60, "{second:?}");
    assert_eq!(frames[0].duration_us, 100_000);
    assert_eq!(frames[0].delay_numer as u64 * 1000 / frames[0].delay_denom.max(1) as u64, 100_000);
    assert_eq!(frames[1].delay_numer, 0);
    assert_eq!(frames[1].duration_us, MIN_GIF_FRAME_US);
}
