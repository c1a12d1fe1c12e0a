use image::{DynamicImage, GenericImageView, GrayImage, Rgb, RgbImage, Rgba, RgbaImage};
use pixelveil::color_channel::Channel;
use pixelveil::decode::{decode, DecodeError};
use pixelveil::encode::{encode, EncodeError};
use pixelveil::pixel_grid::PixelGrid;

const RGB: Channel = Channel { red: true, green: true, blue: true, alpha: false };
const ALL: Channel = Channel { red: true, green: true, blue: true, alpha: true };

fn noise(i: usize) -> u8 {
    (i.wrapping_mul(2_654_435_761) >> 7) as u8
}

fn rgba(width: u32, height: u32) -> DynamicImage {
    let len = 4 * width as usize * height as usize;
    let data: Vec<u8> = (0..len).map(noise).collect();
    DynamicImage::ImageRgba8(RgbaImage::from_raw(width, height, data).unwrap())
}

#[test]
fn grid_of_an_rgba_image_holds_its_bytes() {
    let data: Vec<u8> = (0..48).collect();
    let img = DynamicImage::ImageRgba8(RgbaImage::from_raw(4, 3, data.clone()).unwrap());
    let grid = PixelGrid::from_image(&img);
    assert_eq!(grid.width(), 4);
    assert_eq!(grid.height(), 3);
    assert_eq!(grid.as_bytes(), data.as_slice());
}

#[test]
fn grid_of_a_grey_image_holds_its_pixels_as_rgba() {
    let img = DynamicImage::ImageLuma8(GrayImage::from_raw(3, 2, vec![1, 2, 3, 4, 5, 6]).unwrap());
    let grid = PixelGrid::from_image(&img);
    assert_eq!(grid.width(), 3);
    assert_eq!(grid.height(), 2);
    let mut want = Vec::new();
    for v in 1..=6u8 {
        want.extend([v, v, v, 255]);
    }
    assert_eq!(grid.as_bytes(), want.as_slice());
}

#[test]
fn grid_is_row_major() {
    let mut img = RgbImage::new(3, 2);
    img.put_pixel(2, 0, Rgb([10, 20, 30]));
    img.put_pixel(0, 1, Rgb([40, 50, 60]));
    let grid = PixelGrid::from_image(&DynamicImage::ImageRgb8(img));
    let bytes = grid.as_bytes();
    assert_eq!(bytes[8..12], [10, 20, 30, 255]);
    assert_eq!(bytes[12..16], [40, 50, 60, 255]);
    assert_eq!(bytes[0..4], [0, 0, 0, 255]);
}

#[test]
fn image_of_a_grid_holds_its_bytes() {
    let data: Vec<u8> = (0..24).collect();
    let grid = PixelGrid::new(2, 3, data.clone()).unwrap();
    let img = grid.into_image().unwrap();
    assert_eq!(img.dimensions(), (2, 3));
    assert_eq!(img.get_pixel(1, 0), Rgba([4, 5, 6, 7]));
    assert_eq!(img.get_pixel(0, 2), Rgba([16, 17, 18, 19]));
    assert_eq!(img.as_rgba8().unwrap().as_raw(), &data);
}

#[test]
fn image_of_an_empty_grid_is_empty() {
    let img = PixelGrid::new(0, 0, vec![]).unwrap().into_image().unwrap();
    assert_eq!(img.dimensions(), (0, 0));
    let img = PixelGrid::new(5, 0, vec![]).unwrap().into_image().unwrap();
    assert_eq!(img.dimensions(), (5, 0));
}

#[test]
fn encode_then_decode_gives_the_text() {
    let written = encode(rgba(32, 16), "through an image", vec![RGB], &[0], 0).unwrap();
    assert_eq!(written.dimensions(), (32, 16));
    assert!(written.as_rgba8().is_some());
    assert_eq!(
        decode(written, vec![RGB], &[0], 0),
        Ok(String::from("through an image"))
    );
}

#[test]
fn encode_writes_into_a_copy_of_the_pixels() {
    let source = rgba(8, 3);
    let before = source.as_rgba8().unwrap().as_raw().clone();
    let written = encode(source, "", vec![ALL], &[0], 0).unwrap();
    let after = written.as_rgba8().unwrap().as_raw();
    for j in 0..96 {
        if j < 64 {
            assert_eq!(after[j], before[j] & 0xfe);
        } else {
            assert_eq!(after[j], before[j]);
        }
    }
}

#[test]
fn encode_onto_a_grey_image_gives_rgba() {
    let grey = DynamicImage::ImageLuma8(GrayImage::from_raw(8, 3, vec![0x81; 24]).unwrap());
    let written = encode(grey, "", vec![RGB], &[0], 0).unwrap();
    let raw = written.as_rgba8().unwrap().as_raw();
    assert_eq!(raw[0..4], [0x80, 0x80, 0x80, 0xff]);
    assert_eq!(raw[84..88], [0x80, 0x81, 0x81, 0xff]);
    assert_eq!(raw[92..96], [0x81, 0x81, 0x81, 0xff]);
    assert_eq!(decode(written, vec![RGB], &[0], 0), Ok(String::new()));
}

#[test]
fn encode_on_four_by_four_exceeds_capacity() {
    let r = encode(rgba(4, 4), "", vec![RGB], &[0], 0);
    assert_eq!(r.err(), Some(EncodeError::Capacity));
}

#[test]
fn encode_and_decode_refuse_empty_lists() {
    assert_eq!(
        encode(rgba(32, 32), "x", vec![], &[0], 0).err(),
        Some(EncodeError::Configuration)
    );
    assert_eq!(
        encode(rgba(32, 32), "x", vec![RGB], &[], 0).err(),
        Some(EncodeError::Configuration)
    );
    assert_eq!(
        decode(rgba(32, 32), vec![], &[0], 0),
        Err(DecodeError::Configuration)
    );
    assert_eq!(
        decode(rgba(32, 32), vec![RGB], &[], 0),
        Err(DecodeError::Configuration)
    );
}

#[test]
fn decode_of_a_small_image_underflows() {
    assert_eq!(
        decode(rgba(3, 3), vec![RGB], &[0], 0),
        Err(DecodeError::Underflow)
    );
    assert_eq!(
        decode(rgba(0, 0), vec![RGB], &[0], 0),
        Err(DecodeError::Underflow)
    );
}
