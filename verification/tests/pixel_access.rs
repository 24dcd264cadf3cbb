use teximage::codec::{DecodeError, StbImage};
use teximage::image::{GeneralImage, Image, ImageStorage};
use teximage::pixel::{Pixel, PixelFormat, Rgba8, A8};

fn rgba_2x2() -> GeneralImage {
    let bytes = vec![255, 0, 0, 255, 0, 255, 0, 255, 0, 0, 255, 255, 255, 255, 255, 0];
    GeneralImage::decode(Ok(StbImage::new(2, 2, 4, bytes).unwrap())).unwrap()
}

fn alpha_3x2() -> GeneralImage {
    GeneralImage::decode(Ok(StbImage::new(3, 2, 1, vec![1, 2, 3, 4, 5, 6]).unwrap())).unwrap()
}

#[test]
fn decode_two_by_two_rgba_round_trip() {
    let image = rgba_2x2();
    assert_eq!(image.pixel(0, 0), Some(Pixel::Rgba8(Rgba8 { r: 255, g: 0, b: 0, a: 255 })));
    assert_eq!(image.pixel(1, 1), Some(Pixel::Rgba8(Rgba8 { r: 255, g: 255, b: 255, a: 0 })));
    assert_eq!(image.pixel(1, 0), Some(Pixel::Rgba8(Rgba8 { r: 0, g: 255, b: 0, a: 255 })));
    assert_eq!(image.pixel(0, 1), Some(Pixel::Rgba8(Rgba8 { r: 0, g: 0, b: 255, a: 255 })));
}

#[test]
fn decode_failure_is_codec_error_with_reason() {
    let r = GeneralImage::decode(Err(String::from("corrupt header")));
    assert_eq!(r.unwrap_err(), DecodeError::Codec(String::from("corrupt header")));
}

#[test]
fn decode_rejects_other_component_counts() {
    for n in [0, 2, 3, 5] {
        let len = (n * 2) as usize;
        let stbi = StbImage::new(2, 1, n, vec![7; len]).unwrap();
        let r = GeneralImage::decode(Ok(stbi));
        assert_eq!(r.unwrap_err(), DecodeError::UnsupportedFormat(n as u32));
    }
}

#[test]
fn raster_must_be_consistent() {
    assert!(StbImage::new(2, 2, 4, vec![0; 15]).is_none());
    assert!(StbImage::new(2, 2, 4, vec![0; 17]).is_none());
    assert!(StbImage::new(-1, 2, 4, Vec::new()).is_none());
    assert!(StbImage::new(2, -2, 4, Vec::new()).is_none());
    assert!(StbImage::new(2, 2, -4, Vec::new()).is_none());
    let ok = StbImage::new(2, 2, 4, vec![0; 16]).unwrap();
    assert_eq!((ok.width(), ok.height(), ok.components()), (2, 2, 4));
    assert_eq!(ok.data().len(), 16);
    assert_eq!(ok.bytes(), ok.data());
}

#[test]
fn empty_raster_has_no_bytes() {
    let e = StbImage::empty();
    assert_eq!((e.width(), e.height(), e.components()), (0, 0, 0));
    assert!(e.data().is_empty());
    assert_eq!(
        GeneralImage::decode(Ok(e)).unwrap_err(),
        DecodeError::UnsupportedFormat(0)
    );
}

#[test]
fn format_classification() {
    assert_eq!(PixelFormat::from_component_count(4), Ok(PixelFormat::Rgba8));
    assert_eq!(PixelFormat::from_component_count(1), Ok(PixelFormat::A8));
    assert_eq!(PixelFormat::from_component_count(3), Err(DecodeError::UnsupportedFormat(3)));
    assert_eq!(PixelFormat::from_component_count(0), Err(DecodeError::UnsupportedFormat(0)));
    for f in [PixelFormat::Rgba8, PixelFormat::A8] {
        assert_eq!(f.bytes_per_pixel(), f.component_count() as usize * f.bytes_per_component());
        assert_eq!(PixelFormat::from_component_count(f.component_count()), Ok(f));
    }
    assert_eq!(PixelFormat::Rgba8.bytes_per_pixel(), 4);
    assert_eq!(PixelFormat::A8.bytes_per_pixel(), 1);
}

#[test]
fn image_metadata() {
    let image = rgba_2x2();
    assert_eq!(image.width(), 2);
    assert_eq!(image.height(), 2);
    assert_eq!(image.format(), PixelFormat::Rgba8);
    assert_eq!(image.num_component(), 4);
    assert_eq!(image.num_bytes_per_component(), 1);
    assert_eq!(image.num_bytes_per_pixel(), 4);
    assert_eq!(image.stride(), 8);
    assert_eq!(image.bytes().len(), 16);
    let alpha = alpha_3x2();
    assert_eq!(alpha.num_component(), 1);
    assert_eq!(alpha.num_bytes_per_pixel(), 1);
    assert_eq!(alpha.stride(), 3);
    assert_eq!(alpha.bytes(), &[1, 2, 3, 4, 5, 6]);
}

#[test]
fn pixel_matches_bytes_at_offset() {
    for image in [rgba_2x2(), alpha_3x2()] {
        let n = image.num_bytes_per_pixel();
        for y in 0..image.height() {
            for x in 0..image.width() {
                let p = image.pixel(x, y).unwrap();
                let offset = y as usize * image.width() as usize * n + x as usize * n;
                assert_eq!(p.to_bytes(), image.bytes()[offset..offset + n].to_vec());
                assert_eq!(p.format(), image.format());
            }
        }
    }
}

#[test]
fn pixel_outside_is_none() {
    let image = alpha_3x2();
    assert_eq!(image.pixel(3, 0), None);
    assert_eq!(image.pixel(0, 2), None);
    assert_eq!(image.pixel(3, 2), None);
    assert_eq!(image.pixel(u32::MAX, 0), None);
    assert_eq!(image.pixel(0, u32::MAX), None);
    assert_eq!(image.pixel(2, 1), Some(Pixel::A8(A8 { a: 6 })));
}

#[test]
fn pixels_are_row_major_and_restartable() {
    let image = alpha_3x2();
    let mut first = Vec::new();
    let mut it = image.pixels();
    while let Some(p) = it.next() {
        first.push(p);
    }
    assert_eq!(it.next(), None);
    assert_eq!(first.len(), 6);
    let expected: Vec<Pixel> = (1..=6).map(|a| Pixel::A8(A8 { a })).collect();
    assert_eq!(first, expected);
    assert_eq!(image.to_pixels(), expected);
    let mut again = Vec::new();
    let mut it = image.pixels();
    while let Some(p) = it.next() {
        again.push(p);
    }
    assert_eq!(first, again);
    for y in 0..2u32 {
        for x in 0..3u32 {
            assert_eq!(Some(first[(y * 3 + x) as usize]), image.pixel(x, y));
        }
    }
}

#[test]
fn zero_sized_images_are_empty() {
    for (w, h) in [(0, 0), (0, 5), (5, 0)] {
        let image = GeneralImage::decode(Ok(StbImage::new(w, h, 4, Vec::new()).unwrap())).unwrap();
        assert!(image.bytes().is_empty());
        assert!(image.to_pixels().is_empty());
        assert_eq!(image.pixels().next(), None);
        assert_eq!(image.pixel(0, 0), None);
    }
}

#[test]
fn storage_types_raster_by_component_count() {
    let storage = ImageStorage::new(StbImage::new(1, 1, 4, vec![9, 8, 7, 6]).unwrap()).unwrap();
    assert_eq!(storage.format(), PixelFormat::Rgba8);
    assert_eq!((storage.width(), storage.height()), (1, 1));
    assert_eq!(storage.data(), &[9, 8, 7, 6]);
    assert_eq!(storage.bytes(), &[9, 8, 7, 6]);
    assert_eq!(storage.pixel(0, 0), Some(Pixel::Rgba8(Rgba8 { r: 9, g: 8, b: 7, a: 6 })));
    assert_eq!(storage.pixel(1, 0), None);
    let image = GeneralImage::from_storage(storage);
    assert_eq!(image.bytes(), &[9, 8, 7, 6]);
    let err = ImageStorage::new(StbImage::new(1, 1, 2, vec![1, 2]).unwrap()).unwrap_err();
    assert_eq!(err, DecodeError::UnsupportedFormat(2));
}

#[test]
fn components_by_index() {
    let p = Rgba8 { r: 1, g: 2, b: 3, a: 4 };
    assert_eq!(p.component(0), Some(&1));
    assert_eq!(p.component(1), Some(&2));
    assert_eq!(p.component(2), Some(&3));
    assert_eq!(p.component(3), Some(&4));
    assert_eq!(p.component(4), None);
    let a = A8 { a: 77 };
    assert_eq!(a.component(0), Some(&77));
    assert_eq!(a.component(1), None);
    assert_eq!(Pixel::Rgba8(p).component(3), Some(&4));
    assert_eq!(Pixel::A8(a).component(1), None);
    assert_eq!(Pixel::Rgba8(p).to_bytes(), vec![1, 2, 3, 4]);
    assert_eq!(Pixel::A8(a).to_bytes(), vec![77]);
}

#[test]
fn four_component_image_wrapper() {
    let image = Image::new(rgba_2x2()).unwrap();
    assert_eq!(image.general().width(), 2);
    let mut it = image.iter();
    let mut count = 0;
    while let Some(p) = it.next() {
        assert_eq!(p.format(), PixelFormat::Rgba8);
        count += 1;
    }
    assert_eq!(count, 4);
    let back = Image::new(alpha_3x2()).unwrap_err();
    assert_eq!(back.bytes(), &[1, 2, 3, 4, 5, 6]);
}
