use teximage::codec::StbImage;
use teximage::image::GeneralImage;
use teximage::math::{align_to_four, next_pow2_u32};
use teximage::texture::{
    ChannelSource, GpuFormat, Swizzle, TextureStagingBuffer, TextureUploadDescriptor,
};

fn image(w: i32, h: i32, n: i32, bytes: Vec<u8>) -> GeneralImage {
    GeneralImage::decode(Ok(StbImage::new(w, h, n, bytes).unwrap())).unwrap()
}

#[test]
fn stage_three_wide_one_component() {
    let img = image(3, 1, 1, vec![10, 20, 30]);
    assert!(TextureUploadDescriptor::can_stage(&img));
    let d = TextureUploadDescriptor::from_image(&img);
    assert_eq!(d.texture_stride(), 4);
    assert_eq!(d.bytes().len(), 4);
    assert_eq!(&d.bytes()[..3], &[10, 20, 30]);
    assert_eq!(d.gpu_format(), GpuFormat::R8Swizzled);
    assert_eq!(d.unpack_row_length(), 4);
    assert_eq!((d.width(), d.height()), (3, 1));
}

#[test]
fn stride_law_four_components() {
    for w in 0..9 {
        let img = image(w, 2, 4, vec![0; (w * 2 * 4) as usize]);
        let d = TextureUploadDescriptor::from_image(&img);
        assert_eq!(d.texture_stride(), w as usize * 4);
        assert_eq!(d.unpack_row_length(), w as usize);
        assert_eq!(d.bytes().len(), w as usize * 4 * 2);
        assert_eq!(d.gpu_format(), GpuFormat::Srgb8Alpha8);
    }
}

#[test]
fn stride_law_one_component() {
    let expected = [0usize, 4, 4, 4, 4, 8, 8, 8, 8, 12];
    for w in 0..10 {
        let img = image(w, 3, 1, vec![1; (w * 3) as usize]);
        let b = TextureStagingBuffer::stage(&img);
        assert_eq!(b.texture_stride(), expected[w as usize]);
        assert_eq!(b.texture_stride() % 4, 0);
        assert!(b.texture_stride() - (w as usize) < 4);
        assert_eq!(b.source_stride(), w as usize);
        assert_eq!(b.num_logical_pixels_per_row(), b.texture_stride());
        assert_eq!(b.bytes().len(), b.texture_stride() * 3);
    }
}

#[test]
fn rows_are_flipped() {
    let img = image(3, 3, 1, vec![1, 2, 3, 4, 5, 6, 7, 8, 9]);
    let d = TextureUploadDescriptor::from_image(&img);
    assert_eq!(d.bytes(), &[7, 8, 9, 0, 4, 5, 6, 0, 1, 2, 3, 0]);
    let rgba = image(1, 2, 4, vec![1, 2, 3, 4, 5, 6, 7, 8]);
    let d = TextureUploadDescriptor::from_image(&rgba);
    assert_eq!(d.bytes(), &[5, 6, 7, 8, 1, 2, 3, 4]);
    assert_eq!(d.into_bytes(), vec![5, 6, 7, 8, 1, 2, 3, 4]);
}

#[test]
fn outer_rows_swap() {
    for h in 1..6 {
        let bytes: Vec<u8> = (0..(5 * h) as u8).collect();
        let img = image(5, h, 1, bytes.clone());
        let b = TextureStagingBuffer::stage(&img);
        let ts = b.texture_stride();
        let h = h as usize;
        assert_eq!(&b.bytes()[..5], &bytes[(h - 1) * 5..h * 5]);
        assert_eq!(&b.bytes()[(h - 1) * ts..(h - 1) * ts + 5], &bytes[..5]);
    }
}

#[test]
fn single_row_is_unchanged() {
    let img = image(2, 1, 4, vec![1, 2, 3, 4, 5, 6, 7, 8]);
    let b = TextureStagingBuffer::stage(&img);
    assert_eq!(b.bytes(), &[1, 2, 3, 4, 5, 6, 7, 8]);
    assert_eq!(b.num_logical_pixels_per_row(), 2);
    assert_eq!(b.into_bytes(), vec![1, 2, 3, 4, 5, 6, 7, 8]);
}

#[test]
fn staging_leaves_image_untouched() {
    let img = image(3, 2, 1, vec![1, 2, 3, 4, 5, 6]);
    let _ = TextureUploadDescriptor::from_image(&img);
    assert_eq!(img.bytes(), &[1, 2, 3, 4, 5, 6]);
}

#[test]
fn empty_images_stage_to_nothing() {
    for (w, h, n) in [(0, 0, 4), (0, 3, 1), (3, 0, 1), (3, 0, 4)] {
        let img = image(w, h, n, Vec::new());
        let d = TextureUploadDescriptor::try_from_image(&img).unwrap();
        assert!(d.bytes().is_empty());
        assert_eq!(d.texture_stride() % 4, 0);
    }
}

#[test]
fn try_from_image_agrees_with_from_image() {
    let img = image(3, 2, 1, vec![1, 2, 3, 4, 5, 6]);
    let a = TextureUploadDescriptor::try_from_image(&img).unwrap();
    let b = TextureUploadDescriptor::from_image(&img);
    assert_eq!(a.bytes(), b.bytes());
    assert_eq!(a.texture_stride(), b.texture_stride());
    assert_eq!(a.gpu_format(), b.gpu_format());
}

#[test]
fn swizzle_of_formats() {
    assert_eq!(GpuFormat::Srgb8Alpha8.swizzle(), None);
    assert_eq!(
        GpuFormat::R8Swizzled.swizzle(),
        Some(Swizzle {
            r: ChannelSource::One,
            g: ChannelSource::One,
            b: ChannelSource::One,
            a: ChannelSource::Stored,
        })
    );
    assert_eq!(GpuFormat::Srgb8Alpha8.bytes_per_texel(), 4);
    assert_eq!(GpuFormat::R8Swizzled.bytes_per_texel(), 1);
    assert_eq!(GpuFormat::of(teximage::pixel::PixelFormat::Rgba8), GpuFormat::Srgb8Alpha8);
    assert_eq!(GpuFormat::of(teximage::pixel::PixelFormat::A8), GpuFormat::R8Swizzled);
}

#[test]
fn align_to_four_values() {
    assert_eq!(align_to_four(0), 0);
    assert_eq!(align_to_four(1), 4);
    assert_eq!(align_to_four(3), 4);
    assert_eq!(align_to_four(4), 4);
    assert_eq!(align_to_four(5), 8);
    assert_eq!(align_to_four(1023), 1024);
}

#[test]
fn next_pow2_values() {
    assert_eq!(next_pow2_u32(0), 1);
    assert_eq!(next_pow2_u32(1), 1);
    assert_eq!(next_pow2_u32(2), 2);
    assert_eq!(next_pow2_u32(3), 4);
    assert_eq!(next_pow2_u32(4), 4);
    assert_eq!(next_pow2_u32(5), 8);
    assert_eq!(next_pow2_u32(288), 512);
    assert_eq!(next_pow2_u32(512), 512);
    assert_eq!(next_pow2_u32(16_777_217), 33_554_432);
    assert_eq!(next_pow2_u32(0x4000_0001), 0x8000_0000);
    assert_eq!(next_pow2_u32(0x8000_0000), 0x8000_0000);
}
