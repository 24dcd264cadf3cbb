//! Staging an image for upload as a texture: rows padded to a multiple of
//! four bytes, stored bottom row first, together with the format that the
//! graphics layer is to give the texture.

use vstd::prelude::*;
use crate::image::{GeneralImage, ImageView};
use crate::math::{
    align_to_four,
    lemma_grid_cell,
    lemma_grid_index,
    lemma_grid_row,
    lemma_round_up_to_four,
    round_up_to_four,
};
use crate::pixel::{lemma_bytes_per_pixel, PixelFormat};

verus! {

/// What a channel of a sampled texel shows.
#[derive(Clone, Copy, Debug, PartialEq, Eq, Structural)]
pub enum ChannelSource {
    /// The constant one.
    One,
    /// The single channel that the texture stores.
    Stored,
}

/// The source of each of the four channels of a sampled texel.
#[derive(Clone, Copy, Debug, PartialEq, Eq, Structural)]
pub struct Swizzle {
    pub r: ChannelSource,
    pub g: ChannelSource,
    pub b: ChannelSource,
    pub a: ChannelSource,
}

/// The format that the graphics layer gives the texture.
#[derive(Clone, Copy, Debug, PartialEq, Eq, Structural)]
pub enum GpuFormat {
    /// Four channels: sRGB colour and alpha.
    Srgb8Alpha8,
    /// One stored channel, presented as `(1, 1, 1, stored)` when sampled.
    R8Swizzled,
}

impl GpuFormat {
    /// The texture format for images of a pixel format.
    pub open spec fn for_format(format: PixelFormat) -> GpuFormat {
        match format {
            PixelFormat::Rgba8 => GpuFormat::Srgb8Alpha8,
            PixelFormat::A8 => GpuFormat::R8Swizzled,
        }
    }

    pub open spec fn spec_swizzle(self) -> Option<Swizzle> {
        match self {
            GpuFormat::Srgb8Alpha8 => None,
            GpuFormat::R8Swizzled => Some(
                Swizzle {
                    r: ChannelSource::One,
                    g: ChannelSource::One,
                    b: ChannelSource::One,
                    a: ChannelSource::Stored,
                },
            ),
        }
    }

    pub open spec fn spec_bytes_per_texel(self) -> nat {
        match self {
            GpuFormat::Srgb8Alpha8 => 4,
            GpuFormat::R8Swizzled => 1,
        }
    }

    /// The texture format for images of a pixel format.
    pub fn of(format: PixelFormat) -> (g: GpuFormat)
        ensures
            g == Self::for_format(format),
    {
        match format {
            PixelFormat::Rgba8 => GpuFormat::Srgb8Alpha8,
            PixelFormat::A8 => GpuFormat::R8Swizzled,
        }
    }

    /// The swizzle that the consumer is to configure: none for four
    /// channels; for the single channel, one in red, green and blue and the
    /// stored value in alpha.
    pub fn swizzle(&self) -> (s: Option<Swizzle>)
        ensures
            s == self.spec_swizzle(),
    {
        match self {
            GpuFormat::Srgb8Alpha8 => None,
            GpuFormat::R8Swizzled => Some(
                Swizzle {
                    r: ChannelSource::One,
                    g: ChannelSource::One,
                    b: ChannelSource::One,
                    a: ChannelSource::Stored,
                },
            ),
        }
    }

    /// Bytes that one texel takes in the staging buffer.
    pub fn bytes_per_texel(&self) -> (n: usize)
        ensures
            n == self.spec_bytes_per_texel(),
    {
        match self {
            GpuFormat::Srgb8Alpha8 => 4,
            GpuFormat::R8Swizzled => 1,
        }
    }
}

impl ImageView {
    /// Bytes of pixel data in each staged row: the image's own stride.
    pub open spec fn source_stride(self) -> nat {
        self.stride()
    }

    /// Bytes from one staged row to the next. Four-component rows are
    /// `width * 4` bytes; one-component rows are padded to the next multiple
    /// of four.
    pub open spec fn texture_stride(self) -> nat {
        match self.format {
            PixelFormat::Rgba8 => self.width * 4,
            PixelFormat::A8 => round_up_to_four(self.width),
        }
    }

    /// The row length, in pixels, that the consumer is to unpack with.
    pub open spec fn num_logical_pixels_per_row(self) -> nat {
        match self.format {
            PixelFormat::Rgba8 => self.width,
            PixelFormat::A8 => self.texture_stride(),
        }
    }

    /// Size of the staging buffer in bytes.
    pub open spec fn staged_len(self) -> nat {
        self.texture_stride() * self.height
    }

    /// Byte `i` of the staging buffer. Staged row `i / texture_stride` is
    /// the image's row `height - 1 - i / texture_stride`: its bytes come
    /// first, and zeros fill the row up.
    pub open spec fn staged_byte(self, i: int) -> u8 {
        let row = i / (self.texture_stride() as int);
        let col = i % (self.texture_stride() as int);
        if col < self.stride() {
            self.bytes[(self.height - 1 - row) * self.stride() + col]
        } else {
            0u8
        }
    }

    /// The staging buffer of the image.
    pub open spec fn staged_bytes(self) -> Seq<u8> {
        Seq::new(self.staged_len(), |i: int| self.staged_byte(i))
    }

    /// Whether the staging buffer, and one row of it, can be addressed on
    /// this machine.
    pub open spec fn stageable(self) -> bool {
        self.texture_stride() <= usize::MAX && self.staged_len() <= usize::MAX
    }

    /// The staging buffer with its strides.
    pub open spec fn staging(self) -> StagingView {
        StagingView {
            bytes: self.staged_bytes(),
            texture_stride: self.texture_stride(),
            source_stride: self.source_stride(),
            num_logical_pixels_per_row: self.num_logical_pixels_per_row(),
        }
    }

    /// The descriptor that staging the image yields.
    pub open spec fn staged(self) -> DescriptorView {
        DescriptorView {
            width: self.width,
            height: self.height,
            texture_stride: self.texture_stride(),
            gpu_format: GpuFormat::for_format(self.format),
            bytes: self.staged_bytes(),
        }
    }
}

/// `n` zero bytes.
pub open spec fn zeros(n: nat) -> Seq<u8> {
    Seq::new(n, |i: int| 0u8)
}

/// The stride law: a staged row is a multiple of four bytes long and holds a
/// whole row of the image. For four components it is `width * 4` bytes; for
/// one component it is `width` rounded up to a multiple of four, which adds
/// at most three bytes.
pub proof fn lemma_stride_law(image: ImageView)
    ensures
        image.texture_stride() % 4 == 0,
        image.source_stride() <= image.texture_stride(),
        image.format == PixelFormat::Rgba8 ==> image.texture_stride() == image.width * 4
            && image.source_stride() == image.texture_stride(),
        image.format == PixelFormat::A8 ==> image.texture_stride() == round_up_to_four(image.width)
            && image.source_stride() == image.width && 0 <= image.texture_stride() - image.width
            <= 3,
{
    let w = image.width as int;
    let n = image.bytes_per_pixel() as int;
    lemma_bytes_per_pixel(image.format);
    lemma_round_up_to_four(image.width);
    match image.format {
        PixelFormat::Rgba8 => {
            assert(w * n == w * 4) by (nonlinear_arith)
                requires
                    n == 4,
            ;
        },
        PixelFormat::A8 => {
            assert(w * n == w) by (nonlinear_arith)
                requires
                    n == 1,
            ;
        },
    }
}

/// The flip law, row by row: staged row `row` starts with the bytes of the
/// image's row `height - 1 - row`, and zeros follow up to the stride.
pub proof fn lemma_vertical_flip(image: ImageView, row: int)
    requires
        image.wf(),
        0 <= row < image.height,
    ensures
        row * image.texture_stride() + image.texture_stride() <= image.staged_bytes().len(),
        0 <= (image.height - 1 - row) * image.stride(),
        (image.height - 1 - row) * image.stride() + image.stride() <= image.bytes.len(),
        image.staged_bytes().subrange(
            row * image.texture_stride(),
            row * image.texture_stride() + image.source_stride(),
        ) == image.row(image.height - 1 - row),
        image.staged_bytes().subrange(
            row * image.texture_stride() + image.source_stride(),
            row * image.texture_stride() + image.texture_stride(),
        ) == zeros((image.texture_stride() - image.source_stride()) as nat),
{
    let ts = image.texture_stride() as int;
    let ss = image.stride() as int;
    let h = image.height as int;
    let src_row = h - 1 - row;
    lemma_stride_law(image);
    lemma_rows_fill_buffer(image);
    assert(0 <= row * ts && row * ts + ts <= h * ts && h * ts == ts * h) by (nonlinear_arith)
        requires
            0 <= row < h,
            0 <= ts,
    ;
    assert(0 <= src_row * ss && src_row * ss + ss <= h * ss) by (nonlinear_arith)
        requires
            0 <= src_row < h,
            0 <= ss,
    ;
    let staged_row = image.staged_bytes().subrange(row * ts, row * ts + ss);
    assert forall|col: int| 0 <= col < ts implies #[trigger] image.staged_bytes()[row * ts + col]
        == (if col < ss {
        image.bytes[src_row * ss + col]
    } else {
        0u8
    }) by {
        lemma_grid_index(h, ts, row, col);
    }
    assert forall|col: int| 0 <= col < ss implies staged_row[col] == image.row(src_row)[col] by {
        assert(staged_row[col] == image.staged_bytes()[row * ts + col]);
    }
    assert(staged_row =~= image.row(src_row));
    let padding = image.staged_bytes().subrange(row * ts + ss, row * ts + ts);
    assert forall|k: int| 0 <= k < ts - ss implies padding[k] == 0 by {
        assert(padding[k] == image.staged_bytes()[row * ts + (ss + k)]);
    }
    assert(padding =~= zeros((ts - ss) as nat));
}

/// The flip law at the edges: the first staged row holds the image's last
/// row and the last staged row holds the image's first row.
pub proof fn lemma_outer_rows_swap(image: ImageView)
    requires
        image.wf(),
        image.height >= 1,
    ensures
        image.staged_bytes().subrange(0, image.source_stride() as int) == image.row(
            image.height - 1,
        ),
        image.staged_bytes().subrange(
            (image.height - 1) * image.texture_stride(),
            (image.height - 1) * image.texture_stride() + image.source_stride(),
        ) == image.row(0),
{
    lemma_vertical_flip(image, 0);
    lemma_vertical_flip(image, image.height - 1);
}

/// The rows of an image fill its buffer: `height` rows of `stride` bytes.
pub proof fn lemma_rows_fill_buffer(image: ImageView)
    requires
        image.wf(),
    ensures
        image.bytes.len() == image.height * image.stride(),
{
    let w = image.width as int;
    let h = image.height as int;
    let n = image.bytes_per_pixel() as int;
    assert(w * h * n == h * (w * n)) by (nonlinear_arith);
}

/// The mathematical content of an upload descriptor.
pub struct DescriptorView {
    pub width: nat,
    pub height: nat,
    pub texture_stride: nat,
    pub gpu_format: GpuFormat,
    pub bytes: Seq<u8>,
}

/// A vector of `n` zero bytes.
fn zeroed(n: usize) -> (v: Vec<u8>)
    ensures
        v@.len() == n,
        forall|i: int| 0 <= i < n ==> v@[i] == 0,
{
    let mut v: Vec<u8> = Vec::with_capacity(n);
    let mut i: usize = 0;
    while i < n
        invariant
            i <= n,
            v@.len() == i,
            forall|k: int| 0 <= k < i ==> v@[k] == 0,
        decreases n - i,
    {
        v.push(0u8);
        i = i + 1;
    }
    v
}

/// Copies `len` bytes of `src`, from `src_start` on, over the bytes of
/// `dst` from `dst_start` on. Both ranges are checked against the lengths,
/// and nothing outside the destination range changes.
fn copy_row(dst: &mut Vec<u8>, dst_start: usize, src: &[u8], src_start: usize, len: usize)
    requires
        dst_start + len <= old(dst)@.len(),
        src_start + len <= src@.len(),
    ensures
        final(dst)@.len() == old(dst)@.len(),
        forall|i: int|
            0 <= i < old(dst)@.len() ==> #[trigger] final(dst)@[i] == (if dst_start <= i
                < dst_start + len {
                src@[src_start + (i - dst_start)]
            } else {
                old(dst)@[i]
            }),
{
    let mut k: usize = 0;
    assert(dst@.len() == dst.len() && src@.len() == src.len());
    while k < len
        invariant
            k <= len,
            dst_start + len <= dst@.len() <= usize::MAX,
            src_start + len <= src@.len() <= usize::MAX,
            dst@.len() == old(dst)@.len(),
            forall|i: int|
                0 <= i < dst@.len() ==> #[trigger] dst@[i] == (if dst_start <= i < dst_start + k {
                    src@[src_start + (i - dst_start)]
                } else {
                    old(dst)@[i]
                }),
        decreases len - k,
    {
        dst.set(dst_start + k, src[src_start + k]);
        k = k + 1;
    }
}

/// The bytes of an image laid out for upload, with the strides that the
/// layout was computed from.
///
/// The texture stride is always a multiple of four and at least the source
/// stride, and the buffer has `texture_stride` bytes for each row.
#[derive(Debug)]
pub struct TextureStagingBuffer {
    bytes: Vec<u8>,
    texture_stride: usize,
    source_stride: usize,
    num_logical_pixels_per_row: usize,
    rows: usize,
}

/// The mathematical content of a staging buffer.
pub struct StagingView {
    pub bytes: Seq<u8>,
    pub texture_stride: nat,
    pub source_stride: nat,
    pub num_logical_pixels_per_row: nat,
}

impl View for TextureStagingBuffer {
    type V = StagingView;

    closed spec fn view(&self) -> StagingView {
        StagingView {
            bytes: self.bytes@,
            texture_stride: self.texture_stride as nat,
            source_stride: self.source_stride as nat,
            num_logical_pixels_per_row: self.num_logical_pixels_per_row as nat,
        }
    }
}

impl TextureStagingBuffer {
    #[verifier::type_invariant]
    spec fn aligned(self) -> bool {
        &&& self.texture_stride % 4 == 0
        &&& self.source_stride <= self.texture_stride
        &&& self.bytes@.len() == self.texture_stride * self.rows
    }

    /// Lays the image out for upload: computes the strides, allocates
    /// `texture_stride * height` zero bytes, and copies each row `r` of the
    /// image to row `height - 1 - r` of the buffer.
    pub fn stage(image: &GeneralImage) -> (buffer: TextureStagingBuffer)
        requires
            image@.stageable(),
        ensures
            buffer@ == image@.staging(),
            buffer@.texture_stride % 4 == 0,
            buffer@.source_stride <= buffer@.texture_stride,
            buffer@.bytes.len() == buffer@.texture_stride * image@.height,
    {
        let w = image.width() as usize;
        let h = image.height() as usize;
        let format = image.format();
        let src = image.bytes();
        proof {
            lemma_stride_law(image@);
            lemma_rows_fill_buffer(image@);
        }
        let texture_stride: usize;
        let num_pixels: usize;
        match format {
            PixelFormat::Rgba8 => {
                texture_stride = w * 4;
                num_pixels = w;
            },
            PixelFormat::A8 => {
                texture_stride = align_to_four(w);
                num_pixels = texture_stride;
            },
        }
        let source_stride: usize = w * format.bytes_per_pixel();
        let mut bytes = zeroed(texture_stride * h);
        proof {
            assert(texture_stride * h == h * texture_stride) by (nonlinear_arith);
            assert forall|i: int| 0 <= i < bytes@.len() implies #[trigger] bytes@[i] == (if i / (
            texture_stride as int) >= h {
                image@.staged_byte(i)
            } else {
                0u8
            }) by {
                lemma_grid_cell(h as int, texture_stride as int, i);
            }
        }
        let mut r: usize = 0;
        while r < h
            invariant
                r <= h,
                h == image@.height,
                image@.wf(),
                src@ == image@.bytes,
                src@.len() == h * source_stride,
                texture_stride == image@.texture_stride(),
                source_stride == image@.stride(),
                source_stride <= texture_stride,
                bytes@.len() == h * texture_stride,
                forall|i: int|
                    0 <= i < bytes@.len() ==> #[trigger] bytes@[i] == (if i / (texture_stride as int)
                        >= h - r {
                        image@.staged_byte(i)
                    } else {
                        0u8
                    }),
            decreases h - r,
        {
            let dst_row: usize = h - 1 - r;
            proof {
                lemma_grid_row(h as int, texture_stride as int, dst_row as int);
                lemma_grid_row(h as int, source_stride as int, r as int);
                assert(bytes@.len() == bytes.len() && src@.len() == src.len());
            }
            let dst_start: usize = dst_row * texture_stride;
            let src_start: usize = r * source_stride;
            let ghost before = bytes@;
            copy_row(&mut bytes, dst_start, src, src_start, source_stride);
            proof {
                let ts = texture_stride as int;
                let ss = source_stride as int;
                assert forall|i: int| 0 <= i < bytes@.len() implies #[trigger] bytes@[i] == (if i
                    / ts >= h - (r + 1) {
                    image@.staged_byte(i)
                } else {
                    0u8
                }) by {
                    lemma_grid_cell(h as int, ts, i);
                    let row = i / ts;
                    let col = i % ts;
                    if row == dst_row {
                        assert(i == dst_start + col);
                        if col < ss {
                            assert(bytes@[i] == src@[src_start + col]);
                        } else {
                            assert(bytes@[i] == before[i]);
                        }
                    } else {
                        if row < dst_row {
                            assert(i < dst_start) by (nonlinear_arith)
                                requires
                                    i == row * ts + col,
                                    0 <= col < ts,
                                    row < dst_row,
                                    dst_start == dst_row * ts,
                            ;
                        } else {
                            assert(i >= dst_start + ts) by (nonlinear_arith)
                                requires
                                    i == row * ts + col,
                                    0 <= col < ts,
                                    row > dst_row,
                                    dst_start == dst_row * ts,
                            ;
                        }
                        assert(bytes@[i] == before[i]);
                    }
                }
            }
            r = r + 1;
        }
        assert(bytes@ =~= image@.staged_bytes()) by {
            assert forall|i: int| 0 <= i < bytes@.len() implies bytes@[i] == image@.staged_byte(
                i,
            ) by {
                lemma_grid_cell(h as int, texture_stride as int, i);
            }
        }
        TextureStagingBuffer {
            bytes,
            texture_stride,
            source_stride,
            num_logical_pixels_per_row: num_pixels,
            rows: h,
        }
    }

    /// Bytes from one staged row to the next.
    pub fn texture_stride(&self) -> (n: usize)
        ensures
            n == self@.texture_stride,
            n % 4 == 0,
    {
        proof {
            use_type_invariant(self);
        }
        self.texture_stride
    }

    /// Bytes of pixel data at the start of each staged row.
    pub fn source_stride(&self) -> (n: usize)
        ensures
            n == self@.source_stride,
            n <= self@.texture_stride,
    {
        proof {
            use_type_invariant(self);
        }
        self.source_stride
    }

    /// The row length, in pixels, that the consumer is to unpack with.
    pub fn num_logical_pixels_per_row(&self) -> (n: usize)
        ensures
            n == self@.num_logical_pixels_per_row,
    {
        self.num_logical_pixels_per_row
    }

    /// The staged bytes.
    pub fn bytes(&self) -> (b: &[u8])
        ensures
            b@ == self@.bytes,
    {
        self.bytes.as_slice()
    }

    /// Gives the staged bytes away.
    pub fn into_bytes(self) -> (b: Vec<u8>)
        ensures
            b@ == self@.bytes,
    {
        self.bytes
    }
}

/// What the graphics layer receives to create a texture from: the staged
/// bytes with their row stride, the size in pixels, and the texture format.
#[derive(Debug)]
pub struct TextureUploadDescriptor {
    width: u32,
    height: u32,
    texture_stride: usize,
    gpu_format: GpuFormat,
    bytes: Vec<u8>,
}

impl View for TextureUploadDescriptor {
    type V = DescriptorView;

    closed spec fn view(&self) -> DescriptorView {
        DescriptorView {
            width: self.width as nat,
            height: self.height as nat,
            texture_stride: self.texture_stride as nat,
            gpu_format: self.gpu_format,
            bytes: self.bytes@,
        }
    }
}

impl DescriptorView {
    /// The row length, in texels, that the staged rows are unpacked with:
    /// the stride divided by the bytes of one texel.
    pub open spec fn unpack_row_length(self) -> nat {
        match self.gpu_format {
            GpuFormat::Srgb8Alpha8 => self.texture_stride / 4,
            GpuFormat::R8Swizzled => self.texture_stride,
        }
    }
}

/// The row length that a descriptor gives is the staging buffer's number of
/// logical pixels per row: the width for four channels, the padded stride
/// for one.
pub proof fn lemma_unpack_row_length(image: ImageView)
    ensures
        image.staged().unpack_row_length() == image.num_logical_pixels_per_row(),
{
}

impl TextureUploadDescriptor {
    #[verifier::type_invariant]
    spec fn sized(self) -> bool {
        &&& self.texture_stride % 4 == 0
        &&& self.bytes@.len() == self.texture_stride * self.height
    }

    /// Whether the staging buffer of the image can be addressed on this
    /// machine, which is what `from_image` requires.
    pub fn can_stage(image: &GeneralImage) -> (ok: bool)
        ensures
            ok == image@.stageable(),
    {
        let w = image.width() as u64;
        let h = image.height() as u64;
        let stride: u64 = match image.format() {
            PixelFormat::Rgba8 => w * 4,
            PixelFormat::A8 => (w + 3) / 4 * 4,
        };
        assert(stride * h <= 0x4_0000_0000 * 0x1_0000_0000) by (nonlinear_arith)
            requires
                0 <= stride <= 0x4_0000_0000,
                0 <= h <= 0x1_0000_0000,
        ;
        let total: u128 = stride as u128 * h as u128;
        stride <= usize::MAX as u64 && total <= usize::MAX as u128
    }

    /// Stages the image: see `ImageView::staged` for each field. Padding
    /// bytes are zero.
    pub fn from_image(image: &GeneralImage) -> (descriptor: TextureUploadDescriptor)
        requires
            image@.stageable(),
        ensures
            descriptor@ == image@.staged(),
            descriptor@.texture_stride % 4 == 0,
            descriptor@.bytes.len() == descriptor@.texture_stride * descriptor@.height,
    {
        let buffer = TextureStagingBuffer::stage(image);
        let texture_stride = buffer.texture_stride();
        TextureUploadDescriptor {
            width: image.width(),
            height: image.height(),
            texture_stride,
            gpu_format: GpuFormat::of(image.format()),
            bytes: buffer.into_bytes(),
        }
    }

    /// Stages the image if its staging buffer can be addressed on this
    /// machine, and returns `None` if not.
    pub fn try_from_image(image: &GeneralImage) -> (r: Option<TextureUploadDescriptor>)
        ensures
            r is Some <==> image@.stageable(),
            r matches Some(descriptor) ==> descriptor@ == image@.staged(),
    {
        if Self::can_stage(image) {
            Some(Self::from_image(image))
        } else {
            None
        }
    }

    /// Width of the texture in pixels.
    pub fn width(&self) -> (w: u32)
        ensures
            w == self@.width,
    {
        self.width
    }

    /// Height of the texture in pixels.
    pub fn height(&self) -> (h: u32)
        ensures
            h == self@.height,
    {
        self.height
    }

    /// Bytes from one staged row to the next: a multiple of four.
    pub fn texture_stride(&self) -> (n: usize)
        ensures
            n == self@.texture_stride,
            n % 4 == 0,
    {
        proof {
            use_type_invariant(self);
        }
        self.texture_stride
    }

    /// The row length, in texels, to unpack the staged rows with.
    pub fn unpack_row_length(&self) -> (n: usize)
        ensures
            n == self@.unpack_row_length(),
    {
        self.texture_stride / self.gpu_format.bytes_per_texel()
    }

    /// The texture format, which also says whether a swizzle is to be set.
    pub fn gpu_format(&self) -> (g: GpuFormat)
        ensures
            g == self@.gpu_format,
    {
        self.gpu_format
    }

    /// The staged bytes: `texture_stride * height` of them.
    pub fn bytes(&self) -> (b: &[u8])
        ensures
            b@ == self@.bytes,
            b@.len() == self@.texture_stride * self@.height,
    {
        proof {
            use_type_invariant(self);
        }
        self.bytes.as_slice()
    }

    /// Gives the staged bytes away.
    pub fn into_bytes(self) -> (b: Vec<u8>)
        ensures
            b@ == self@.bytes,
    {
        self.bytes
    }
}

} // verus!
