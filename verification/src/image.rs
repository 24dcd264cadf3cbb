//! Images in memory: the decoded bytes with their dimensions and pixel
//! format, pixel access by coordinates, and pixel-by-pixel traversal.

use vstd::prelude::*;
use crate::codec::{DecodeError, StbImage};
use crate::math::{lemma_grid_cell, lemma_grid_index};
use crate::pixel::{Pixel, PixelFormat, Rgba8, A8};

verus! {

/// The mathematical content of an image: its dimensions in pixels, its pixel
/// format and its bytes, row after row from the first row on.
pub struct ImageView {
    pub width: nat,
    pub height: nat,
    pub format: PixelFormat,
    pub bytes: Seq<u8>,
}

impl ImageView {
    pub open spec fn bytes_per_pixel(self) -> nat {
        self.format.spec_bytes_per_pixel()
    }

    /// Bytes from the start of one row to the start of the next.
    pub open spec fn stride(self) -> nat {
        self.width * self.bytes_per_pixel()
    }

    /// The buffer holds every pixel and nothing else.
    pub open spec fn wf(self) -> bool {
        self.bytes.len() == self.width * self.height * self.bytes_per_pixel()
    }

    pub open spec fn in_bounds(self, x: int, y: int) -> bool {
        0 <= x < self.width && 0 <= y < self.height
    }

    /// Where the pixel in column `x` of row `y` starts in the buffer.
    pub open spec fn offset(self, x: int, y: int) -> int {
        y * self.width * self.bytes_per_pixel() + x * self.bytes_per_pixel()
    }

    /// The bytes of the pixel in column `x` of row `y`.
    pub open spec fn pixel_bytes(self, x: int, y: int) -> Seq<u8> {
        self.bytes.subrange(self.offset(x, y), self.offset(x, y) + self.bytes_per_pixel())
    }

    /// The pixel in column `x` of row `y`; none outside the image.
    pub open spec fn pixel(self, x: int, y: int) -> Option<Pixel> {
        if self.in_bounds(x, y) {
            Some(Pixel::from_components(self.format, self.pixel_bytes(x, y)))
        } else {
            None
        }
    }

    pub open spec fn pixel_count(self) -> nat {
        self.width * self.height
    }

    /// All pixels in row-major order: rows from first to last, and in each
    /// row the columns from first to last.
    pub open spec fn pixels(self) -> Seq<Pixel> {
        Seq::new(
            self.pixel_count(),
            |i: int| Pixel::from_components(
                self.format,
                self.pixel_bytes(i % (self.width as int), i / (self.width as int)),
            ),
        )
    }

    /// The bytes of row `y`.
    pub open spec fn row(self, y: int) -> Seq<u8> {
        self.bytes.subrange(y * self.stride(), y * self.stride() + self.stride())
    }
}

/// Every pixel inside the image lies wholly inside the buffer, and what
/// `pixel` returns there stores as exactly the bytes at its offset.
pub proof fn lemma_pixel_matches_bytes(image: ImageView, x: int, y: int)
    requires
        image.wf(),
        0 <= x < image.width,
        0 <= y < image.height,
    ensures
        image.pixel(x, y) is Some,
        0 <= image.offset(x, y),
        image.offset(x, y) + image.bytes_per_pixel() <= image.bytes.len(),
        image.offset(x, y) == (y * image.width + x) * image.bytes_per_pixel(),
        image.pixel(x, y).unwrap().spec_format() == image.format,
        image.pixel(x, y).unwrap().components() == image.bytes.subrange(
            image.offset(x, y),
            image.offset(x, y) + image.bytes_per_pixel(),
        ),
{
    let w = image.width as int;
    let h = image.height as int;
    let n = image.bytes_per_pixel() as int;
    lemma_grid_index(h, w, y, x);
    assert(y * w * n + x * n == (y * w + x) * n && (y * w + x) * n + n <= w * h * n && 0 <= (y * w
        + x) * n) by (nonlinear_arith)
        requires
            0 <= y * w + x < h * w,
            0 <= n,
    ;
    let bytes = image.pixel_bytes(x, y);
    assert(bytes.len() == n);
    assert(Pixel::from_components(image.format, bytes).components() =~= bytes);
}

/// An image has at most as many pixels as bytes, and a row of an image that
/// has rows is no longer than the buffer.
pub proof fn lemma_pixel_count_bounded(image: ImageView)
    requires
        image.wf(),
    ensures
        image.pixel_count() <= image.bytes.len(),
        image.height > 0 ==> image.stride() <= image.bytes.len(),
{
    let w = image.width as int;
    let h = image.height as int;
    let n = image.bytes_per_pixel() as int;
    assert(w * h <= w * h * n) by (nonlinear_arith)
        requires
            0 <= w,
            0 <= h,
            1 <= n,
    ;
    if h > 0 {
        assert(w * n <= w * h * n) by (nonlinear_arith)
            requires
                0 <= w,
                1 <= h,
                1 <= n,
        ;
    }
}

/// Outside the image there is no pixel.
pub proof fn lemma_pixel_out_of_bounds(image: ImageView, x: int, y: int)
    requires
        x >= image.width || y >= image.height,
    ensures
        image.pixel(x, y) is None,
{
}

/// The pixel sequence has one item for each coordinate pair, and the pixel
/// in column `x` of row `y` is item `y * width + x` of it.
pub proof fn lemma_pixels_row_major(image: ImageView)
    requires
        image.wf(),
    ensures
        image.pixels().len() == image.width * image.height,
        forall|x: int, y: int|
            0 <= x < image.width && 0 <= y < image.height ==> {
                &&& 0 <= y * image.width + x < image.pixels().len()
                &&& #[trigger] image.pixel(x, y) == Some(image.pixels()[y * image.width + x])
            },
{
    let w = image.width as int;
    let h = image.height as int;
    assert forall|x: int, y: int| 0 <= x < image.width && 0 <= y < image.height implies {
        &&& 0 <= y * image.width + x < image.pixels().len()
        &&& #[trigger] image.pixel(x, y) == Some(image.pixels()[y * image.width + x])
    } by {
        lemma_grid_index(h, w, y, x);
        assert(h * w == w * h) by (nonlinear_arith);
    }
}

/// Pixel storage: a decoded raster whose component count is that of a
/// supported pixel format.
#[derive(Debug)]
pub struct ImageStorage {
    format: PixelFormat,
    stbi: StbImage,
}

impl View for ImageStorage {
    type V = ImageView;

    closed spec fn view(&self) -> ImageView {
        ImageView {
            width: self.stbi@.width,
            height: self.stbi@.height,
            format: self.format,
            bytes: self.stbi@.data,
        }
    }
}

impl ImageStorage {
    #[verifier::type_invariant]
    spec fn typed(self) -> bool {
        &&& self.stbi@.wf()
        &&& self.stbi@.components == self.format.spec_component_count()
    }

    proof fn lemma_view_wf(self)
        requires
            self.typed(),
        ensures
            self@.wf(),
    {
        let w = self.stbi@.width as int;
        let h = self.stbi@.height as int;
        let n = self.stbi@.components as int;
        assert(n * w * h == w * h * n) by (nonlinear_arith);
    }

    /// The bytes of stored pixels are held in memory, so their number is a
    /// `usize`.
    pub proof fn lemma_bytes_fit(self)
        ensures
            self@.bytes.len() <= usize::MAX,
    {
        self.stbi.lemma_data_fits();
    }

    /// Types a decoded raster by its component count: four components make
    /// `Rgba8` storage, one makes `A8` storage, and any other count is
    /// rejected with that count.
    pub fn new(stbi: StbImage) -> (r: Result<ImageStorage, DecodeError>)
        ensures
            match PixelFormat::classify(stbi@.components as int) {
                Some(format) => r matches Ok(storage) && storage@ == (ImageView {
                    width: stbi@.width,
                    height: stbi@.height,
                    format,
                    bytes: stbi@.data,
                }) && storage@.wf(),
                None => r == Err::<ImageStorage, DecodeError>(
                    DecodeError::UnsupportedFormat(stbi@.components as u32),
                ),
            },
    {
        let n = stbi.components();
        let _ = stbi.data();
        match PixelFormat::from_component_count(n as u32) {
            Ok(format) => {
                let storage = ImageStorage { format, stbi };
                proof {
                    storage.lemma_view_wf();
                }
                Ok(storage)
            },
            Err(e) => Err(e),
        }
    }

    /// The pixel format.
    pub fn format(&self) -> (f: PixelFormat)
        ensures
            f == self@.format,
    {
        self.format
    }

    /// Width in pixels.
    pub fn width(&self) -> (w: u32)
        ensures
            w == self@.width,
    {
        self.stbi.width() as u32
    }

    /// Height in pixels.
    pub fn height(&self) -> (h: u32)
        ensures
            h == self@.height,
    {
        self.stbi.height() as u32
    }

    /// The pixel in column `x` of row `y`, read from the bytes at
    /// `y * width * bytes_per_pixel + x * bytes_per_pixel`; `None` if `x` or
    /// `y` lies outside the image.
    pub fn pixel(&self, x: u32, y: u32) -> (p: Option<Pixel>)
        ensures
            p == self@.pixel(x as int, y as int),
            p is None <==> x >= self@.width || y >= self@.height,
    {
        proof {
            use_type_invariant(self);
            self.lemma_view_wf();
        }
        let w = self.width();
        let h = self.height();
        if x >= w || y >= h {
            return None;
        }
        let n: usize = self.format.bytes_per_pixel();
        let data = self.stbi.data();
        proof {
            lemma_pixel_matches_bytes(self@, x as int, y as int);
            assert(0 <= y * w <= y * w * n && 0 <= x * n) by (nonlinear_arith)
                requires
                    0 <= y,
                    0 <= w,
                    0 <= x,
                    1 <= n,
            ;
            assert(y * w * n + x * n == self@.offset(x as int, y as int));
            assert(data@.len() == data.len());
        }
        let offset: usize = y as usize * w as usize * n + x as usize * n;
        let ghost bytes = self@.pixel_bytes(x as int, y as int);
        let pixel = match self.format {
            PixelFormat::Rgba8 => {
                assert(bytes[0] == data@[offset as int] && bytes[1] == data@[offset + 1]
                    && bytes[2] == data@[offset + 2] && bytes[3] == data@[offset + 3]);
                Pixel::Rgba8(
                    Rgba8 {
                        r: data[offset],
                        g: data[offset + 1],
                        b: data[offset + 2],
                        a: data[offset + 3],
                    },
                )
            },
            PixelFormat::A8 => {
                assert(bytes[0] == data@[offset as int]);
                Pixel::A8(A8 { a: data[offset] })
            },
        };
        Some(pixel)
    }

    /// The components, one after the other.
    pub fn data(&self) -> (d: &[u8])
        ensures
            d@ == self@.bytes,
            self@.wf(),
    {
        proof {
            use_type_invariant(self);
            self.lemma_view_wf();
        }
        self.stbi.data()
    }

    /// The whole buffer: `width * height * bytes_per_pixel` bytes.
    pub fn bytes(&self) -> (b: &[u8])
        ensures
            b@ == self@.bytes,
            self@.wf(),
    {
        proof {
            use_type_invariant(self);
            self.lemma_view_wf();
        }
        self.stbi.bytes()
    }
}

/// An image of either supported format: the spec-level content is an
/// `ImageView`, and a value always holds exactly the bytes of its pixels.
#[derive(Debug)]
pub struct GeneralImage {
    w: u32,
    h: u32,
    storage: ImageStorage,
}

impl View for GeneralImage {
    type V = ImageView;

    closed spec fn view(&self) -> ImageView {
        self.storage@
    }
}

impl GeneralImage {
    #[verifier::type_invariant]
    spec fn sized(self) -> bool {
        &&& self.storage@.wf()
        &&& self.w == self.storage@.width
        &&& self.h == self.storage@.height
    }

    /// The bytes of an image are held in memory, so their number is a
    /// `usize`, and so is the number of pixels.
    pub proof fn lemma_bytes_fit(self)
        ensures
            self@.bytes.len() <= usize::MAX,
            self@.wf() ==> self@.pixel_count() <= usize::MAX,
    {
        self.storage.lemma_bytes_fit();
        if self@.wf() {
            lemma_pixel_count_bounded(self@);
        }
    }

    /// What `decode` makes of a decoder's outcome: the decoder's failure is
    /// passed on with its reason, a raster of four or one components becomes
    /// an image of the same dimensions and bytes, and a raster of any other
    /// component count is rejected with that count.
    pub open spec fn decoded(outcome: Result<StbImage, String>) -> Result<ImageView, DecodeError> {
        match outcome {
            Err(reason) => Err(DecodeError::Codec(reason)),
            Ok(stbi) => match PixelFormat::classify(stbi@.components as int) {
                Some(format) => Ok(
                    ImageView {
                        width: stbi@.width,
                        height: stbi@.height,
                        format,
                        bytes: stbi@.data,
                    },
                ),
                None => Err(DecodeError::UnsupportedFormat(stbi@.components as u32)),
            },
        }
    }

    /// Wraps typed storage with its dimensions.
    pub fn from_storage(storage: ImageStorage) -> (image: GeneralImage)
        ensures
            image@ == storage@,
            image@.wf(),
    {
        let _ = storage.bytes();
        GeneralImage { w: storage.width(), h: storage.height(), storage }
    }

    /// Turns the outcome of decoding an encoded byte stream into an image.
    /// The result is `Ok` exactly if the decoder succeeded with four or one
    /// components per pixel; see `decoded` for each case.
    pub fn decode(outcome: Result<StbImage, String>) -> (r: Result<GeneralImage, DecodeError>)
        ensures
            match Self::decoded(outcome) {
                Ok(view) => r matches Ok(image) && image@ == view && view.wf(),
                Err(e) => r == Err::<GeneralImage, DecodeError>(e),
            },
    {
        match outcome {
            Err(reason) => Err(DecodeError::Codec(reason)),
            Ok(stbi) => match ImageStorage::new(stbi) {
                Ok(storage) => Ok(Self::from_storage(storage)),
                Err(e) => Err(e),
            },
        }
    }

    /// The pixel format.
    pub fn format(&self) -> (f: PixelFormat)
        ensures
            f == self@.format,
    {
        self.storage.format()
    }

    /// Components per pixel: four or one.
    pub fn num_component(&self) -> (n: u32)
        ensures
            n == self@.format.spec_component_count(),
    {
        match self.storage.format() {
            PixelFormat::Rgba8 => 4,
            PixelFormat::A8 => 1,
        }
    }

    /// Bytes per component: always one.
    pub fn num_bytes_per_component(&self) -> (n: usize)
        ensures
            n == self@.format.spec_bytes_per_component(),
    {
        self.storage.format().bytes_per_component()
    }

    /// Bytes per pixel.
    pub fn num_bytes_per_pixel(&self) -> (n: usize)
        ensures
            n == self@.bytes_per_pixel(),
    {
        self.storage.format().bytes_per_pixel()
    }

    /// Width in pixels.
    pub fn width(&self) -> (w: u32)
        ensures
            w == self@.width,
            self@.wf(),
    {
        proof {
            use_type_invariant(self);
        }
        self.w
    }

    /// Height in pixels.
    pub fn height(&self) -> (h: u32)
        ensures
            h == self@.height,
            self@.wf(),
    {
        proof {
            use_type_invariant(self);
        }
        self.h
    }

    /// Bytes from the start of one row to the start of the next:
    /// `width * bytes_per_pixel`.
    pub fn stride(&self) -> (s: isize)
        requires
            self@.stride() <= isize::MAX,
        ensures
            s == self@.stride(),
    {
        let n = self.num_bytes_per_pixel();
        let w = self.width();
        assert(w <= w * n && n * w == w * n) by (nonlinear_arith)
            requires
                0 <= w,
                1 <= n,
        ;
        n as isize * w as isize
    }

    /// The whole buffer: `width * height * bytes_per_pixel` bytes.
    pub fn bytes(&self) -> (b: &[u8])
        ensures
            b@ == self@.bytes,
            b@.len() == self@.width * self@.height * self@.bytes_per_pixel(),
            self@.wf(),
    {
        self.storage.bytes()
    }

    /// The pixel in column `x` of row `y`; `None` exactly if `x >= width` or
    /// `y >= height`.
    pub fn pixel(&self, x: u32, y: u32) -> (p: Option<Pixel>)
        ensures
            p == self@.pixel(x as int, y as int),
            p is None <==> x >= self@.width || y >= self@.height,
    {
        self.storage.pixel(x, y)
    }

    /// A cursor at the first pixel. Any number of cursors can be made, and
    /// each walks the same sequence, `self@.pixels()`.
    pub fn pixels(&self) -> (it: PixelIter<'_>)
        ensures
            it.image() == self@,
            it.position() == 0,
            it.remaining() == self@.pixels(),
    {
        PixelIter { image: self, offset: 0 }
    }

    /// All pixels in row-major order.
    pub fn to_pixels(&self) -> (all: Vec<Pixel>)
        ensures
            all@ == self@.pixels(),
    {
        let mut all: Vec<Pixel> = Vec::new();
        let mut it = self.pixels();
        loop
            invariant
                it.image() == self@,
                it.position() <= self@.pixel_count(),
                all@ == self@.pixels().take(it.position() as int),
            ensures
                all@ == self@.pixels(),
            decreases self@.pixel_count() - it.position(),
        {
            let ghost before = it.position() as int;
            match it.next() {
                Some(p) => {
                    all.push(p);
                    assert(self@.pixels().take(before + 1) =~= self@.pixels().take(before).push(
                        self@.pixels()[before],
                    ));
                },
                None => {
                    assert(self@.pixels().take(before) =~= self@.pixels());
                    break ;
                },
            }
        }
        all
    }
}

/// A cursor over the pixels of an image in row-major order.
#[derive(Debug)]
pub struct PixelIter<'a> {
    image: &'a GeneralImage,
    offset: usize,
}

impl<'a> PixelIter<'a> {
    #[verifier::type_invariant]
    spec fn in_range(self) -> bool {
        self.offset <= self.image@.pixel_count()
    }

    /// The image that is walked.
    pub closed spec fn image(self) -> ImageView {
        self.image@
    }

    /// How many pixels have been handed out.
    pub closed spec fn position(self) -> nat {
        self.offset as nat
    }

    /// The pixels still to come.
    pub open spec fn remaining(self) -> Seq<Pixel> {
        self.image().pixels().skip(self.position() as int)
    }

    /// Hands out the pixel at the cursor and moves on by one; at the end it
    /// returns `None` and stays there.
    pub fn next(&mut self) -> (p: Option<Pixel>)
        ensures
            final(self).image() == old(self).image(),
            old(self).position() <= old(self).image().pixel_count(),
            old(self).position() < old(self).image().pixel_count() ==> {
                &&& p == Some(old(self).image().pixels()[old(self).position() as int])
                &&& final(self).position() == old(self).position() + 1
            },
            old(self).position() == old(self).image().pixel_count() ==> {
                &&& p is None
                &&& final(self).position() == old(self).position()
            },
    {
        proof {
            use_type_invariant(&*self);
            self.image.lemma_bytes_fit();
        }
        let w = self.image.width() as usize;
        let h = self.image.height() as usize;
        if w == 0 {
            assert(self.image@.pixel_count() == 0) by (nonlinear_arith)
                requires
                    self.image@.width == 0,
                    self.image@.pixel_count() == self.image@.width * self.image@.height,
            ;
            return None;
        }
        let x = self.offset % w;
        let y = self.offset / w;
        proof {
            let count = self.image@.pixel_count() as int;
            assert(count == h * w) by (nonlinear_arith)
                requires
                    count == w * h,
            ;
            if self.offset < count {
                lemma_grid_cell(h as int, w as int, self.offset as int);
            } else {
                assert(y >= h) by (nonlinear_arith)
                    requires
                        y == self.offset as int / w as int,
                        self.offset == h * w,
                        w > 0,
                ;
            }
        }
        if y >= h {
            return None;
        }
        let pixel = self.image.pixel(x as u32, y as u32);
        self.offset = self.offset + 1;
        pixel
    }
}

/// Two cursors at the same position of the same image have the same pixels
/// still to come: walking an image again yields the same sequence.
pub proof fn lemma_cursors_agree(a: PixelIter, b: PixelIter)
    requires
        a.image() == b.image(),
        a.position() == b.position(),
    ensures
        a.remaining() == b.remaining(),
{
}

/// An image that is known to have four components per pixel.
#[derive(Debug)]
pub struct Image {
    general: GeneralImage,
}

impl View for Image {
    type V = ImageView;

    closed spec fn view(&self) -> ImageView {
        self.general@
    }
}

impl Image {
    #[verifier::type_invariant]
    spec fn four_components(self) -> bool {
        self.general@.format == PixelFormat::Rgba8
    }

    /// Accepts an image of four components per pixel, and hands any other
    /// image back.
    pub fn new(general: GeneralImage) -> (r: Result<Image, GeneralImage>)
        ensures
            match r {
                Ok(image) => general@.format == PixelFormat::Rgba8 && image@ == general@,
                Err(other) => general@.format != PixelFormat::Rgba8 && other == general,
            },
    {
        match general.format() {
            PixelFormat::Rgba8 => Ok(Image { general }),
            PixelFormat::A8 => Err(general),
        }
    }

    /// The image without the knowledge of its format.
    pub fn general(&self) -> (g: &GeneralImage)
        ensures
            g@ == self@,
            self@.format == PixelFormat::Rgba8,
    {
        proof {
            use_type_invariant(self);
        }
        &self.general
    }

    /// A cursor at the first pixel; every pixel that it hands out is an
    /// `Rgba8` pixel.
    pub fn iter(&self) -> (it: PixelIter<'_>)
        ensures
            it.image() == self@,
            it.position() == 0,
            it.remaining() == self@.pixels(),
            self@.format == PixelFormat::Rgba8,
    {
        proof {
            use_type_invariant(self);
        }
        self.general.pixels()
    }
}

} // verus!
