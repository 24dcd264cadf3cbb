//! What a decoder hands over: either a raster of 8-bit components with its
//! dimensions, or the reason why the bytes could not be decoded.

use vstd::prelude::*;

verus! {

/// Why an encoded byte stream did not become an image.
#[derive(Debug, PartialEq, Eq)]
pub enum DecodeError {
    /// The decoder rejected the bytes; the string is its own explanation.
    Codec(String),
    /// The decoder succeeded, but with a number of components per pixel
    /// that no pixel format of this library has.
    UnsupportedFormat(u32),
}

/// The mathematical content of a decoded raster.
pub struct RasterView {
    pub width: nat,
    pub height: nat,
    pub components: nat,
    pub data: Seq<u8>,
}

impl RasterView {
    /// The buffer holds exactly one byte per component of every pixel.
    pub open spec fn wf(self) -> bool {
        self.data.len() == self.components * self.width * self.height
    }
}

/// A decoded raster as the decoder reports it: width, height and components
/// per pixel as C integers, and the component bytes in row-major order.
///
/// A value of this type is always consistent: no dimension is negative and
/// the buffer has `n * w * h` bytes.
#[derive(Debug)]
pub struct StbImage {
    data: Vec<u8>,
    w: i32,
    h: i32,
    n: i32,
}

/// Whether the three reported numbers and a buffer of `len` bytes describe
/// one raster.
pub open spec fn raster_consistent(w: int, h: int, n: int, len: nat) -> bool {
    0 <= w && 0 <= h && 0 <= n && len == n * w * h
}

impl View for StbImage {
    type V = RasterView;

    closed spec fn view(&self) -> RasterView {
        RasterView {
            width: self.w as nat,
            height: self.h as nat,
            components: self.n as nat,
            data: self.data@,
        }
    }
}

impl StbImage {
    #[verifier::type_invariant]
    spec fn consistent(self) -> bool {
        raster_consistent(self.w as int, self.h as int, self.n as int, self.data@.len())
    }

    /// The buffer of a raster is held in memory, so its length is a `usize`.
    pub proof fn lemma_data_fits(self)
        ensures
            self@.data.len() <= usize::MAX,
    {
        assert(self.data@.len() == self.data.len());
    }

    /// The raster of no pixels, as it stands before a decoder has filled it.
    pub fn empty() -> (stbi: StbImage)
        ensures
            stbi@ == (RasterView { width: 0, height: 0, components: 0, data: Seq::empty() }),
            stbi@.wf(),
    {
        StbImage { data: Vec::new(), w: 0, h: 0, n: 0 }
    }

    /// Takes over what a decoder reported, if the numbers and the buffer
    /// agree with each other.
    pub fn new(w: i32, h: i32, n: i32, data: Vec<u8>) -> (stbi: Option<StbImage>)
        ensures
            stbi is Some <==> raster_consistent(w as int, h as int, n as int, data@.len()),
            stbi matches Some(s) ==> s@ == (RasterView {
                width: w as nat,
                height: h as nat,
                components: n as nat,
                data: data@,
            }) && s@.wf(),
    {
        if w < 0 || h < 0 || n < 0 {
            return None;
        }
        assert(n * w <= 0x7fff_ffff * 0x7fff_ffff) by (nonlinear_arith)
            requires
                0 <= n <= 0x7fff_ffff,
                0 <= w <= 0x7fff_ffff,
        ;
        let per_row: u64 = n as u64 * w as u64;
        assert(per_row * h <= 0x7fff_ffff * 0x7fff_ffff * 0x7fff_ffff) by (nonlinear_arith)
            requires
                0 <= per_row <= 0x7fff_ffff * 0x7fff_ffff,
                0 <= h <= 0x7fff_ffff,
        ;
        let total: u128 = per_row as u128 * h as u128;
        if data.len() as u128 != total {
            return None;
        }
        Some(StbImage { data, w, h, n })
    }

    /// Width in pixels.
    pub fn width(&self) -> (w: i32)
        ensures
            w == self@.width,
    {
        proof {
            use_type_invariant(self);
        }
        self.w
    }

    /// Height in pixels.
    pub fn height(&self) -> (h: i32)
        ensures
            h == self@.height,
    {
        proof {
            use_type_invariant(self);
        }
        self.h
    }

    /// Components per pixel, as the decoder detected them.
    pub fn components(&self) -> (n: i32)
        ensures
            n == self@.components,
    {
        proof {
            use_type_invariant(self);
        }
        self.n
    }

    /// The components, one after the other.
    pub fn data(&self) -> (d: &[u8])
        ensures
            d@ == self@.data,
            self@.wf(),
    {
        proof {
            use_type_invariant(self);
        }
        self.data.as_slice()
    }

    /// The raster as bytes: the same as `data`, since a component is a byte.
    pub fn bytes(&self) -> (b: &[u8])
        ensures
            b@ == self@.data,
            self@.wf(),
    {
        self.data()
    }
}

} // verus!
