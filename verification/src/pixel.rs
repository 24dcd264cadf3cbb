//! The pixel layouts that an image can have, and the typed pixel values that
//! are read out of its bytes.

use vstd::prelude::*;
use crate::codec::DecodeError;

verus! {

/// The closed set of supported layouts. Every component is one byte wide.
#[derive(Clone, Copy, Debug, PartialEq, Eq, Structural)]
pub enum PixelFormat {
    /// Four components per pixel: red, green, blue, alpha.
    Rgba8,
    /// One component per pixel: alpha (or luminance).
    A8,
}

impl PixelFormat {
    /// The format that a decoded component count stands for, if any.
    pub open spec fn classify(count: int) -> Option<PixelFormat> {
        if count == 4 {
            Some(PixelFormat::Rgba8)
        } else if count == 1 {
            Some(PixelFormat::A8)
        } else {
            None
        }
    }

    pub open spec fn spec_component_count(self) -> nat {
        match self {
            PixelFormat::Rgba8 => 4,
            PixelFormat::A8 => 1,
        }
    }

    pub open spec fn spec_bytes_per_component(self) -> nat {
        1
    }

    pub open spec fn spec_bytes_per_pixel(self) -> nat {
        self.spec_component_count() * self.spec_bytes_per_component()
    }

    /// Classifies a decoded component count: four is `Rgba8`, one is `A8`,
    /// and every other count is rejected with the count in the error.
    pub fn from_component_count(count: u32) -> (r: Result<PixelFormat, DecodeError>)
        ensures
            r == match Self::classify(count as int) {
                Some(format) => Ok::<PixelFormat, DecodeError>(format),
                None => Err(DecodeError::UnsupportedFormat(count)),
            },
    {
        if count == 4 {
            Ok(PixelFormat::Rgba8)
        } else if count == 1 {
            Ok(PixelFormat::A8)
        } else {
            Err(DecodeError::UnsupportedFormat(count))
        }
    }

    /// Components per pixel.
    pub fn component_count(&self) -> (n: u32)
        ensures
            n == self.spec_component_count(),
            Self::classify(n as int) == Some(*self),
    {
        match self {
            PixelFormat::Rgba8 => 4,
            PixelFormat::A8 => 1,
        }
    }

    /// Bytes per component.
    pub fn bytes_per_component(&self) -> (n: usize)
        ensures
            n == self.spec_bytes_per_component(),
    {
        1
    }

    /// Bytes per pixel: components per pixel times bytes per component.
    pub fn bytes_per_pixel(&self) -> (n: usize)
        ensures
            n == self.spec_bytes_per_pixel(),
            n == self.spec_component_count() * self.spec_bytes_per_component(),
    {
        match self {
            PixelFormat::Rgba8 => 4,
            PixelFormat::A8 => 1,
        }
    }
}

/// A pixel takes as many bytes as it has components: four or one.
pub proof fn lemma_bytes_per_pixel(format: PixelFormat)
    ensures
        format.spec_bytes_per_pixel() == format.spec_component_count(),
        format == PixelFormat::Rgba8 ==> format.spec_bytes_per_pixel() == 4,
        format == PixelFormat::A8 ==> format.spec_bytes_per_pixel() == 1,
{
}

/// A four-component pixel.
#[derive(Clone, Copy, Debug, PartialEq, Eq, Structural)]
pub struct Rgba8 {
    pub r: u8,
    pub g: u8,
    pub b: u8,
    pub a: u8,
}

impl Rgba8 {
    /// The components in storage order.
    pub open spec fn components(self) -> Seq<u8> {
        seq![self.r, self.g, self.b, self.a]
    }

    /// The `n`-th component in storage order, if there is one.
    pub fn component(&self, n: u32) -> (c: Option<&u8>)
        ensures
            n < 4 <==> c is Some,
            c matches Some(v) ==> *v == self.components()[n as int],
    {
        match n {
            0 => Some(&self.r),
            1 => Some(&self.g),
            2 => Some(&self.b),
            3 => Some(&self.a),
            _ => None,
        }
    }
}

/// A one-component pixel.
#[derive(Clone, Copy, Debug, PartialEq, Eq, Structural)]
pub struct A8 {
    pub a: u8,
}

impl A8 {
    /// The components in storage order.
    pub open spec fn components(self) -> Seq<u8> {
        seq![self.a]
    }

    /// The `n`-th component in storage order, if there is one.
    pub fn component(&self, n: u32) -> (c: Option<&u8>)
        ensures
            n < 1 <==> c is Some,
            c matches Some(v) ==> *v == self.components()[n as int],
    {
        match n {
            0 => Some(&self.a),
            _ => None,
        }
    }
}

/// One pixel of an image, typed by the image's format.
#[derive(Clone, Copy, Debug, PartialEq, Eq, Structural)]
pub enum Pixel {
    Rgba8(Rgba8),
    A8(A8),
}

impl Pixel {
    /// The pixel that `bytes` hold in the given format. `bytes` has the
    /// format's number of bytes per pixel.
    pub open spec fn from_components(format: PixelFormat, bytes: Seq<u8>) -> Pixel
        recommends
            bytes.len() == format.spec_bytes_per_pixel(),
    {
        match format {
            PixelFormat::Rgba8 => Pixel::Rgba8(
                Rgba8 { r: bytes[0], g: bytes[1], b: bytes[2], a: bytes[3] },
            ),
            PixelFormat::A8 => Pixel::A8(A8 { a: bytes[0] }),
        }
    }

    pub open spec fn spec_format(self) -> PixelFormat {
        match self {
            Pixel::Rgba8(_) => PixelFormat::Rgba8,
            Pixel::A8(_) => PixelFormat::A8,
        }
    }

    /// The components in storage order.
    pub open spec fn components(self) -> Seq<u8> {
        match self {
            Pixel::Rgba8(p) => p.components(),
            Pixel::A8(p) => p.components(),
        }
    }

    /// The format that this pixel was read in.
    pub fn format(&self) -> (f: PixelFormat)
        ensures
            f == self.spec_format(),
    {
        match self {
            Pixel::Rgba8(_) => PixelFormat::Rgba8,
            Pixel::A8(_) => PixelFormat::A8,
        }
    }

    /// The `n`-th component in storage order, if there is one.
    pub fn component(&self, n: u32) -> (c: Option<&u8>)
        ensures
            n < self.spec_format().spec_component_count() <==> c is Some,
            c matches Some(v) ==> *v == self.components()[n as int],
    {
        match self {
            Pixel::Rgba8(p) => p.component(n),
            Pixel::A8(p) => p.component(n),
        }
    }

    /// The bytes that store this pixel.
    pub fn to_bytes(&self) -> (bytes: Vec<u8>)
        ensures
            bytes@ == self.components(),
    {
        let mut bytes: Vec<u8> = Vec::new();
        match self {
            Pixel::Rgba8(p) => {
                bytes.push(p.r);
                bytes.push(p.g);
                bytes.push(p.b);
                bytes.push(p.a);
            },
            Pixel::A8(p) => {
                bytes.push(p.a);
            },
        }
        bytes
    }
}

/// A pixel's stored bytes give the pixel back, and a pixel read from bytes
/// stores as those bytes.
pub proof fn lemma_pixel_components_round_trip(format: PixelFormat, bytes: Seq<u8>)
    requires
        bytes.len() == format.spec_bytes_per_pixel(),
    ensures
        Pixel::from_components(format, bytes).components() == bytes,
        Pixel::from_components(format, bytes).spec_format() == format,
{
    assert(Pixel::from_components(format, bytes).components() =~= bytes);
}

} // verus!
