//! Images of four 8-bit channels, stored row by row.

use vstd::prelude::*;

use crate::color::Color;

verus! {

/// One pixel: red, green, blue and alpha.
#[derive(Clone, Copy, Debug, PartialEq, Eq, Structural)]
pub struct Pixel {
    pub r: u8,
    pub g: u8,
    pub b: u8,
    pub a: u8,
}

impl Pixel {
    /// The colour of the pixel: its channels but alpha.
    pub open spec fn color(self) -> Color {
        Color { r: self.r, g: self.g, b: self.b }
    }

    /// The pixel with the channels of `c`, and its own alpha.
    pub open spec fn with_color(self, c: Color) -> Pixel {
        Pixel { r: c.r, g: c.g, b: c.b, a: self.a }
    }

    /// The channel number `c` of the pixel: red, green, blue, then alpha.
    pub open spec fn channel(self, c: int) -> u8 {
        if c == 0 {
            self.r
        } else if c == 1 {
            self.g
        } else if c == 2 {
            self.b
        } else {
            self.a
        }
    }

    /// The colour of the pixel.
    pub fn rgb(&self) -> (c: Color)
        ensures
            c == self.color(),
    {
        Color { r: self.r, g: self.g, b: self.b }
    }
}

/// The number in `0..n` nearest to `i`.
pub open spec fn clamp_to(i: int, n: int) -> int {
    if i < 0 {
        0
    } else if i >= n {
        n - 1
    } else {
        i
    }
}

/// What an image is: its size and its bytes, four to a pixel, the rows one
/// after another from the top, each from left to right.
pub struct ImageModel {
    pub width: nat,
    pub height: nat,
    pub bytes: Seq<u8>,
}

impl ImageModel {
    /// There are four bytes for each pixel.
    pub open spec fn wf(self) -> bool {
        self.bytes.len() == 4 * (self.width * self.height)
    }

    /// The number of pixels.
    pub open spec fn pixel_count(self) -> nat {
        self.width * self.height
    }

    /// The pixel number `i`, counted row by row.
    pub open spec fn pixel(self, i: int) -> Pixel {
        Pixel {
            r: self.bytes[4 * i],
            g: self.bytes[4 * i + 1],
            b: self.bytes[4 * i + 2],
            a: self.bytes[4 * i + 3],
        }
    }

    /// The channel `c` of the pixel in column `x` of row `y`. Beyond an edge
    /// of the image it is that of the nearest pixel on the edge.
    pub open spec fn sample(self, x: int, y: int, c: int) -> u8 {
        let column = clamp_to(x, self.width as int);
        let row = clamp_to(y, self.height as int);
        self.bytes[4 * (row * self.width + column) + c]
    }

    /// The image with pixel number `i` replaced by `p`.
    pub open spec fn with_pixel(self, i: int, p: Pixel) -> ImageModel {
        ImageModel {
            bytes: self.bytes.update(4 * i, p.r).update(4 * i + 1, p.g).update(
                4 * i + 2,
                p.b,
            ).update(4 * i + 3, p.a),
            ..self
        }
    }
}

/// An image of `width * height` pixels.
pub struct Image {
    width: u32,
    height: u32,
    data: Vec<u8>,
}

impl View for Image {
    type V = ImageModel;

    closed spec fn view(&self) -> ImageModel {
        ImageModel { width: self.width as nat, height: self.height as nat, bytes: self.data@ }
    }
}

impl Clone for Image {
    /// A copy of the image.
    fn clone(&self) -> (copy: Image)
        ensures
            copy@ == self@,
    {
        proof {
            use_type_invariant(self);
        }
        let data = self.data.clone();
        assert(data@ =~= self.data@);
        Image { width: self.width, height: self.height, data }
    }
}

impl Image {
    #[verifier::type_invariant]
    spec fn inv(self) -> bool {
        self@.wf()
    }

    /// The image of the given size over `data`, if `data` has four bytes for
    /// each pixel and no more.
    pub fn from_raw(width: u32, height: u32, data: Vec<u8>) -> (r: Option<Image>)
        ensures
            r is Some <==> data@.len() == 4 * (width * height),
            r matches Some(image) ==> image@ == (ImageModel {
                width: width as nat,
                height: height as nat,
                bytes: data@,
            }),
    {
        assert(width * height <= 0xffff_ffff * 0xffff_ffff) by (nonlinear_arith)
            requires
                width <= 0xffff_ffff,
                height <= 0xffff_ffff,
        ;
        let needed: u128 = 4 * (width as u128 * height as u128);
        if data.len() as u128 == needed {
            Some(Image::from_bytes(width, height, data))
        } else {
            None
        }
    }

    /// The image of the given size over `data`.
    pub(crate) fn from_bytes(width: u32, height: u32, data: Vec<u8>) -> (image: Image)
        requires
            data@.len() == 4 * (width * height),
        ensures
            image@ == (ImageModel { width: width as nat, height: height as nat, bytes: data@ }),
    {
        Image { width, height, data }
    }

    /// The bytes of the image.
    pub fn into_raw(self) -> (data: Vec<u8>)
        ensures
            data@ == self@.bytes,
            self@.wf(),
    {
        proof {
            use_type_invariant(&self);
        }
        self.data
    }

    /// The bytes of the image.
    pub fn as_raw(&self) -> (data: &Vec<u8>)
        ensures
            data@ == self@.bytes,
            self@.wf(),
    {
        proof {
            use_type_invariant(self);
        }
        &self.data
    }

    /// The number of pixels in a row.
    pub fn width(&self) -> (w: u32)
        ensures
            w == self@.width,
            self@.wf(),
    {
        proof {
            use_type_invariant(self);
        }
        self.width
    }

    /// The number of rows.
    pub fn height(&self) -> (h: u32)
        ensures
            h == self@.height,
            self@.wf(),
    {
        proof {
            use_type_invariant(self);
        }
        self.height
    }

    /// The number of pixels.
    pub fn pixel_count(&self) -> (n: usize)
        ensures
            n == self@.pixel_count(),
            self@.wf(),
    {
        proof {
            use_type_invariant(self);
        }
        self.data.len() / 4
    }

    /// The pixel number `i`, counted row by row.
    pub fn pixel(&self, i: usize) -> (p: Pixel)
        requires
            i < self@.pixel_count(),
        ensures
            p == self@.pixel(i as int),
    {
        proof {
            use_type_invariant(self);
            assert(self.data.len() == self.data@.len());
        }
        Pixel {
            r: self.data[4 * i],
            g: self.data[4 * i + 1],
            b: self.data[4 * i + 2],
            a: self.data[4 * i + 3],
        }
    }

    /// Replaces the pixel number `i` by `p`.
    pub fn set_pixel(&mut self, i: usize, p: Pixel)
        requires
            i < old(self)@.pixel_count(),
        ensures
            final(self)@ == old(self)@.with_pixel(i as int, p),
    {
        proof {
            use_type_invariant(&*self);
            assert(self.data.len() == self.data@.len());
        }
        self.data[4 * i] = p.r;
        self.data[4 * i + 1] = p.g;
        self.data[4 * i + 2] = p.b;
        self.data[4 * i + 3] = p.a;
    }
}

} // verus!
