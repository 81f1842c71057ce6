//! Points, pixels and flat pixel buffers.

use vstd::arithmetic::div_mod::lemma_fundamental_div_mod_converse;
use vstd::prelude::*;

verus! {

/// A pair of coordinates.
#[derive(Debug, Copy, Clone, PartialEq)]
pub struct Point<T> {
    pub x: T,
    pub y: T,
}

impl<T> Point<T> {
    pub fn new(x: T, y: T) -> (p: Self)
        ensures
            p.x == x,
            p.y == y,
    {
        Point { x: x, y: y }
    }
}

/// A pixel position, or the width and height of an image in pixels.
pub type IPoint = Point<usize>;

impl Point<usize> {
    /// The origin.
    pub fn default() -> (p: Self)
        ensures
            p.x == 0,
            p.y == 0,
    {
        Point { x: 0, y: 0 }
    }
}

/// A pixel: red, green, blue and alpha, one byte each. Alpha 0 marks a pixel
/// that has not been computed yet.
#[derive(Clone, Debug, Copy, PartialEq, Eq)]
pub struct RGB {
    pub r: u8,
    pub g: u8,
    pub b: u8,
    pub a: u8,
}

/// The bytes of a pixel sequence, four per pixel in the order red, green,
/// blue, alpha.
pub open spec fn image_bytes(pixels: Seq<RGB>) -> Seq<u8> {
    Seq::new(
        pixels.len() * 4,
        |i: int|
            if i % 4 == 0 {
                pixels[i / 4].r
            } else if i % 4 == 1 {
                pixels[i / 4].g
            } else if i % 4 == 2 {
                pixels[i / 4].b
            } else {
                pixels[i / 4].a
            },
    )
}

/// No pixel of the sequence is transparent.
pub open spec fn all_opaque(pixels: Seq<RGB>) -> bool {
    forall|k: int| 0 <= k < pixels.len() ==> (#[trigger] pixels[k]).a != 0
}

/// An image of `length` transparent pixels.
pub fn transparent_image(length: usize) -> (image: Vec<RGB>)
    ensures
        image@ == Seq::new(length as nat, |i: int| RGB::transparent()),
{
    let mut image: Vec<RGB> = Vec::new();
    let mut i: usize = 0;
    while i < length
        invariant
            i <= length,
            image@ == Seq::new(i as nat, |j: int| RGB::transparent()),
        decreases length - i,
    {
        image.push(RGB::transparent());
        i += 1;
    }
    image
}

/// `value`, brought into the range of the indices of a sequence of `length`
/// elements.
pub open spec fn clamp_index(value: int, length: int) -> int {
    if value < 0 {
        0
    } else if value >= length {
        length - 1
    } else {
        value
    }
}

/// Whether an image of the dimensions `from`, scaled so that its width
/// becomes that of `to`, is at least as high as `to`.
pub open spec fn covers_by_width(from: IPoint, to: IPoint) -> bool {
    from.y * to.x >= to.y * from.x
}

/// The column of the source from which column `x` of the destination is
/// taken. The source is scaled about its centre by the smaller of the two
/// factors that make it cover the destination in one axis.
pub open spec fn source_column(from: IPoint, to: IPoint, x: int) -> int {
    if covers_by_width(from, to) {
        clamp_index((x * from.x) / (to.x as int), from.x as int)
    } else {
        clamp_index(((2 * x - to.x) * from.y + from.x * to.y) / (2 * to.y), from.x as int)
    }
}

/// The row of the source from which row `y` of the destination is taken.
pub open spec fn source_row(from: IPoint, to: IPoint, y: int) -> int {
    if covers_by_width(from, to) {
        clamp_index(((2 * y - to.y) * from.x + from.y * to.x) / (2 * to.x), from.y as int)
    } else {
        clamp_index((y * from.y) / (to.y as int), from.y as int)
    }
}

/// The image `src` of the dimensions `from`, resampled to the dimensions
/// `to`: each pixel is that of the source nearest to it. An empty source
/// gives a transparent image.
pub open spec fn resampled(src: Seq<RGB>, from: IPoint, to: IPoint) -> Seq<RGB> {
    Seq::new(
        (to.x * to.y) as nat,
        |i: int|
            if from.x == 0 || from.y == 0 {
                RGB::transparent()
            } else {
                src[source_column(from, to, i % (to.x as int)) + from.x * source_row(
                    from,
                    to,
                    i / (to.x as int),
                )]
            },
    )
}

/// The flat index in the source of the pixel from which the pixel at `x`,
/// `y` of the destination is taken.
fn source_index(from: &IPoint, to: &IPoint, x: usize, y: usize) -> (index: usize)
    requires
        0 < from.x <= u32::MAX,
        0 < from.y <= u32::MAX,
        to.x <= u32::MAX,
        to.y <= u32::MAX,
        from.x * from.y <= usize::MAX,
        x < to.x,
        y < to.y,
    ensures
        index == source_column(*from, *to, x as int) + from.x * source_row(*from, *to, y as int),
        index < from.x * from.y,
{
    let sw: u128 = from.x as u128;
    let sh: u128 = from.y as u128;
    let dw: u128 = to.x as u128;
    let dh: u128 = to.y as u128;
    let xx: u128 = x as u128;
    let yy: u128 = y as u128;
    proof {
        assert(sh * dw <= 0xffff_ffff * 0xffff_ffff && dh * sw <= 0xffff_ffff * 0xffff_ffff && xx
            * sw <= 0xffff_ffff * 0xffff_ffff && yy * sh <= 0xffff_ffff * 0xffff_ffff && yy * sw
            <= 0xffff_ffff * 0xffff_ffff && xx * sh <= 0xffff_ffff * 0xffff_ffff)
            by (nonlinear_arith)
            requires
                sw <= 0xffff_ffff,
                sh <= 0xffff_ffff,
                dw <= 0xffff_ffff,
                dh <= 0xffff_ffff,
                xx <= 0xffff_ffff,
                yy <= 0xffff_ffff,
        ;
    }
    let by_width: bool = sh * dw >= dh * sw;
    let column: u128;
    let row: u128;
    if by_width {
        column = (xx * sw) / dw;
        assert((2 * y - to.y) * from.x + from.y * to.x == 2 * (yy * sw) + sh * dw - dh * sw)
            by (nonlinear_arith)
            requires
                yy == y,
                sw == from.x,
                sh == from.y,
                dw == to.x,
                dh == to.y,
        ;
        row = (2 * (yy * sw) + sh * dw - dh * sw) / (2 * dw);
    } else {
        assert((2 * x - to.x) * from.y + from.x * to.y == 2 * (xx * sh) + sw * dh - dw * sh)
            by (nonlinear_arith)
            requires
                xx == x,
                sw == from.x,
                sh == from.y,
                dw == to.x,
                dh == to.y,
        ;
        column = (2 * (xx * sh) + sw * dh - dw * sh) / (2 * dh);
        row = (yy * sh) / dh;
    }
    let xs: u128 = if column >= sw {
        sw - 1
    } else {
        column
    };
    let ys: u128 = if row >= sh {
        sh - 1
    } else {
        row
    };
    assert(xs + sw * ys < sw * sh) by (nonlinear_arith)
        requires
            xs < sw,
            ys < sh,
    ;
    assert(sw * sh == from.x * from.y) by (nonlinear_arith)
        requires
            sw == from.x,
            sh == from.y,
    ;
    (xs + sw * ys) as usize
}

/// Draws a byte at random: `rand::Rng::gen` on the generator that
/// `rand::thread_rng` gives. Nothing is claimed of the byte. The generator
/// of a thread takes its seed from the system's random source, at its first
/// use and again whenever it reseeds itself; either call panics where that
/// source fails.
#[verifier::external_body]
fn random_byte() -> (byte: u8) {
    rand::Rng::gen(&mut rand::thread_rng())
}

impl RGB {
    pub open spec fn spec_black() -> RGB {
        RGB { r: 0, g: 0, b: 0, a: 255 }
    }

    pub open spec fn spec_transparent() -> RGB {
        RGB { r: 0, g: 0, b: 0, a: 0 }
    }

    /// Opaque black.
    #[verifier::when_used_as_spec(spec_black)]
    pub fn black() -> (c: RGB)
        ensures
            c == Self::spec_black(),
    {
        RGB { r: 0, g: 0, b: 0, a: 255 }
    }

    /// The pixel that stands for "not computed yet".
    #[verifier::when_used_as_spec(spec_transparent)]
    pub fn transparent() -> (c: RGB)
        ensures
            c == Self::spec_transparent(),
    {
        RGB { r: 0, g: 0, b: 0, a: 0 }
    }

    /// The opaque pixel of the given red, green and blue.
    pub fn opaque(r: u8, g: u8, b: u8) -> (c: RGB)
        ensures
            c == (RGB { r: r, g: g, b: b, a: 255 }),
    {
        RGB { r: r, g: g, b: b, a: 255 }
    }

    /// An opaque pixel of a colour drawn at random. The call panics where
    /// the system's random source fails.
    pub fn rand() -> (c: RGB)
        ensures
            c.a == 255,
    {
        let r: u8 = random_byte();
        let g: u8 = random_byte();
        let b: u8 = random_byte();
        RGB::opaque(r, g, b)
    }

    /// Resamples the image `src` of the dimensions `src_size` into `dst`, at
    /// the dimensions `dst_size`, replacing what `dst` held. No pixel
    /// outside `src` is read.
    pub fn resize_image(src: &[RGB], src_size: &IPoint, dst: &mut Vec<RGB>, dst_size: &IPoint)
        requires
            src@.len() == src_size.x * src_size.y,
            src_size.x <= u32::MAX,
            src_size.y <= u32::MAX,
            dst_size.x <= u32::MAX,
            dst_size.y <= u32::MAX,
            dst_size.x * dst_size.y <= usize::MAX,
        ensures
            final(dst)@ == resampled(src@, *src_size, *dst_size),
    {
        dst.clear();
        let width: usize = dst_size.x;
        let height: usize = dst_size.y;
        let blank: bool = src.len() == 0;
        assert(blank == (src_size.x == 0 || src_size.y == 0)) by (nonlinear_arith)
            requires
                blank == (src_size.x * src_size.y == 0),
        ;
        let ghost goal = resampled(src@, *src_size, *dst_size);
        let mut y: usize = 0;
        while y < height
            invariant
                src@.len() == src_size.x * src_size.y,
                src_size.x * src_size.y <= usize::MAX,
                src_size.x <= u32::MAX,
                src_size.y <= u32::MAX,
                width == dst_size.x,
                height == dst_size.y,
                width <= u32::MAX,
                height <= u32::MAX,
                width * height <= usize::MAX,
                blank == (src_size.x == 0 || src_size.y == 0),
                goal == resampled(src@, *src_size, *dst_size),
                y <= height,
                dst@.len() == y * width,
                forall|i: int| 0 <= i < y * width ==> dst@[i] == #[trigger] goal[i],
            decreases height - y,
        {
            let mut x: usize = 0;
            while x < width
                invariant
                    src@.len() == src_size.x * src_size.y,
                    src_size.x * src_size.y <= usize::MAX,
                    src_size.x <= u32::MAX,
                    src_size.y <= u32::MAX,
                    width == dst_size.x,
                    height == dst_size.y,
                    width <= u32::MAX,
                    height <= u32::MAX,
                    width * height <= usize::MAX,
                    blank == (src_size.x == 0 || src_size.y == 0),
                    goal == resampled(src@, *src_size, *dst_size),
                    y < height,
                    x <= width,
                    dst@.len() == y * width + x,
                    forall|i: int| 0 <= i < y * width + x ==> dst@[i] == #[trigger] goal[i],
                decreases width - x,
            {
                proof {
                    lemma_fundamental_div_mod_converse(
                        y * width + x,
                        width as int,
                        y as int,
                        x as int,
                    );
                    assert(y * width + x < width * height) by (nonlinear_arith)
                        requires
                            x < width,
                            y < height,
                    ;
                }
                let pixel: RGB = if blank {
                    RGB::transparent()
                } else {
                    src[source_index(src_size, dst_size, x, y)]
                };
                dst.push(pixel);
                x += 1;
            }
            y += 1;
            assert(y * width == (y - 1) * width + width) by (nonlinear_arith);
        }
        assert(height * width == width * height) by (nonlinear_arith);
    }

    /// Writes `src` into `dst` as interleaved bytes, replacing what `dst` held.
    pub fn create_image_data(src: &[RGB], dst: &mut Vec<u8>)
        requires
            src@.len() * 4 <= usize::MAX,
        ensures
            final(dst)@ == image_bytes(src@),
    {
        let n: usize = src.len();
        dst.clear();
        let mut k: usize = 0;
        while k < n
            invariant
                n == src@.len(),
                n * 4 <= usize::MAX,
                k <= n,
                dst@.len() == k * 4,
                forall|i: int| 0 <= i < k * 4 ==> dst@[i] == #[trigger] image_bytes(src@)[i],
            decreases n - k,
        {
            let rgb: RGB = src[k];
            dst.push(rgb.r);
            dst.push(rgb.g);
            dst.push(rgb.b);
            dst.push(rgb.a);
            k += 1;
        }
    }
}

} // verus!
