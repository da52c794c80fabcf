//! The pixel buffer.
//!
//! The renderer scans the image top-down (row `y == 0` of the scan is the
//! bottom of the picture, because the camera's view plane grows upward),
//! while the buffer stores the picture top row first. Every write therefore
//! goes through a vertical flip: the pixel at scan coordinates `(x, y)` is
//! stored at index `x + width * (height - 1 - y)`.

use vstd::prelude::*;

verus! {

/// One quantized pixel: an 8-bit RGB triple.
#[derive(Copy, Clone, Debug, PartialEq, Eq, Structural)]
pub struct Rgb {
    pub r: u8,
    pub g: u8,
    pub b: u8,
}

/// Where the pixel at scan coordinates `(x, y)` is stored: the buffer keeps
/// the picture top row first, so scan row `y` (counted from the bottom)
/// lands `height - 1 - y` rows into the buffer.
pub open spec fn flip_at(width: int, height: int, x: int, y: int) -> int {
    x + width * (height - 1 - y)
}

/// Where the pixel at scan coordinates `(x, y)` stands in the scan itself:
/// plain row-major order, bottom row first.
pub open spec fn scan_at(width: int, x: int, y: int) -> int {
    y * width + x
}

/// The buffer contents that one full scan over `colors` produces: for every
/// pixel coordinate, the color computed at scan position `(x, y)` stands at
/// the vertically flipped index.
pub open spec fn scan_filled(pixels: Seq<Rgb>, colors: Seq<Rgb>, width: int, height: int) -> bool {
    &&& pixels.len() == width * height
    &&& colors.len() == width * height
    &&& forall|x: int, y: int|
        0 <= x < width && 0 <= y < height ==> pixels[#[trigger] flip_at(width, height, x, y)]
            == colors[scan_at(width, x, y)]
}

/// `bytes` is `pixels` flattened to the stream handed to the image encoder:
/// three bytes per pixel, red then green then blue, in buffer order.
pub open spec fn flat_rgb(pixels: Seq<Rgb>, bytes: Seq<u8>) -> bool {
    &&& bytes.len() == 3 * pixels.len()
    &&& forall|i: int|
        0 <= i < pixels.len() ==> {
            &&& bytes[3 * i] == (#[trigger] pixels[i]).r
            &&& bytes[3 * i + 1] == pixels[i].g
            &&& bytes[3 * i + 2] == pixels[i].b
        }
}

/// A flat, row-major pixel buffer holding `width * height` RGB triples,
/// top row of the picture first.
pub struct PixelBuffer {
    pub width: usize,
    pub height: usize,
    pub data: Vec<Rgb>,
}

impl View for PixelBuffer {
    type V = Seq<Rgb>;

    open spec fn view(&self) -> Seq<Rgb> {
        self.data@
    }
}

impl PixelBuffer {
    /// The buffer holds exactly one triple per pixel.
    pub open spec fn wf(self) -> bool {
        self.data@.len() == self.width * self.height
    }

    /// The flipped storage index of scan coordinates `(x, y)` in this buffer.
    pub open spec fn flip_index(self, x: int, y: int) -> int {
        flip_at(self.width as int, self.height as int, x, y)
    }

    /// A fresh buffer of the given dimensions, every pixel black.
    pub fn new(width: usize, height: usize) -> (r: PixelBuffer)
        requires
            width * height <= usize::MAX,
        ensures
            r.wf(),
            r.width == width,
            r.height == height,
            r@.len() == width * height,
            forall|i: int| 0 <= i < r@.len() ==> r@[i] == (Rgb { r: 0, g: 0, b: 0 }),
    {
        let n = width * height;
        let mut data: Vec<Rgb> = Vec::new();
        let mut i: usize = 0;
        while i < n
            invariant
                i <= n,
                data@.len() == i,
                forall|j: int| 0 <= j < i ==> data@[j] == (Rgb { r: 0, g: 0, b: 0 }),
            decreases n - i,
        {
            data.push(Rgb { r: 0, g: 0, b: 0 });
            i += 1;
        }
        PixelBuffer { width, height, data }
    }

    pub fn width(&self) -> (r: usize)
        ensures
            r == self.width,
    {
        self.width
    }

    pub fn height(&self) -> (r: usize)
        ensures
            r == self.height,
    {
        self.height
    }

    /// Store the color of the pixel at scan coordinates `(x, y)`, flipping
    /// vertically into the buffer's top-row-first layout.
    pub fn set_pixel(&mut self, x: usize, y: usize, p: Rgb)
        requires
            old(self).wf(),
            x < old(self).width,
            y < old(self).height,
        ensures
            final(self).wf(),
            final(self).width == old(self).width,
            final(self).height == old(self).height,
            final(self)@ == old(self)@.update(old(self).flip_index(x as int, y as int), p),
    {
        let n = self.data.len();
        proof {
            lemma_flip_at_in_bounds(self.width as int, self.height as int, x as int, y as int);
            assert(x + self.width * (self.height - 1 - y) < n);
        }
        let idx = x + self.width * (self.height - 1 - y);
        self.data.set(idx, p);
    }

    /// Read the pixel at scan coordinates `(x, y)` back out of the flipped
    /// layout.
    pub fn get_pixel(&self, x: usize, y: usize) -> (p: Rgb)
        requires
            self.wf(),
            x < self.width,
            y < self.height,
        ensures
            p == self@[self.flip_index(x as int, y as int)],
    {
        let n = self.data.len();
        proof {
            lemma_flip_at_in_bounds(self.width as int, self.height as int, x as int, y as int);
            assert(x + self.width * (self.height - 1 - y) < n);
        }
        let idx = x + self.width * (self.height - 1 - y);
        self.data[idx]
    }

    /// Build the buffer a whole scan produces: `colors` holds one color per
    /// pixel in scan order (bottom row first), and each lands at its
    /// vertically flipped index.
    pub fn from_scan_order(colors: &Vec<Rgb>, width: usize, height: usize) -> (r: PixelBuffer)
        requires
            colors@.len() == width * height,
        ensures
            r.wf(),
            r.width == width,
            r.height == height,
            scan_filled(r@, colors@, width as int, height as int),
    {
        let total = colors.len();
        let mut pb = PixelBuffer::new(width, height);
        let mut y: usize = 0;
        while y < height
            invariant
                y <= height,
                pb.wf(),
                pb.width == width,
                pb.height == height,
                colors@.len() == width * height,
                total == width * height,
                forall|x2: int, y2: int|
                    0 <= x2 < width && 0 <= y2 < y ==> pb@[#[trigger] flip_at(
                        width as int,
                        height as int,
                        x2,
                        y2,
                    )] == colors@[scan_at(width as int, x2, y2)],
            decreases height - y,
        {
            let mut x: usize = 0;
            while x < width
                invariant
                    x <= width,
                    y < height,
                    pb.wf(),
                    pb.width == width,
                    pb.height == height,
                    colors@.len() == width * height,
                    total == width * height,
                    forall|x2: int, y2: int|
                        0 <= x2 < width && 0 <= y2 < y ==> pb@[#[trigger] flip_at(
                            width as int,
                            height as int,
                            x2,
                            y2,
                        )] == colors@[scan_at(width as int, x2, y2)],
                    forall|x2: int|
                        0 <= x2 < x ==> pb@[#[trigger] flip_at(
                            width as int,
                            height as int,
                            x2,
                            y as int,
                        )] == colors@[scan_at(width as int, x2, y as int)],
                decreases width - x,
            {
                proof {
                    lemma_scan_at_in_bounds(width as int, height as int, x as int, y as int);
                    assert(y * width + x < total);
                }
                let ci = y * width + x;
                let ghost prev = pb@;
                pb.set_pixel(x, y, colors[ci]);
                proof {
                    lemma_flip_at_in_bounds(width as int, height as int, x as int, y as int);
                    assert forall|x2: int, y2: int|
                        0 <= x2 < width && 0 <= y2 < y implies pb@[#[trigger] flip_at(
                        width as int,
                        height as int,
                        x2,
                        y2,
                    )] == colors@[scan_at(width as int, x2, y2)] by {
                        lemma_flip_at_in_bounds(width as int, height as int, x2, y2);
                        if flip_at(width as int, height as int, x2, y2) == flip_at(
                            width as int,
                            height as int,
                            x as int,
                            y as int,
                        ) {
                            lemma_flip_at_injective(
                                width as int,
                                height as int,
                                x2,
                                y2,
                                x as int,
                                y as int,
                            );
                        }
                    }
                    assert forall|x2: int| 0 <= x2 < x + 1 implies pb@[#[trigger] flip_at(
                        width as int,
                        height as int,
                        x2,
                        y as int,
                    )] == colors@[scan_at(width as int, x2, y as int)] by {
                        lemma_flip_at_in_bounds(width as int, height as int, x2, y as int);
                        if x2 < x && flip_at(width as int, height as int, x2, y as int) == flip_at(
                            width as int,
                            height as int,
                            x as int,
                            y as int,
                        ) {
                            lemma_flip_at_injective(
                                width as int,
                                height as int,
                                x2,
                                y as int,
                                x as int,
                                y as int,
                            );
                        }
                    }
                }
                x += 1;
            }
            y += 1;
        }
        pb
    }

    /// Flatten the buffer to the byte stream handed to the image encoder:
    /// three bytes per pixel, red then green then blue, in buffer order.
    pub fn bytes(&self) -> (r: Vec<u8>)
        ensures
            flat_rgb(self@, r@),
    {
        let mut out: Vec<u8> = Vec::new();
        let mut i: usize = 0;
        while i < self.data.len()
            invariant
                i <= self.data@.len(),
                out@.len() == 3 * i,
                forall|j: int|
                    0 <= j < i ==> {
                        &&& out@[3 * j] == (#[trigger] self.data@[j]).r
                        &&& out@[3 * j + 1] == self.data@[j].g
                        &&& out@[3 * j + 2] == self.data@[j].b
                    },
            decreases self.data@.len() - i,
        {
            let p = self.data[i];
            out.push(p.r);
            out.push(p.g);
            out.push(p.b);
            i += 1;
        }
        out
    }
}

/// The flipped index of an in-range pixel lies within the buffer.
pub proof fn lemma_flip_at_in_bounds(width: int, height: int, x: int, y: int)
    requires
        0 <= x < width,
        0 <= y < height,
    ensures
        0 <= flip_at(width, height, x, y) < width * height,
{
    assert(0 <= x + width * (height - 1 - y) < width * height) by (nonlinear_arith)
        requires
            0 <= x < width,
            0 <= y < height,
    ;
}

/// The scan-order index of an in-range pixel lies within the scan.
pub proof fn lemma_scan_at_in_bounds(width: int, height: int, x: int, y: int)
    requires
        0 <= x < width,
        0 <= y < height,
    ensures
        0 <= scan_at(width, x, y) < width * height,
{
    assert(0 <= y * width + x < width * height) by (nonlinear_arith)
        requires
            0 <= x < width,
            0 <= y < height,
    ;
}

/// Distinct pixels are stored at distinct indices: the vertical flip never
/// makes two writes collide.
pub proof fn lemma_flip_at_injective(width: int, height: int, x1: int, y1: int, x2: int, y2: int)
    requires
        0 <= x1 < width,
        0 <= y1 < height,
        0 <= x2 < width,
        0 <= y2 < height,
        flip_at(width, height, x1, y1) == flip_at(width, height, x2, y2),
    ensures
        x1 == x2,
        y1 == y2,
{
    assert(x1 == x2 && y1 == y2) by (nonlinear_arith)
        requires
            0 <= x1 < width,
            0 <= y1 < height,
            0 <= x2 < width,
            0 <= y2 < height,
            x1 + width * (height - 1 - y1) == x2 + width * (height - 1 - y2),
    ;
}

/// One scan pins the whole buffer: any two buffers filled from the same
/// scan colors are equal, pixel for pixel.
pub proof fn lemma_scan_fill_unique(
    p1: Seq<Rgb>,
    p2: Seq<Rgb>,
    colors: Seq<Rgb>,
    width: int,
    height: int,
)
    requires
        width >= 0,
        height >= 0,
        scan_filled(p1, colors, width, height),
        scan_filled(p2, colors, width, height),
    ensures
        p1 == p2,
{
    if width > 0 && height > 0 {
        assert forall|i: int| 0 <= i < p1.len() implies p1[i] == p2[i] by {
            vstd::arithmetic::div_mod::lemma_fundamental_div_mod(i, width);
            vstd::arithmetic::div_mod::lemma_mod_division_less_than_divisor(i, width);
            let x = i % width;
            let row = i / width;
            assert(0 <= row && row < height) by (nonlinear_arith)
                requires
                    i == width * row + x,
                    0 <= x < width,
                    0 <= i < width * height,
            ;
            let y = height - 1 - row;
            assert(flip_at(width, height, x, y) == i);
            assert(p1[flip_at(width, height, x, y)] == colors[scan_at(width, x, y)]);
            assert(p2[flip_at(width, height, x, y)] == colors[scan_at(width, x, y)]);
        }
    } else {
        assert(width * height <= 0) by (nonlinear_arith)
            requires
                width >= 0,
                height >= 0,
                width <= 0 || height <= 0,
        ;
    }
    assert(p1 =~= p2);
}

/// Flattening pins every byte: any two byte streams flattened from the same
/// pixels are identical.
pub proof fn lemma_flat_rgb_unique(pixels: Seq<Rgb>, b1: Seq<u8>, b2: Seq<u8>)
    requires
        flat_rgb(pixels, b1),
        flat_rgb(pixels, b2),
    ensures
        b1 == b2,
{
    assert forall|k: int| 0 <= k < b1.len() implies b1[k] == b2[k] by {
        vstd::arithmetic::div_mod::lemma_fundamental_div_mod(k, 3);
        vstd::arithmetic::div_mod::lemma_mod_division_less_than_divisor(k, 3);
        let i = k / 3;
        let m = k % 3;
        assert(0 <= i && i < pixels.len()) by (nonlinear_arith)
            requires
                k == 3 * i + m,
                0 <= m < 3,
                0 <= k < 3 * pixels.len(),
        ;
        assert(b1[3 * i] == pixels[i].r && b1[3 * i + 1] == pixels[i].g && b1[3 * i + 2]
            == pixels[i].b);
        assert(b2[3 * i] == pixels[i].r && b2[3 * i + 1] == pixels[i].g && b2[3 * i + 2]
            == pixels[i].b);
    }
    assert(b1 =~= b2);
}

/// Filling a buffer from one scan's colors and flattening it is
/// deterministic: the same colors give a byte-identical stream, whichever
/// run produced it.
pub proof fn lemma_scan_output_unique(
    p1: Seq<Rgb>,
    p2: Seq<Rgb>,
    b1: Seq<u8>,
    b2: Seq<u8>,
    colors: Seq<Rgb>,
    width: int,
    height: int,
)
    requires
        width >= 0,
        height >= 0,
        scan_filled(p1, colors, width, height),
        scan_filled(p2, colors, width, height),
        flat_rgb(p1, b1),
        flat_rgb(p2, b2),
    ensures
        b1 == b2,
{
    lemma_scan_fill_unique(p1, p2, colors, width, height);
    lemma_flat_rgb_unique(p1, b1, b2);
}

} // verus!
