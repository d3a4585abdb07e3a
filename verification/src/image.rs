//! The frame that a render fills: a grid of 8-bit pixels with four bytes
//! each (red, green, blue, alpha), row after row from the top.

use crate::tile::{lemma_tiling_partition, lemma_tiling_within, tiling, Tile};
use vstd::prelude::*;

verus! {

/// What a frame holds: its size, the number of samples that each pixel is
/// to average, and its bytes.
pub struct FrameModel {
    pub width: nat,
    pub height: nat,
    pub samples: nat,
    pub data: Seq<u8>,
}

/// The position in the bytes of the pixel in column `x` of row `y`.
pub open spec fn pixel_offset(width: nat, x: nat, y: nat) -> nat {
    4 * (y * width + x)
}

/// The bytes of a frame in which every pixel is black and opaque.
pub open spec fn blank(width: nat, height: nat) -> Seq<u8> {
    Seq::new(
        4 * width * height,
        |k: int|
            if k % 4 == 3 {
                255u8
            } else {
                0u8
            },
    )
}

/// `data` with the pixel at `at` set to the colour `rgb`, opaque.
pub open spec fn with_pixel(data: Seq<u8>, at: int, rgb: (u8, u8, u8)) -> Seq<u8> {
    data.update(at, rgb.0).update(at + 1, rgb.1).update(at + 2, rgb.2).update(at + 3, 255u8)
}

/// A pixel inside the grid lies inside the bytes.
pub proof fn lemma_pixel_offset_in_range(width: nat, height: nat, x: nat, y: nat)
    requires
        x < width,
        y < height,
    ensures
        pixel_offset(width, x, y) + 4 <= 4 * width * height,
{
    assert(y * width + x + 1 <= height * width) by (nonlinear_arith)
        requires
            y + 1 <= height,
            x + 1 <= width,
    ;
    assert(4 * width * height == 4 * (height * width)) by (nonlinear_arith);
}

/// Two different pixels of a grid have bytes that do not overlap.
pub proof fn lemma_pixel_offsets_apart(width: nat, x1: nat, y1: nat, x2: nat, y2: nat)
    requires
        x1 < width,
        x2 < width,
        (x1, y1) != (x2, y2),
    ensures
        pixel_offset(width, x1, y1) + 4 <= pixel_offset(width, x2, y2) || pixel_offset(
            width,
            x2,
            y2,
        ) + 4 <= pixel_offset(width, x1, y1),
{
    if y1 < y2 {
        assert(y1 * width + width <= y2 * width) by (nonlinear_arith)
            requires
                y1 + 1 <= y2,
        ;
    } else if y2 < y1 {
        assert(y2 * width + width <= y1 * width) by (nonlinear_arith)
            requires
                y2 + 1 <= y1,
        ;
    }
}

/// Writing two different pixels gives the same frame in either order: what
/// a frame holds in the end does not depend on the order in which its
/// pixels were finished.
pub proof fn lemma_writes_commute(
    data: Seq<u8>,
    width: nat,
    height: nat,
    x1: nat,
    y1: nat,
    c1: (u8, u8, u8),
    x2: nat,
    y2: nat,
    c2: (u8, u8, u8),
)
    requires
        data.len() == 4 * width * height,
        x1 < width,
        y1 < height,
        x2 < width,
        y2 < height,
        (x1, y1) != (x2, y2),
    ensures
        with_pixel(
            with_pixel(data, pixel_offset(width, x1, y1) as int, c1),
            pixel_offset(width, x2, y2) as int,
            c2,
        ) == with_pixel(
            with_pixel(data, pixel_offset(width, x2, y2) as int, c2),
            pixel_offset(width, x1, y1) as int,
            c1,
        ),
{
    lemma_pixel_offset_in_range(width, height, x1, y1);
    lemma_pixel_offset_in_range(width, height, x2, y2);
    lemma_pixel_offsets_apart(width, x1, y1, x2, y2);
    let a = pixel_offset(width, x1, y1) as int;
    let b = pixel_offset(width, x2, y2) as int;
    assert(with_pixel(with_pixel(data, a, c1), b, c2) =~= with_pixel(with_pixel(data, b, c2), a, c1));
}

/// The column and the row in the frame of the `k`-th pixel of `tile`, in
/// a picture of `height` rows. The pixels of the tile count along its rows
/// from its first row, and its rows count from the bottom of the picture,
/// while the rows of the frame count from the top.
pub open spec fn frame_pixel(height: nat, tile: Tile, k: int) -> (int, int) {
    (tile.x + k % (tile.width as int), height - 1 - (tile.y + k / (tile.width as int)))
}

/// The bytes of a frame after the first `k` pixels of `tile` have been
/// written with their colours.
pub open spec fn flushed(
    data: Seq<u8>,
    width: nat,
    height: nat,
    tile: Tile,
    colors: Seq<(u8, u8, u8)>,
    k: nat,
) -> Seq<u8>
    decreases k,
{
    if k == 0 {
        data
    } else {
        let p = frame_pixel(height, tile, k - 1);
        with_pixel(
            flushed(data, width, height, tile, colors, (k - 1) as nat),
            pixel_offset(width, p.0 as nat, p.1 as nat) as int,
            colors[k - 1],
        )
    }
}

/// The pixels of a tile inside a picture are pixels of the frame, and no
/// two of them are the same.
pub proof fn lemma_frame_pixel(width: nat, height: nat, tile: Tile, j: int, k: int)
    requires
        tile.within(width, height),
        0 <= j < tile.area(),
        0 <= k < tile.area(),
    ensures
        0 <= frame_pixel(height, tile, k).0 < width,
        0 <= frame_pixel(height, tile, k).1 < height,
        tile.contains(frame_pixel(height, tile, k).0, height - 1 - frame_pixel(height, tile, k).1),
        frame_pixel(height, tile, j) == frame_pixel(height, tile, k) ==> j == k,
{
    let w = tile.width as int;
    let h = tile.height as int;
    assert(w > 0) by (nonlinear_arith)
        requires
            0 <= k < w * h,
            w >= 0,
    ;
    assert(0 <= k % w < w && 0 <= k / w < h && k == w * (k / w) + k % w) by (nonlinear_arith)
        requires
            0 <= k < w * h,
            w > 0,
    ;
    assert(0 <= j % w < w && 0 <= j / w < h && j == w * (j / w) + j % w) by (nonlinear_arith)
        requires
            0 <= j < w * h,
            w > 0,
    ;
}

/// What a frame holds after the first `k` pixels of a tile have been
/// written: each of those pixels has its colour and is opaque, and every
/// other pixel of the frame is as it was.
pub proof fn lemma_flushed(
    data: Seq<u8>,
    width: nat,
    height: nat,
    tile: Tile,
    colors: Seq<(u8, u8, u8)>,
    k: nat,
    x: nat,
    row: nat,
)
    requires
        data.len() == 4 * width * height,
        tile.within(width, height),
        k <= tile.area(),
        x < width,
        row < height,
    ensures
        flushed(data, width, height, tile, colors, k).len() == data.len(),
        ({
            let after = flushed(data, width, height, tile, colors, k);
            let at = pixel_offset(width, x, row) as int;
            &&& at + 4 <= data.len()
            &&& forall|j: int|
                0 <= j < k && #[trigger] frame_pixel(height, tile, j) == (x as int, row as int)
                    ==> after[at] == colors[j].0 && after[at + 1] == colors[j].1 && after[at + 2]
                    == colors[j].2 && after[at + 3] == 255
            &&& (forall|j: int|
                0 <= j < k ==> #[trigger] frame_pixel(height, tile, j) != (x as int, row as int))
                ==> after[at] == data[at] && after[at + 1] == data[at + 1] && after[at + 2]
                == data[at + 2] && after[at + 3] == data[at + 3]
        }),
    decreases k,
{
    lemma_pixel_offset_in_range(width, height, x, row);
    if k > 0 {
        let last = k - 1;
        lemma_flushed(data, width, height, tile, colors, last as nat, x, row);
        lemma_frame_pixel(width, height, tile, last, last);
        let p = frame_pixel(height, tile, last);
        lemma_pixel_offset_in_range(width, height, p.0 as nat, p.1 as nat);
        let at = pixel_offset(width, x, row) as int;
        let there = pixel_offset(width, p.0 as nat, p.1 as nat) as int;
        let earlier = flushed(data, width, height, tile, colors, last as nat);
        let after = flushed(data, width, height, tile, colors, k);
        assert(after == with_pixel(earlier, there, colors[last]));
        if p == (x as int, row as int) {
            assert forall|j: int|
                0 <= j < k && #[trigger] frame_pixel(height, tile, j) == (
                    x as int,
                    row as int,
                ) implies j == last by {
                lemma_frame_pixel(width, height, tile, j, last);
            }
        } else {
            lemma_pixel_offsets_apart(width, x, row, p.0 as nat, p.1 as nat);
        }
    }
}

/// Whether two tiles of a picture of `height` rows have no pixel in common.
pub open spec fn apart(height: nat, a: Tile, b: Tile) -> bool {
    forall|j: int, k: int|
        0 <= j < a.area() && 0 <= k < b.area() ==> #[trigger] frame_pixel(height, a, j)
            != #[trigger] frame_pixel(height, b, k)
}

/// Two different tiles of the tiles into which a picture is cut have no
/// pixel in common.
pub proof fn lemma_tiles_apart(width: nat, height: nat, size: nat, k: int, l: int)
    requires
        size > 0,
        width <= usize::MAX,
        height <= usize::MAX,
        0 <= k < tiling(width, height, size).len(),
        0 <= l < tiling(width, height, size).len(),
        k != l,
    ensures
        apart(height, tiling(width, height, size)[k], tiling(width, height, size)[l]),
{
    let a = tiling(width, height, size)[k];
    let b = tiling(width, height, size)[l];
    lemma_tiling_within(width, height, size, k);
    lemma_tiling_within(width, height, size, l);
    assert forall|j: int, m: int| 0 <= j < a.area() && 0 <= m < b.area() implies #[trigger] frame_pixel(
        height,
        a,
        j,
    ) != #[trigger] frame_pixel(height, b, m) by {
        lemma_frame_pixel(width, height, a, j, j);
        lemma_frame_pixel(width, height, b, m, m);
        let p = frame_pixel(height, a, j);
        if p == frame_pixel(height, b, m) {
            lemma_tiling_partition(width, height, size, p.0 as nat, (height - 1 - p.1) as nat);
        }
    }
}

/// Writing two tiles without a pixel in common gives the same frame in
/// either order: what a frame holds in the end does not depend on the order
/// in which its tiles were finished.
pub proof fn lemma_flushes_commute(
    data: Seq<u8>,
    width: nat,
    height: nat,
    a: Tile,
    ca: Seq<(u8, u8, u8)>,
    b: Tile,
    cb: Seq<(u8, u8, u8)>,
)
    requires
        data.len() == 4 * width * height,
        a.within(width, height),
        b.within(width, height),
        apart(height, a, b),
    ensures
        flushed(flushed(data, width, height, a, ca, a.area()), width, height, b, cb, b.area())
            == flushed(
            flushed(data, width, height, b, cb, b.area()),
            width,
            height,
            a,
            ca,
            a.area(),
        ),
{
    let first_a = flushed(data, width, height, a, ca, a.area());
    let first_b = flushed(data, width, height, b, cb, b.area());
    let ab = flushed(first_a, width, height, b, cb, b.area());
    let ba = flushed(first_b, width, height, a, ca, a.area());
    if width > 0 && height > 0 {
        lemma_flushed(data, width, height, a, ca, a.area(), 0, 0);
        lemma_flushed(data, width, height, b, cb, b.area(), 0, 0);
        lemma_flushed(first_a, width, height, b, cb, b.area(), 0, 0);
        lemma_flushed(first_b, width, height, a, ca, a.area(), 0, 0);
        assert forall|i: int| 0 <= i < data.len() implies ab[i] == ba[i] by {
            let q = i / 4;
            let c = i % 4;
            let x = (q % width as int) as nat;
            let row = (q / width as int) as nat;
            assert(0 <= x < width && 0 <= row < height && q == row * width + x) by (nonlinear_arith)
                requires
                    0 <= i < 4 * width * height,
                    q == i / 4,
                    x == q % width as int,
                    row == q / width as int,
                    width > 0,
            ;
            assert(i == pixel_offset(width, x, row) + c && 0 <= c < 4);
            lemma_flushed(data, width, height, a, ca, a.area(), x, row);
            lemma_flushed(data, width, height, b, cb, b.area(), x, row);
            lemma_flushed(first_a, width, height, b, cb, b.area(), x, row);
            lemma_flushed(first_b, width, height, a, ca, a.area(), x, row);
            let here = (x as int, row as int);
            if exists|j: int| 0 <= j < a.area() && #[trigger] frame_pixel(height, a, j) == here {
                let j = choose|j: int|
                    0 <= j < a.area() && #[trigger] frame_pixel(height, a, j) == here;
                assert forall|k: int| 0 <= k < b.area() implies #[trigger] frame_pixel(
                    height,
                    b,
                    k,
                ) != here by {
                    assert(frame_pixel(height, a, j) != frame_pixel(height, b, k));
                }
            }
        }
        assert(ab =~= ba);
    } else {
        assert(width * height == 0) by (nonlinear_arith)
            requires
                width == 0 || height == 0,
        ;
        assert(a.area() == 0 && b.area() == 0) by (nonlinear_arith)
            requires
                a.width <= width,
                a.height <= height,
                b.width <= width,
                b.height <= height,
                width == 0 || height == 0,
                a.area() == a.width * a.height,
                b.area() == b.width * b.height,
        ;
    }
}

/// A frame of 8-bit pixels.
pub struct Image {
    width: usize,
    height: usize,
    samples: u32,
    data: Vec<u8>,
}

impl View for Image {
    type V = FrameModel;

    closed spec fn view(&self) -> FrameModel {
        FrameModel {
            width: self.width as nat,
            height: self.height as nat,
            samples: self.samples as nat,
            data: self.data@,
        }
    }
}

impl Image {
    /// Whether the frame holds four bytes for each of its pixels. Every
    /// frame that [`Image::new`] makes does, and no method changes that.
    pub open spec fn wf(&self) -> bool {
        self@.data.len() == 4 * self@.width * self@.height
    }

    /// A frame of `width` by `height` pixels, all black and opaque, for a
    /// render that averages `samples` samples in each pixel.
    pub fn new(width: usize, height: usize, samples: u32) -> (r: Image)
        requires
            4 * width * height <= usize::MAX,
        ensures
            r.wf(),
            r@ == (FrameModel {
                width: width as nat,
                height: height as nat,
                samples: samples as nat,
                data: blank(width as nat, height as nat),
            }),
    {
        assert(width * height * 4 == 4 * width * height) by (nonlinear_arith);
        assert(width * height <= 4 * width * height) by (nonlinear_arith);
        let pixels: usize = width * height;
        let mut data: Vec<u8> = Vec::new();
        let mut k: usize = 0;
        while k < pixels
            invariant
                k <= pixels,
                pixels * 4 <= usize::MAX,
                data@.len() == 4 * k,
                forall|i: int|
                    0 <= i < data@.len() ==> #[trigger] data@[i] == if i % 4 == 3 {
                        255u8
                    } else {
                        0u8
                    },
            decreases pixels - k,
        {
            data.push(0);
            data.push(0);
            data.push(0);
            data.push(255);
            k += 1;
        }
        assert(data@ == blank(width as nat, height as nat));
        Image { width, height, samples, data }
    }

    /// The number of columns.
    pub fn width(&self) -> (w: usize)
        ensures
            w == self@.width,
    {
        self.width
    }

    /// The number of rows.
    pub fn height(&self) -> (h: usize)
        ensures
            h == self@.height,
    {
        self.height
    }

    /// The number of samples that each pixel averages.
    pub fn samples(&self) -> (s: u32)
        ensures
            s == self@.samples,
    {
        self.samples
    }

    /// The bytes of the frame: four for each pixel, row after row from the
    /// top.
    pub fn as_bytes(&self) -> (bytes: &[u8])
        requires
            self.wf(),
        ensures
            bytes@ == self@.data,
            bytes@.len() == 4 * self@.width * self@.height,
    {
        self.data.as_slice()
    }

    /// The row of the frame that shows the row `y` of the picture, where
    /// the rows of the picture count from the bottom and those of the frame
    /// from the top.
    pub fn row_from_bottom(&self, y: usize) -> (row: usize)
        requires
            y < self@.height,
        ensures
            row == self@.height - 1 - y,
    {
        self.height - 1 - y
    }

    /// The red, green, blue and alpha bytes of the pixel in column `x` of
    /// row `y`.
    pub fn pixel(&self, x: usize, y: usize) -> (p: (u8, u8, u8, u8))
        requires
            self.wf(),
            x < self@.width,
            y < self@.height,
        ensures
            ({
                let at = pixel_offset(self@.width, x as nat, y as nat) as int;
                &&& at + 4 <= self@.data.len()
                &&& p == (self@.data[at], self@.data[at + 1], self@.data[at + 2], self@.data[at + 3])
            }),
    {
        let at = self.offset(x, y);
        (self.data[at], self.data[at + 1], self.data[at + 2], self.data[at + 3])
    }

    /// Sets the pixel in column `x` of row `y` to the colour `rgb`, opaque.
    /// Every other pixel stays as it is.
    pub fn append_color(&mut self, rgb: (u8, u8, u8), x: usize, y: usize)
        requires
            old(self).wf(),
            x < old(self)@.width,
            y < old(self)@.height,
        ensures
            final(self).wf(),
            final(self)@.width == old(self)@.width,
            final(self)@.height == old(self)@.height,
            final(self)@.samples == old(self)@.samples,
            final(self)@.data == with_pixel(
                old(self)@.data,
                pixel_offset(old(self)@.width, x as nat, y as nat) as int,
                rgb,
            ),
    {
        let at = self.offset(x, y);
        self.data.set(at, rgb.0);
        self.data.set(at + 1, rgb.1);
        self.data.set(at + 2, rgb.2);
        self.data.set(at + 3, 255);
    }

    /// Writes a finished tile into the frame: `colors` holds the colours of
    /// the pixels of `tile`, along its rows from its first row, where the
    /// rows of the tile count from the bottom of the picture. Every pixel
    /// outside the tile stays as it is (see [`lemma_flushed`]).
    pub fn flush(&mut self, tile: &Tile, colors: &[(u8, u8, u8)])
        requires
            old(self).wf(),
            tile.within(old(self)@.width, old(self)@.height),
            colors@.len() == tile.area(),
        ensures
            final(self).wf(),
            final(self)@.width == old(self)@.width,
            final(self)@.height == old(self)@.height,
            final(self)@.samples == old(self)@.samples,
            final(self)@.data == flushed(
                old(self)@.data,
                old(self)@.width,
                old(self)@.height,
                *tile,
                colors@,
                tile.area(),
            ),
    {
        let ghost before = self@;
        let len: usize = self.data.len();
        proof {
            assert(tile.width * tile.height <= self.width * self.height) by (nonlinear_arith)
                requires
                    0 <= tile.width <= self.width,
                    0 <= tile.height <= self.height,
            ;
            assert(self.width * self.height <= 4 * self.width * self.height) by (nonlinear_arith)
                requires
                    self.width >= 0,
                    self.height >= 0,
            ;
        }
        let area: usize = tile.width * tile.height;
        let mut k: usize = 0;
        while k < area
            invariant
                k <= area == tile.area() == colors@.len(),
                self.wf(),
                tile.within(before.width, before.height),
                self@.width == before.width,
                self@.height == before.height,
                self@.samples == before.samples,
                self@.data == flushed(
                    before.data,
                    before.width,
                    before.height,
                    *tile,
                    colors@,
                    k as nat,
                ),
            decreases area - k,
        {
            let (x, y) = tile.pixel(k);
            let row = self.height - 1 - y;
            let rgb = colors[k];
            self.append_color(rgb, x, row);
            k += 1;
        }
    }

    /// Where the bytes of a pixel start.
    fn offset(&self, x: usize, y: usize) -> (at: usize)
        requires
            self.wf(),
            x < self@.width,
            y < self@.height,
        ensures
            at == pixel_offset(self@.width, x as nat, y as nat),
            at + 4 <= self@.data.len(),
            self@.data.len() <= usize::MAX,
    {
        proof {
            lemma_pixel_offset_in_range(
                self.width as nat,
                self.height as nat,
                x as nat,
                y as nat,
            );
            assert(0 <= y * self.width) by (nonlinear_arith)
                requires
                    y >= 0,
                    self.width >= 0,
            ;
        }
        let len: usize = self.data.len();
        4 * (y * self.width + x)
    }
}

} // verus!
