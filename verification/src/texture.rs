//! Image-backed textures: a grid of colour samples and the nearest-sample
//! lookup. Turning texture coordinates into grid positions, and bytes into
//! colours, is left to the caller.

use vstd::prelude::*;

verus! {

/// What an image texture holds: its size and its bytes, three for each
/// sample (red, green, blue), row after row from the top.
pub struct TextureModel {
    pub width: nat,
    pub height: nat,
    pub data: Seq<u8>,
}

/// The position in the byte sequence of the sample that a lookup at column
/// `i` and row `j` reads. A column or a row beyond the last one reads the
/// last one.
pub open spec fn texel_offset(width: nat, height: nat, i: nat, j: nat) -> nat
    recommends
        width > 0,
        height > 0,
{
    let column = if i < width {
        i
    } else {
        (width - 1) as nat
    };
    let row = if j < height {
        j
    } else {
        (height - 1) as nat
    };
    3 * (row * width + column)
}

/// A sample inside the grid lies inside the bytes.
pub proof fn lemma_texel_offset_in_range(width: nat, height: nat, i: nat, j: nat)
    requires
        width > 0,
        height > 0,
    ensures
        texel_offset(width, height, i, j) + 3 <= 3 * width * height,
{
    let column = if i < width {
        i
    } else {
        (width - 1) as nat
    };
    let row = if j < height {
        j
    } else {
        (height - 1) as nat
    };
    assert(row * width + column + 1 <= height * width) by (nonlinear_arith)
        requires
            row + 1 <= height,
            column + 1 <= width,
    ;
    assert(3 * width * height == 3 * (height * width)) by (nonlinear_arith);
}

/// A texture backed by an image of 8-bit red, green and blue samples.
pub struct ImageTexture {
    data: Vec<u8>,
    width: u32,
    height: u32,
}

impl View for ImageTexture {
    type V = TextureModel;

    closed spec fn view(&self) -> TextureModel {
        TextureModel { width: self.width as nat, height: self.height as nat, data: self.data@ }
    }
}

impl ImageTexture {
    #[verifier::type_invariant]
    spec fn well_formed(self) -> bool {
        &&& self.width > 0
        &&& self.height > 0
        &&& self.data@.len() == 3 * self.width * self.height
    }

    /// A texture of `width` by `height` samples over `data`, which holds
    /// three bytes for each sample, row after row. `None` where the image is
    /// empty or `data` has another length.
    pub fn from_rgb8(data: Vec<u8>, width: u32, height: u32) -> (r: Option<ImageTexture>)
        ensures
            r is Some <==> width > 0 && height > 0 && data@.len() == 3 * width * height,
            r matches Some(t) ==> t@ == (TextureModel {
                width: width as nat,
                height: height as nat,
                data: data@,
            }),
    {
        if width == 0 || height == 0 {
            return None;
        }
        assert(width * height <= 0xffff_ffff * 0xffff_ffff) by (nonlinear_arith)
            requires
                width <= 0xffff_ffff,
                height <= 0xffff_ffff,
        ;
        assert(3 * width * height == 3 * (width * height)) by (nonlinear_arith);
        let samples: u64 = width as u64 * height as u64;
        let len: usize = data.len();
        if samples > 0x5555_5555_5555_5555 {
            // Three bytes a sample would not fit the length of any vector.
            return None;
        }
        if len as u64 != 3 * samples {
            return None;
        }
        Some(ImageTexture { data, width, height })
    }

    /// The number of columns.
    pub fn width(&self) -> (w: u32)
        ensures
            w == self@.width,
            w > 0,
    {
        proof {
            use_type_invariant(self);
        }
        self.width
    }

    /// The number of rows.
    pub fn height(&self) -> (h: u32)
        ensures
            h == self@.height,
            h > 0,
    {
        proof {
            use_type_invariant(self);
        }
        self.height
    }

    /// The red, green and blue bytes of the sample nearest to column `i`
    /// and row `j`: the sample there, or the one in the last column or row
    /// where `i` or `j` lies beyond it.
    pub fn texel(&self, i: u32, j: u32) -> (rgb: (u8, u8, u8))
        ensures
            ({
                let at = texel_offset(self@.width, self@.height, i as nat, j as nat) as int;
                &&& at + 3 <= self@.data.len()
                &&& rgb.0 == self@.data[at]
                &&& rgb.1 == self@.data[at + 1]
                &&& rgb.2 == self@.data[at + 2]
            }),
    {
        proof {
            use_type_invariant(self);
            lemma_texel_offset_in_range(
                self.width as nat,
                self.height as nat,
                i as nat,
                j as nat,
            );
        }
        let column: usize = if i < self.width {
            i as usize
        } else {
            (self.width - 1) as usize
        };
        let row: usize = if j < self.height {
            j as usize
        } else {
            (self.height - 1) as usize
        };
        let width: usize = self.width as usize;
        assert(0 <= row * width) by (nonlinear_arith)
            requires
                row >= 0,
                width >= 0,
        ;
        let len: usize = self.data.len();
        assert(3 * (row * width + column) + 3 <= len);
        let at: usize = 3 * (row * width + column);
        (self.data[at], self.data[at + 1], self.data[at + 2])
    }
}

} // verus!
