use vstd::prelude::*;
use vstd::arithmetic::div_mod::{lemma_div_is_ordered, lemma_fundamental_div_mod_converse};
use crate::error::RenderError;
use crate::util::{pack_color, packed};

verus! {

/// An atlas of `count` square textures of side `size`, packed side by side in one
/// row-major image `image_width` pixels wide and `image_height` high.
pub struct Texture {
    pub image_width: usize,
    pub image_height: usize,
    pub count: usize,
    pub size: usize,
    pub image: Vec<u32>,
}

/// The row of a texture of side `size` that row `j` of a column resampled to `height`
/// rows shows: nearest neighbour, `j * size / height`.
pub open spec fn source_row(j: int, size: int, height: int) -> int {
    j * size / height
}

/// The colour packed from the four bytes of pixel `i` of an RGBA byte sequence.
pub open spec fn rgba_pixel(rgba: Seq<u8>, i: int) -> u32 {
    packed(rgba[4 * i], rgba[4 * i + 1], rgba[4 * i + 2], rgba[4 * i + 3])
}

impl Texture {
    /// The atlas's pixels, row-major.
    pub open spec fn pixels(&self) -> Seq<u32> {
        self.image@
    }

    /// `count` non-empty squares side by side, one pixel per cell.
    pub open spec fn wf(&self) -> bool {
        &&& self.size >= 1
        &&& self.count >= 1
        &&& self.image_height == self.size
        &&& self.image_width == self.size * self.count
        &&& self.pixels().len() == self.image_width * self.image_height
    }

    /// The pixel `(x, y)` of texture `idx`.
    pub open spec fn texel(&self, x: int, y: int, idx: int) -> u32 {
        self.pixels()[x + idx * self.size + y * self.image_width]
    }

    /// Column `x` of texture `idx` resampled to `height` rows.
    pub open spec fn scaled_column(&self, idx: int, x: int, height: int) -> Seq<u32> {
        Seq::new(height as nat, |j: int| self.texel(x, source_row(j, self.size as int, height), idx))
    }

    /// Column `x` of texture `idx` as it is stored.
    pub open spec fn column(&self, idx: int, x: int) -> Seq<u32> {
        Seq::new(self.size as nat, |j: int| self.texel(x, j, idx))
    }

    /// Builds an atlas from an image `width` by `height` given as RGBA bytes, row-major.
    /// The image must be a whole number of squares side by side.
    pub fn new(width: usize, height: usize, rgba: &Vec<u8>) -> (r: Result<Texture, RenderError>)
        ensures
            r is Ok <==> (height > 0 && width > 0 && width % height == 0 && rgba@.len() == 4 * width * height),
            r is Err ==> r == Err::<Texture, RenderError>(RenderError::InvalidDimensions),
            r matches Ok(t) ==> {
                &&& t.wf()
                &&& t.image_width == width
                &&& t.image_height == height
                &&& t.size == height
                &&& t.count == width / height
                &&& forall|i: int| 0 <= i < width * height ==> #[trigger] t.pixels()[i] == rgba_pixel(rgba@, i)
            },
    {
        if height == 0 || width == 0 || width % height != 0 {
            return Err(RenderError::InvalidDimensions);
        }
        let len: usize = rgba.len();
        if len % 4 != 0 || (len / 4) % width != 0 || (len / 4) / width != height {
            proof {
                if len == 4 * width * height {
                    assert(len as int == (width * height) * 4 + 0) by (nonlinear_arith)
                        requires
                            len == 4 * width * height,
                    ;
                    lemma_fundamental_div_mod_converse(len as int, 4, width * height, 0);
                    assert(width * height == height * width + 0) by (nonlinear_arith);
                    lemma_fundamental_div_mod_converse(width * height, width as int, height as int, 0);
                }
            }
            return Err(RenderError::InvalidDimensions);
        }
        let n: usize = len / 4;
        proof {
            assert(n == width * height) by (nonlinear_arith)
                requires
                    (n as int) % (width as int) == 0,
                    (n as int) / (width as int) == height,
                    width > 0,
            {
                vstd::arithmetic::div_mod::lemma_fundamental_div_mod(n as int, width as int);
            }
        }
        assert(len == 4 * width * height) by (nonlinear_arith)
            requires
                n == width * height,
                n * 4 == len,
        ;
        let count: usize = width / height;
        proof {
            assert(width == height * count) by (nonlinear_arith)
                requires
                    (width as int) % (height as int) == 0,
                    count == (width as int) / (height as int),
                    height > 0,
            {
                vstd::arithmetic::div_mod::lemma_fundamental_div_mod(width as int, height as int);
            }
            assert(count >= 1) by (nonlinear_arith)
                requires
                    width == height * count,
                    width > 0,
            ;
        }
        let mut image: Vec<u32> = Vec::new();
        let mut i: usize = 0;
        while i < n
            invariant
                i <= n,
                len == rgba@.len(),
                n * 4 == len,
                image@.len() == i,
                forall|k: int| 0 <= k < i ==> #[trigger] image@[k] == rgba_pixel(rgba@, k),
            decreases n - i,
        {
            let c: u32 = pack_color(rgba[4 * i], rgba[4 * i + 1], rgba[4 * i + 2], rgba[4 * i + 3]);
            image.push(c);
            i = i + 1;
        }
        Ok(Texture { image_width: width, image_height: height, count, size: height, image })
    }

    /// The pixel `(x, y)` of texture `idx`.
    pub fn get(&self, x: usize, y: usize, idx: usize) -> (c: &u32)
        requires
            self.wf(),
            x < self.size,
            y < self.size,
            idx < self.count,
        ensures
            *c == self.texel(x as int, y as int, idx as int),
    {
        proof {
            lemma_texel_in_bounds(self.size as int, self.count as int, x as int, y as int, idx as int);
        }
        let _len: usize = self.image.len();
        &self.image[x + idx * self.size + y * self.image_width]
    }

    /// Column `texture_coordinate` of texture `texture_id` resampled to `column_height` rows:
    /// row `j` shows source row `j * size / column_height`.
    pub fn get_scaled_column(&self, texture_id: usize, texture_coordinate: usize, column_height: usize) -> (column: Vec<u32>)
        requires
            self.wf(),
            texture_coordinate < self.size,
            texture_id < self.count,
        ensures
            column@ == self.scaled_column(texture_id as int, texture_coordinate as int, column_height as int),
    {
        let mut column: Vec<u32> = Vec::new();
        let mut j: usize = 0;
        while j < column_height
            invariant
                self.wf(),
                texture_coordinate < self.size,
                texture_id < self.count,
                j <= column_height,
                column@.len() == j,
                forall|k: int| 0 <= k < j ==> #[trigger] column@[k] == self.texel(
                    texture_coordinate as int,
                    source_row(k, self.size as int, column_height as int),
                    texture_id as int,
                ),
            decreases column_height - j,
        {
            proof {
                lemma_source_row_bound(j as int, self.size as int, column_height as int);
                assert(j * self.size <= 0xffff_ffff_ffff_ffff * 0xffff_ffff_ffff_ffffint) by (nonlinear_arith)
                    requires
                        j <= 0xffff_ffff_ffff_ffffint,
                        self.size <= 0xffff_ffff_ffff_ffffint,
                ;
            }
            let row: usize = ((j as u128) * (self.size as u128) / (column_height as u128)) as usize;
            column.push(*self.get(texture_coordinate, row, texture_id));
            j = j + 1;
        }
        assert(column@ =~= self.scaled_column(texture_id as int, texture_coordinate as int, column_height as int));
        column
    }

    /// Resampling to the texture's own size gives back the stored column.
    pub proof fn lemma_scaled_column_native(&self, idx: int, x: int)
        requires
            self.wf(),
        ensures
            self.scaled_column(idx, x, self.size as int) == self.column(idx, x),
    {
        assert forall|j: int| 0 <= j < self.size implies source_row(j, self.size as int, self.size as int) == j by {
            lemma_fundamental_div_mod_converse(j * self.size, self.size as int, j, 0);
        }
        assert(self.scaled_column(idx, x, self.size as int) =~= self.column(idx, x));
    }
}

/// A pixel of a texture lies inside the atlas.
proof fn lemma_texel_in_bounds(size: int, count: int, x: int, y: int, idx: int)
    requires
        0 <= x < size,
        0 <= y < size,
        0 <= idx < count,
    ensures
        0 <= x + idx * size + y * (size * count) < (size * count) * size,
{
    assert(0 <= x + idx * size + y * (size * count) < (size * count) * size) by (nonlinear_arith)
        requires
            0 <= x < size,
            0 <= y < size,
            0 <= idx < count,
    ;
}

/// A resampled row shows a row of the texture.
pub(crate) proof fn lemma_source_row_bound(j: int, size: int, height: int)
    requires
        0 <= j < height,
        size >= 1,
    ensures
        0 <= source_row(j, size, height) < size,
        j * size < height * size,
{
    assert(0 <= j * size < height * size) by (nonlinear_arith)
        requires
            0 <= j < height,
            size >= 1,
    ;
    lemma_div_is_ordered(0, j * size, height);
    let q = j * size / height;
    vstd::arithmetic::div_mod::lemma_fundamental_div_mod(j * size, height);
    assert(q < size) by (nonlinear_arith)
        requires
            j * size == height * q + (j * size) % height,
            0 <= (j * size) % height,
            j * size < height * size,
            height > 0,
    ;
}

/// Resampling keeps the order of rows: a lower output row never shows a lower source row.
pub proof fn lemma_source_rows_ordered(size: int, height: int, j1: int, j2: int)
    requires
        size >= 1,
        height >= 1,
        0 <= j1 <= j2 < height,
    ensures
        source_row(j1, size, height) <= source_row(j2, size, height),
{
    assert(j1 * size <= j2 * size) by (nonlinear_arith)
        requires
            j1 <= j2,
            size >= 1,
    ;
    lemma_div_is_ordered(j1 * size, j2 * size, height);
}

/// Resampling to at least the texture's size skips no source row: each row of the
/// texture is shown by some output row.
pub proof fn lemma_source_rows_cover(size: int, height: int, row: int)
    requires
        size >= 1,
        height >= size,
        0 <= row < size,
    ensures
        exists|j: int| 0 <= j < height && #[trigger] source_row(j, size, height) == row,
{
    let j = (row * height + size - 1) / size;
    vstd::arithmetic::div_mod::lemma_fundamental_div_mod(row * height + size - 1, size);
    let m = (row * height + size - 1) % size;
    assert(0 <= m < size);
    assert(0 <= j < height && row * height <= j * size < row * height + height) by (nonlinear_arith)
        requires
            row * height + size - 1 == size * j + m,
            0 <= m < size,
            0 <= row < size,
            size <= height,
    ;
    lemma_fundamental_div_mod_converse(j * size, height, row, j * size - row * height);
    assert(source_row(j, size, height) == row);
}

} // verus!
