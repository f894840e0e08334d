use vstd::prelude::*;

verus! {

/// A row-major buffer of packed colours: the cell of `(x, y)` is `x + y * width`.
pub struct Framebuffer {
    pub width: usize,
    pub height: usize,
    pub image: Vec<u32>,
}

/// The linear index of the cell `(x, y)` in a buffer `width` cells wide.
pub open spec fn cell_index(width: int, x: int, y: int) -> int {
    x + y * width
}

/// Whether the cell `(x, y)` lies in the rectangle of corner `(rx, ry)` and size `rw` by `rh`.
pub open spec fn in_rect(x: int, y: int, rx: int, ry: int, rw: int, rh: int) -> bool {
    rx <= x < rx + rw && ry <= y < ry + rh
}

impl Framebuffer {
    /// The buffer holds exactly one cell for each pixel.
    pub open spec fn wf(&self) -> bool {
        self.image@.len() == self.width * self.height
    }

    /// The colour of the cell `(x, y)`.
    pub open spec fn pixel(&self, x: int, y: int) -> u32 {
        self.image@[cell_index(self.width as int, x, y)]
    }

    /// A buffer of the given size with no cells yet; `clear` fills it.
    pub fn new(width: usize, height: usize) -> (fb: Framebuffer)
        requires
            width * height <= usize::MAX,
        ensures
            fb.width == width,
            fb.height == height,
            fb.image@.len() == 0,
    {
        Framebuffer { width, height, image: Vec::new() }
    }

    /// Writes one cell.
    pub fn set_pixel(&mut self, x: usize, y: usize, color: u32)
        requires
            old(self).wf(),
            x < old(self).width,
            y < old(self).height,
        ensures
            final(self).wf(),
            final(self).width == old(self).width,
            final(self).height == old(self).height,
            final(self).image@ == old(self).image@.update(cell_index(old(self).width as int, x as int, y as int), color),
    {
        proof {
            lemma_cell_in_bounds(self.width as int, self.height as int, x as int, y as int);
        }
        let _len: usize = self.image.len();
        assert(y * self.width <= x + y * self.width);
        let i: usize = x + y * self.width;
        self.image.set(i, color);
    }

    /// The colour at linear index `i`.
    pub fn get_pixel(&self, i: usize) -> (c: u32)
        requires
            i < self.image@.len(),
        ensures
            c == self.image@[i as int],
    {
        self.image[i]
    }

    /// Fills the cells of the rectangle of corner `(rect_x, rect_y)` and size `rect_w` by
    /// `rect_h` with `color`; cells of it outside the buffer are skipped.
    pub fn draw_rectangle(&mut self, rect_x: usize, rect_y: usize, rect_w: usize, rect_h: usize, color: u32)
        requires
            old(self).wf(),
        ensures
            final(self).wf(),
            final(self).width == old(self).width,
            final(self).height == old(self).height,
            forall|x: int, y: int|
                0 <= x < old(self).width && 0 <= y < old(self).height ==> #[trigger] final(self).pixel(x, y) == if in_rect(
                    x,
                    y,
                    rect_x as int,
                    rect_y as int,
                    rect_w as int,
                    rect_h as int,
                ) {
                    color
                } else {
                    old(self).pixel(x, y)
                },
    {
        let ghost old_fb = *self;
        let x_end: usize = if rect_x >= self.width {
            rect_x
        } else if rect_w <= self.width - rect_x {
            rect_x + rect_w
        } else {
            self.width
        };
        let mut x: usize = rect_x;
        while x < x_end
            invariant
                self.wf(),
                self.width == old_fb.width,
                self.height == old_fb.height,
                rect_x <= x <= x_end,
                x_end <= self.width || x_end == rect_x,
                x_end <= rect_x + rect_w,
                rect_x + rect_w <= self.width ==> x_end == rect_x + rect_w,
                rect_x < self.width < rect_x + rect_w ==> x_end == self.width,
                forall|px: int, py: int|
                    0 <= px < self.width && 0 <= py < self.height ==> #[trigger] self.pixel(px, py) == if in_rect(
                        px,
                        py,
                        rect_x as int,
                        rect_y as int,
                        x - rect_x,
                        rect_h as int,
                    ) {
                        color
                    } else {
                        old_fb.pixel(px, py)
                    },
            decreases x_end - x,
        {
            let y_end: usize = if rect_y >= self.height {
                rect_y
            } else if rect_h <= self.height - rect_y {
                rect_y + rect_h
            } else {
                self.height
            };
            let mut y: usize = rect_y;
            while y < y_end
                invariant
                    self.wf(),
                    self.width == old_fb.width,
                    self.height == old_fb.height,
                    x < x_end <= self.width,
                    rect_x <= x,
                    x < rect_x + rect_w,
                    rect_y <= y <= y_end,
                    y_end <= self.height || y_end == rect_y,
                    y_end <= rect_y + rect_h,
                    rect_y + rect_h <= self.height ==> y_end == rect_y + rect_h,
                    rect_y < self.height < rect_y + rect_h ==> y_end == self.height,
                    forall|px: int, py: int|
                        0 <= px < self.width && 0 <= py < self.height ==> #[trigger] self.pixel(px, py) == if (
                        in_rect(px, py, rect_x as int, rect_y as int, x - rect_x, rect_h as int)) || (
                        px == x && rect_y <= py < y) {
                            color
                        } else {
                            old_fb.pixel(px, py)
                        },
                decreases y_end - y,
            {
                let ghost before = *self;
                self.set_pixel(x, y, color);
                assert forall|px: int, py: int| 0 <= px < self.width && 0 <= py < self.height implies #[trigger] self.pixel(px, py) == (if (
                in_rect(px, py, rect_x as int, rect_y as int, x - rect_x, rect_h as int)) || (px == x
                    && rect_y <= py < y + 1) {
                    color
                } else {
                    old_fb.pixel(px, py)
                }) by {
                    lemma_cell_distinct(self.width as int, self.height as int, px, py, x as int, y as int);
                    lemma_cell_in_bounds(self.width as int, self.height as int, px, py);
                    lemma_cell_in_bounds(self.width as int, self.height as int, x as int, y as int);
                    let i = cell_index(self.width as int, px, py);
                    if px != x || py != y {
                        assert(self.image@[i] == before.image@[i]);
                        assert(self.pixel(px, py) == before.pixel(px, py));
                        assert(before.pixel(px, py) == (if in_rect(px, py, rect_x as int, rect_y as int, x - rect_x, rect_h as int) || (px == x
                    && rect_y <= py < y) { color } else { old_fb.pixel(px, py) }));
                    } else {
                        assert(self.pixel(px, py) == color);
                    }
                }
                y = y + 1;
            }
            x = x + 1;
        }
    }

    /// Fills every cell with `color`, so that the buffer holds exactly `width * height` cells.
    pub fn clear(&mut self, color: u32)
        requires
            old(self).width * old(self).height <= usize::MAX,
        ensures
            final(self).wf(),
            final(self).width == old(self).width,
            final(self).height == old(self).height,
            forall|i: int| 0 <= i < final(self).image@.len() ==> final(self).image@[i] == color,
    {
        let n: usize = self.width * self.height;
        let mut image: Vec<u32> = Vec::new();
        let mut i: usize = 0;
        while i < n
            invariant
                i <= n,
                image@.len() == i,
                forall|k: int| 0 <= k < i ==> image@[k] == color,
            decreases n - i,
        {
            image.push(color);
            i = i + 1;
        }
        self.image = image;
    }

    /// The number of cells.
    pub fn length(&self) -> (n: usize)
        ensures
            n == self.image@.len(),
    {
        self.image.len()
    }
}

/// A cell inside the buffer has its index inside the buffer.
pub proof fn lemma_cell_in_bounds(width: int, height: int, x: int, y: int)
    requires
        0 <= x < width,
        0 <= y < height,
    ensures
        0 <= cell_index(width, x, y) < width * height,
{
    assert(y * width + width <= width * height) by (nonlinear_arith)
        requires
            0 <= y < height,
            0 <= x < width,
    ;
    assert(0 <= y * width) by (nonlinear_arith)
        requires
            0 <= y,
            0 <= width,
    ;
}

/// Distinct cells inside the buffer have distinct indices.
pub proof fn lemma_cell_distinct(width: int, height: int, x1: int, y1: int, x2: int, y2: int)
    requires
        0 <= x1 < width,
        0 <= y1 < height,
        0 <= x2 < width,
        0 <= y2 < height,
    ensures
        cell_index(width, x1, y1) == cell_index(width, x2, y2) <==> (x1 == x2 && y1 == y2),
{
    if y1 < y2 {
        assert(y1 * width + width <= y2 * width) by (nonlinear_arith)
            requires
                y1 < y2,
                0 <= width,
        ;
    } else if y2 < y1 {
        assert(y2 * width + width <= y1 * width) by (nonlinear_arith)
            requires
                y2 < y1,
                0 <= width,
        ;
    }
}

} // verus!
