use vstd::prelude::*;
use vstd::arithmetic::div_mod::{lemma_fundamental_div_mod, lemma_fundamental_div_mod_converse};
use crate::framebuffer::{Framebuffer, in_rect};
use crate::map::{TileMap, digit_value};
use crate::texture::{Texture, source_row};

verus! {

/// The colour the frame is cleared to: opaque white.
pub const BACKGROUND_COLOR: u32 = 0xffff_ffff;

/// The colour of the points a ray visits on the minimap: opaque grey.
pub const TRACE_COLOR: u32 = 0xffa0_a0a0;

/// The colour of a sprite's marker on the minimap: opaque red.
pub const SPRITE_MARKER_COLOR: u32 = 0xff00_00ff;

/// The width of a map cell on the minimap, which fills the left half of the frame.
pub open spec fn minimap_cell_width(fb_width: int, map_width: int) -> int {
    fb_width / (2 * map_width)
}

/// The height of a map cell on the minimap.
pub open spec fn minimap_cell_height(fb_height: int, map_height: int) -> int {
    fb_height / map_height
}

/// Every wall of the map names a texture of the atlas.
pub open spec fn walls_in_atlas(map: &TileMap, walls: &Texture) -> bool {
    forall|x: int, y: int| #[trigger] map.occupied(x, y) ==> digit_value(map.tile(x, y)) < walls.count
}

/// What the minimap shows at pixel `(px, py)`: the first pixel of the wall texture of
/// the map cell under it, when that cell holds a wall.
pub open spec fn minimap_pixel(map: &TileMap, walls: &Texture, cw: int, ch: int, px: int, py: int) -> Option<u32> {
    if cw > 0 && ch > 0 && map.occupied(px / cw, py / ch) {
        Some(walls.texel(0, 0, digit_value(map.tile(px / cw, py / ch))))
    } else {
        None
    }
}

/// One point that a ray visits: the map cell it lies in and the minimap pixel that
/// marks it.
#[derive(Clone, Copy, Debug, PartialEq, Eq, Structural)]
pub struct RaySample {
    pub cell_x: usize,
    pub cell_y: usize,
    pub trace_x: usize,
    pub trace_y: usize,
}

/// Whether the sample lies in a wall.
pub open spec fn hits(map: &TileMap, s: RaySample) -> bool {
    map.occupied(s.cell_x as int, s.cell_y as int)
}

/// None of the first `n` samples lies in a wall.
pub open spec fn no_hit_before(map: &TileMap, samples: Seq<RaySample>, n: int) -> bool {
    forall|i: int| 0 <= i < n ==> !hits(map, #[trigger] samples[i])
}

/// One of the first `n` samples marks the pixel `(px, py)`.
pub open spec fn traced(samples: Seq<RaySample>, n: int, px: int, py: int) -> bool {
    exists|i: int| 0 <= i < n && #[trigger] samples[i].trace_x == px && samples[i].trace_y == py
}

/// Every sample lies in the map and marks a pixel of the frame.
pub open spec fn samples_in_bounds(fb: &Framebuffer, map: &TileMap, samples: Seq<RaySample>) -> bool {
    forall|i: int|
        0 <= i < samples.len() ==> {
            &&& (#[trigger] samples[i]).cell_x < map.width
            &&& samples[i].cell_y < map.height
            &&& samples[i].trace_x < fb.width
            &&& samples[i].trace_y < fb.height
        }
}

/// The row of the frame where row `j` of a wall column `column_height` rows high lands:
/// the column is centred vertically.
pub open spec fn wall_row(fb_height: int, column_height: int, j: int) -> int {
    j + fb_height / 2 - column_height / 2
}

/// Pixel `p` lies in cell `c` of cells `size` wide exactly when `p / size == c`.
proof fn lemma_in_cell(p: int, size: int, c: int)
    requires
        p >= 0,
        size > 0,
        c >= 0,
    ensures
        (c * size <= p < c * size + size) <==> p / size == c,
{
    lemma_fundamental_div_mod(p, size);
    if c * size <= p < c * size + size {
        lemma_fundamental_div_mod_converse(p, size, c, p - c * size);
    }
    assert((p / size == c) ==> (c * size <= p < c * size + size)) by (nonlinear_arith)
        requires
            p == size * (p / size) + p % size,
            0 <= p % size < size,
    ;
}

/// Paints the minimap into the left half of the frame: each map cell holding a wall
/// becomes a rectangle of the first pixel of its texture.
pub fn draw_minimap(fb: &mut Framebuffer, map: &TileMap, walls: &Texture)
    requires
        old(fb).wf(),
        map.wf(),
        walls.wf(),
        map.width > 0,
        map.height > 0,
        walls_in_atlas(map, walls),
    ensures
        final(fb).wf(),
        final(fb).width == old(fb).width,
        final(fb).height == old(fb).height,
        forall|px: int, py: int|
            0 <= px < old(fb).width && 0 <= py < old(fb).height ==> #[trigger] final(fb).pixel(px, py) == match minimap_pixel(
                map,
                walls,
                minimap_cell_width(old(fb).width as int, map.width as int),
                minimap_cell_height(old(fb).height as int, map.height as int),
                px,
                py,
            ) {
                Some(c) => c,
                None => old(fb).pixel(px, py),
            },
{
    let ghost old_fb = *fb;
    let rect_w: usize = fb.width / map.width / 2;
    let rect_h: usize = fb.height / map.height;
    proof {
        vstd::arithmetic::div_mod::lemma_div_denominator(fb.width as int, map.width as int, 2);
        assert(map.width * rect_w <= fb.width && map.height * rect_h <= fb.height) by (nonlinear_arith)
            requires
                rect_w == fb.width as int / (map.width as int * 2),
                rect_h == fb.height as int / map.height as int,
                map.width > 0,
                map.height > 0,
        {
            lemma_fundamental_div_mod(fb.width as int, map.width as int * 2);
            lemma_fundamental_div_mod(fb.height as int, map.height as int);
        }
    }
    let ghost cw = rect_w as int;
    let ghost ch = rect_h as int;
    let mut y: usize = 0;
    while y < map.height
        invariant
            fb.wf(),
            fb.width == old_fb.width,
            fb.height == old_fb.height,
            map.wf(),
            walls.wf(),
            walls_in_atlas(map, walls),
            cw == rect_w,
            ch == rect_h,
            cw == minimap_cell_width(fb.width as int, map.width as int),
            ch == minimap_cell_height(fb.height as int, map.height as int),
            map.width * cw <= fb.width,
            map.height * ch <= fb.height,
            y <= map.height,
            forall|px: int, py: int|
                0 <= px < fb.width && 0 <= py < fb.height ==> #[trigger] fb.pixel(px, py) == match minimap_pixel(map, walls, cw, ch, px, py) {
                    Some(c) => if py / ch < y { c } else { old_fb.pixel(px, py) },
                    None => old_fb.pixel(px, py),
                },
        decreases map.height - y,
    {
        let mut x: usize = 0;
        while x < map.width
            invariant
                fb.wf(),
                fb.width == old_fb.width,
                fb.height == old_fb.height,
                map.wf(),
                walls.wf(),
                walls_in_atlas(map, walls),
                cw == rect_w,
            ch == rect_h,
            cw == minimap_cell_width(fb.width as int, map.width as int),
                ch == minimap_cell_height(fb.height as int, map.height as int),
                map.width * cw <= fb.width,
                map.height * ch <= fb.height,
                y < map.height,
                x <= map.width,
                forall|px: int, py: int|
                    0 <= px < fb.width && 0 <= py < fb.height ==> #[trigger] fb.pixel(px, py) == match minimap_pixel(map, walls, cw, ch, px, py) {
                        Some(c) => if py / ch < y || (py / ch == y && px / cw < x) { c } else { old_fb.pixel(px, py) },
                        None => old_fb.pixel(px, py),
                    },
            decreases map.width - x,
        {
            if !map.is_empty(x, y) {
                proof {
                    assert(map.occupied(x as int, y as int));
                    assert(x * rect_w <= map.width * rect_w && y * rect_h <= map.height * rect_h) by (nonlinear_arith)
                        requires
                            x < map.width,
                            y < map.height,
                    ;
                }
                let texture_id: usize = map.get(x, y);
                let color: u32 = *walls.get(0, 0, texture_id);
                let ghost before = *fb;
                fb.draw_rectangle(x * rect_w, y * rect_h, rect_w, rect_h, color);
                assert forall|px: int, py: int| 0 <= px < fb.width && 0 <= py < fb.height implies #[trigger] fb.pixel(px, py) == match minimap_pixel(map, walls, cw, ch, px, py) {
                    Some(c) => if py / ch < y || (py / ch == y && px / cw < x + 1) { c } else { old_fb.pixel(px, py) },
                    None => old_fb.pixel(px, py),
                } by {
                    assert(before.pixel(px, py) == before.pixel(px, py));
                    if cw > 0 && ch > 0 {
                        lemma_in_cell(px, cw, x as int);
                        lemma_in_cell(py, ch, y as int);
                    } else {
                        assert(!in_rect(px, py, x * cw, y * ch, cw, ch));
                    }
                }
            }
            x = x + 1;
        }
        y = y + 1;
    }
    assert forall|px: int, py: int| 0 <= px < fb.width && 0 <= py < fb.height implies #[trigger] fb.pixel(px, py) == match minimap_pixel(map, walls, cw, ch, px, py) {
        Some(c) => c,
        None => old_fb.pixel(px, py),
    } by {
        assert(fb.pixel(px, py) == fb.pixel(px, py));
    }
}

/// Walks the samples of one ray in order, marking each on the minimap, and stops at the
/// first that lies in a wall: its index is returned, or `None` when no sample hits.
pub fn march(fb: &mut Framebuffer, map: &TileMap, samples: &Vec<RaySample>) -> (hit: Option<usize>)
    requires
        old(fb).wf(),
        map.wf(),
        samples_in_bounds(old(fb), map, samples@),
    ensures
        final(fb).wf(),
        final(fb).width == old(fb).width,
        final(fb).height == old(fb).height,
        match hit {
            Some(k) => k < samples@.len() && hits(map, samples@[k as int]) && no_hit_before(map, samples@, k as int),
            None => no_hit_before(map, samples@, samples@.len() as int),
        },
        forall|px: int, py: int|
            0 <= px < old(fb).width && 0 <= py < old(fb).height ==> #[trigger] final(fb).pixel(px, py) == if traced(
                samples@,
                match hit {
                    Some(k) => k + 1,
                    None => samples@.len() as int,
                },
                px,
                py,
            ) {
                TRACE_COLOR
            } else {
                old(fb).pixel(px, py)
            },
{
    let ghost old_fb = *fb;
    let mut hit: Option<usize> = None;
    let mut i: usize = 0;
    while i < samples.len()
        invariant_except_break
            hit is None,
            no_hit_before(map, samples@, i as int),
            forall|px: int, py: int|
                0 <= px < fb.width && 0 <= py < fb.height ==> #[trigger] fb.pixel(px, py) == if traced(samples@, i as int, px, py) {
                    TRACE_COLOR
                } else {
                    old_fb.pixel(px, py)
                },
        invariant
            fb.wf(),
            fb.width == old_fb.width,
            fb.height == old_fb.height,
            map.wf(),
            samples_in_bounds(&old_fb, map, samples@),
            i <= samples@.len(),
        ensures
            match hit {
                Some(k) => k < samples@.len() && hits(map, samples@[k as int]) && no_hit_before(map, samples@, k as int),
                None => no_hit_before(map, samples@, samples@.len() as int),
            },
            forall|px: int, py: int|
                0 <= px < fb.width && 0 <= py < fb.height ==> #[trigger] fb.pixel(px, py) == if traced(
                    samples@,
                    match hit {
                        Some(k) => k + 1,
                        None => samples@.len() as int,
                    },
                    px,
                    py,
                ) {
                    TRACE_COLOR
                } else {
                    old_fb.pixel(px, py)
                },
        decreases samples@.len() - i,
    {
        let s: RaySample = samples[i];
        let ghost before = *fb;
        fb.set_pixel(s.trace_x, s.trace_y, TRACE_COLOR);
        assert forall|px: int, py: int| 0 <= px < fb.width && 0 <= py < fb.height implies #[trigger] fb.pixel(px, py) == if traced(samples@, i + 1, px, py) {
            TRACE_COLOR
        } else {
            old_fb.pixel(px, py)
        } by {
            crate::framebuffer::lemma_cell_distinct(fb.width as int, fb.height as int, px, py, s.trace_x as int, s.trace_y as int);
            crate::framebuffer::lemma_cell_in_bounds(fb.width as int, fb.height as int, px, py);
            crate::framebuffer::lemma_cell_in_bounds(fb.width as int, fb.height as int, s.trace_x as int, s.trace_y as int);
            assert(before.pixel(px, py) == before.pixel(px, py));
            if px == s.trace_x && py == s.trace_y {
                assert(samples@[i as int].trace_x == px);
                assert(fb.pixel(px, py) == TRACE_COLOR);
            } else {
                assert(fb.pixel(px, py) == before.pixel(px, py));
                if traced(samples@, i + 1, px, py) {
                    let w = choose|w: int| 0 <= w < i + 1 && #[trigger] samples@[w].trace_x == px && samples@[w].trace_y == py;
                    assert(w != i);
                    assert(traced(samples@, i as int, px, py));
                }
                if traced(samples@, i as int, px, py) {
                    let w = choose|w: int| 0 <= w < i && #[trigger] samples@[w].trace_x == px && samples@[w].trace_y == py;
                    assert(samples@[w].trace_x == px);
                }
            }
        }
        if !map.is_empty(s.cell_x, s.cell_y) {
            hit = Some(i);
            break;
        }
        i = i + 1;
    }
    hit
}

/// The pixel column of a texture `size` wide that a wall shows, from the hit point's
/// offset from the cell centre scaled to texture pixels and truncated: a negative
/// offset wraps round by one texture width.
pub fn wall_texture_coordinate(offset: i32, size: usize) -> (u: usize)
    requires
        -(size as int) < offset < size,
    ensures
        u < size,
        u == if offset < 0 { offset + size } else { offset as int },
{
    if offset < 0 {
        let back: usize = (-(offset as i64)) as usize;
        size - back
    } else {
        offset as usize
    }
}

/// Draws column `tex_x` of wall texture `texture_id`, resampled to `column_height` rows,
/// at pixel column `screen_x`, centred vertically; rows outside the frame are clipped.
pub fn draw_wall_column(
    fb: &mut Framebuffer,
    walls: &Texture,
    texture_id: usize,
    tex_x: usize,
    column_height: usize,
    screen_x: usize,
)
    requires
        old(fb).wf(),
        walls.wf(),
        texture_id < walls.count,
        tex_x < walls.size,
        screen_x < old(fb).width,
    ensures
        final(fb).wf(),
        final(fb).width == old(fb).width,
        final(fb).height == old(fb).height,
        forall|px: int, py: int|
            0 <= px < old(fb).width && 0 <= py < old(fb).height ==> #[trigger] final(fb).pixel(px, py) == {
                let j = py - wall_row(old(fb).height as int, column_height as int, 0);
                if px == screen_x && 0 <= j < column_height {
                    walls.scaled_column(texture_id as int, tex_x as int, column_height as int)[j]
                } else {
                    old(fb).pixel(px, py)
                }
            },
{
    let ghost old_fb = *fb;
    let column: Vec<u32> = walls.get_scaled_column(texture_id, tex_x, column_height);
    let top: u128 = (fb.height / 2) as u128;
    let shift: u128 = (column_height / 2) as u128;
    let mut j: usize = 0;
    while j < column_height
        invariant
            fb.wf(),
            fb.width == old_fb.width,
            fb.height == old_fb.height,
            screen_x < fb.width,
            j <= column_height,
            top == fb.height / 2,
            shift == column_height / 2,
            column@ == walls.scaled_column(texture_id as int, tex_x as int, column_height as int),
            forall|px: int, py: int|
                0 <= px < fb.width && 0 <= py < fb.height ==> #[trigger] fb.pixel(px, py) == {
                    let k = py - wall_row(fb.height as int, column_height as int, 0);
                    if px == screen_x && 0 <= k < j {
                        column@[k]
                    } else {
                        old_fb.pixel(px, py)
                    }
                },
        decreases column_height - j,
    {
        let row: u128 = j as u128 + top;
        if row >= shift && row - shift < fb.height as u128 {
            let y: usize = (row - shift) as usize;
            let ghost before = *fb;
            fb.set_pixel(screen_x, y, column[j]);
            assert forall|px: int, py: int| 0 <= px < fb.width && 0 <= py < fb.height implies #[trigger] fb.pixel(px, py) == {
                let k = py - wall_row(fb.height as int, column_height as int, 0);
                if px == screen_x && 0 <= k < j + 1 {
                    column@[k]
                } else {
                    old_fb.pixel(px, py)
                }
            } by {
                crate::framebuffer::lemma_cell_distinct(fb.width as int, fb.height as int, px, py, screen_x as int, y as int);
                crate::framebuffer::lemma_cell_in_bounds(fb.width as int, fb.height as int, px, py);
                crate::framebuffer::lemma_cell_in_bounds(fb.width as int, fb.height as int, screen_x as int, y as int);
                assert(before.pixel(px, py) == before.pixel(px, py));
                if px == screen_x && py == y {
                    assert(fb.pixel(px, py) == column@[j as int]);
                    assert(py - wall_row(fb.height as int, column_height as int, 0) == j);
                } else {
                    assert(fb.pixel(px, py) == before.pixel(px, py));
                }
            }
        }
        j = j + 1;
    }
}

/// Starts a frame: clears it to `BACKGROUND_COLOR`, then paints the minimap.
pub fn begin_frame(fb: &mut Framebuffer, map: &TileMap, walls: &Texture)
    requires
        old(fb).width * old(fb).height <= usize::MAX,
        map.wf(),
        walls.wf(),
        map.width > 0,
        map.height > 0,
        walls_in_atlas(map, walls),
    ensures
        final(fb).wf(),
        final(fb).width == old(fb).width,
        final(fb).height == old(fb).height,
        forall|px: int, py: int|
            0 <= px < old(fb).width && 0 <= py < old(fb).height ==> #[trigger] final(fb).pixel(px, py) == match minimap_pixel(
                map,
                walls,
                minimap_cell_width(old(fb).width as int, map.width as int),
                minimap_cell_height(old(fb).height as int, map.height as int),
                px,
                py,
            ) {
                Some(c) => c,
                None => BACKGROUND_COLOR,
            },
{
    fb.clear(BACKGROUND_COLOR);
    let ghost cleared = *fb;
    draw_minimap(fb, map, walls);
    assert forall|px: int, py: int| 0 <= px < fb.width && 0 <= py < fb.height implies cleared.pixel(px, py) == BACKGROUND_COLOR by {
        crate::framebuffer::lemma_cell_in_bounds(fb.width as int, fb.height as int, px, py);
    }
}

/// Draws the wall that a ray of screen column `column` met at `sample`, and records the
/// wall's height for that column in `depth`. `offset` is the hit point's offset from the
/// centre of its cell along the struck face, scaled to texture pixels and truncated;
/// `column_height` is the wall's projected height. The column is drawn at
/// `fb.width / 2 + column`, in the right half of the frame.
pub fn draw_wall_hit(
    fb: &mut Framebuffer,
    map: &TileMap,
    walls: &Texture,
    sample: RaySample,
    offset: i32,
    column_height: usize,
    column: usize,
    depth: &mut Vec<usize>,
)
    requires
        old(fb).wf(),
        map.wf(),
        walls.wf(),
        walls_in_atlas(map, walls),
        hits(map, sample),
        -(walls.size as int) < offset < walls.size,
        column < old(fb).width / 2,
        old(depth)@.len() == old(fb).width / 2,
    ensures
        final(fb).wf(),
        final(fb).width == old(fb).width,
        final(fb).height == old(fb).height,
        final(depth)@ == old(depth)@.update(column as int, column_height),
        forall|px: int, py: int|
            0 <= px < old(fb).width && 0 <= py < old(fb).height ==> #[trigger] final(fb).pixel(px, py) == {
                let j = py - wall_row(old(fb).height as int, column_height as int, 0);
                if px == old(fb).width / 2 + column && 0 <= j < column_height {
                    walls.scaled_column(
                        digit_value(map.tile(sample.cell_x as int, sample.cell_y as int)),
                        if offset < 0 { offset + walls.size } else { offset as int },
                        column_height as int,
                    )[j]
                } else {
                    old(fb).pixel(px, py)
                }
            },
{
    let texture_id: usize = map.get(sample.cell_x, sample.cell_y);
    let tex_x: usize = wall_texture_coordinate(offset, walls.size);
    let screen_x: usize = fb.width / 2 + column;
    draw_wall_column(fb, walls, texture_id, tex_x, column_height, screen_x);
    depth.set(column, column_height);
}

/// On a map without walls no sample of any ray hits: marching draws no wall and leaves
/// the frame as it was but for the marks of the ray on the minimap.
pub proof fn lemma_empty_map_no_hit(map: &TileMap, samples: Seq<RaySample>)
    requires
        map.wf(),
        forall|x: int, y: int| 0 <= x < map.width && 0 <= y < map.height ==> #[trigger] map.tile(x, y) == crate::map::EMPTY_TILE,
    ensures
        no_hit_before(map, samples, samples.len() as int),
{
    assert forall|i: int| 0 <= i < samples.len() implies !hits(map, #[trigger] samples[i]) by {
        let s = samples[i];
        if 0 <= s.cell_x < map.width && 0 <= s.cell_y < map.height {
            assert(map.tile(s.cell_x as int, s.cell_y as int) == crate::map::EMPTY_TILE);
        }
    }
}

/// The largest side, in pixels, that a sprite is drawn with.
pub const MAX_SPRITE_SIZE: i32 = 1000;

/// The side of a sprite on screen: its projected size, capped.
pub open spec fn screen_size(projected: int) -> int {
    if projected < MAX_SPRITE_SIZE {
        projected
    } else {
        MAX_SPRITE_SIZE as int
    }
}

/// The frame row of a sprite's top edge: half of `fb_height - size`, rounded toward zero,
/// so that the sprite is centred vertically.
pub open spec fn sprite_top(fb_height: int, size: int) -> int {
    if fb_height >= size {
        (fb_height - size) / 2
    } else {
        -((size - fb_height) / 2)
    }
}

/// What a sprite of side `size`, drawn with texture `texture_id` and its left edge
/// `h_offset` pixels into the right half of the frame, shows at pixel `(px, py)`: its
/// texture resampled to the square, where the pixel lies in the square and in the right
/// half, and no wall of the recorded column heights `depth` is nearer (taller) there.
pub open spec fn sprite_pixel(
    fb: &Framebuffer,
    sprites: &Texture,
    texture_id: int,
    size: int,
    h_offset: int,
    depth: Seq<usize>,
    px: int,
    py: int,
) -> Option<u32> {
    let half = fb.width as int / 2;
    let i = px - half - h_offset;
    let j = py - sprite_top(fb.height as int, size);
    if half <= px < 2 * half && 0 <= i < size && 0 <= j < size && depth[px - half] <= size {
        Some(
            sprites.texel(
                source_row(i, sprites.size as int, size),
                source_row(j, sprites.size as int, size),
                texture_id,
            ),
        )
    } else {
        None
    }
}

/// The side of a sprite on screen from its projected side: never more than
/// `MAX_SPRITE_SIZE`, and the projected side itself whenever that is smaller.
pub fn sprite_screen_size(projected: i32) -> (size: i32)
    ensures
        size == screen_size(projected as int),
        size <= MAX_SPRITE_SIZE,
        projected < MAX_SPRITE_SIZE ==> size == projected,
{
    if projected < MAX_SPRITE_SIZE {
        projected
    } else {
        MAX_SPRITE_SIZE
    }
}

/// The row of a resampled square `size` pixels wide that shows source row `i`, with
/// the arithmetic kept from overflow.
fn resampled_row(i: i32, tex_size: usize, size: i32) -> (r: usize)
    requires
        0 <= i < size,
        tex_size >= 1,
    ensures
        r == source_row(i as int, tex_size as int, size as int),
        r < tex_size,
{
    proof {
        crate::texture::lemma_source_row_bound(i as int, tex_size as int, size as int);
        assert(i * tex_size <= 0x8000_0000int * 0xffff_ffff_ffff_ffffint) by (nonlinear_arith)
            requires
                0 <= i <= 0x8000_0000int,
                tex_size <= 0xffff_ffff_ffff_ffffint,
        ;
    }
    ((i as u128) * (tex_size as u128) / (size as u128)) as usize
}

/// Draws a sprite: a square of side `sprite_screen_size(projected_size)` whose left edge
/// stands `h_offset` pixels into the right half of the frame, centred vertically, showing
/// texture `texture_id` resampled to the square. Pixels outside the right half or the
/// frame are clipped, and so are those of a screen column where the recorded wall
/// column `depth` is taller than the sprite, that is nearer.
pub fn draw_sprite(
    fb: &mut Framebuffer,
    sprites: &Texture,
    texture_id: usize,
    projected_size: i32,
    h_offset: i32,
    depth: &Vec<usize>,
)
    requires
        old(fb).wf(),
        sprites.wf(),
        texture_id < sprites.count,
        depth@.len() == old(fb).width / 2,
    ensures
        final(fb).wf(),
        final(fb).width == old(fb).width,
        final(fb).height == old(fb).height,
        forall|px: int, py: int|
            0 <= px < old(fb).width && 0 <= py < old(fb).height ==> #[trigger] final(fb).pixel(px, py) == match sprite_pixel(
                old(fb),
                sprites,
                texture_id as int,
                screen_size(projected_size as int),
                h_offset as int,
                depth@,
                px,
                py,
            ) {
                Some(c) => c,
                None => old(fb).pixel(px, py),
            },
{
    let ghost old_fb = *fb;
    let size: i32 = sprite_screen_size(projected_size);
    let half: usize = fb.width / 2;
    let height: i128 = fb.height as i128;
    let top: i128 = if height >= size as i128 {
        (height - size as i128) / 2
    } else {
        -((size as i128 - height) / 2)
    };
    let mut i: i32 = 0;
    while i < size
        invariant
            fb.wf(),
            fb.width == old_fb.width,
            fb.height == old_fb.height,
            sprites.wf(),
            texture_id < sprites.count,
            depth@.len() == half,
            half == fb.width / 2,
            height == fb.height,
            top == sprite_top(fb.height as int, size as int),
            size == screen_size(projected_size as int),
            0 <= i,
            i <= size || size < 0,
            forall|px: int, py: int|
                0 <= px < fb.width && 0 <= py < fb.height ==> #[trigger] fb.pixel(px, py) == match sprite_pixel(&old_fb, sprites, texture_id as int, size as int, h_offset as int, depth@, px, py) {
                    Some(c) => if px - half - h_offset < i { c } else { old_fb.pixel(px, py) },
                    None => old_fb.pixel(px, py),
                },
        decreases size - i,
    {
        let k: i64 = h_offset as i64 + i as i64;
        if k >= 0 && k < half as i64 && depth[k as usize] <= size as usize {
            let screen_x: usize = half + k as usize;
            let u: usize = resampled_row(i, sprites.size, size);
            assert forall|px: int, py: int| 0 <= px < fb.width && 0 <= py < fb.height implies #[trigger] fb.pixel(px, py) == match sprite_pixel(&old_fb, sprites, texture_id as int, size as int, h_offset as int, depth@, px, py) {
                Some(c) => if px - half - h_offset < i || (px - half - h_offset == i && py - top < 0) {
                    c
                } else {
                    old_fb.pixel(px, py)
                },
                None => old_fb.pixel(px, py),
            } by {
                assert(fb.pixel(px, py) == fb.pixel(px, py));
            }
            let mut j: i32 = 0;
            while j < size
                invariant
                    fb.wf(),
                    fb.width == old_fb.width,
                    fb.height == old_fb.height,
                    sprites.wf(),
                    texture_id < sprites.count,
                    depth@.len() == half,
                    half == fb.width / 2,
                    height == fb.height,
                    top == sprite_top(fb.height as int, size as int),
                    size == screen_size(projected_size as int),
                    0 <= i < size,
                    0 <= j <= size,
                    k == h_offset + i,
                    0 <= k < half,
                    depth@[k as int] <= size,
                    screen_x == half + k,
                    u == source_row(i as int, sprites.size as int, size as int),
                    u < sprites.size,
                    forall|px: int, py: int|
                        0 <= px < fb.width && 0 <= py < fb.height ==> #[trigger] fb.pixel(px, py) == match sprite_pixel(&old_fb, sprites, texture_id as int, size as int, h_offset as int, depth@, px, py) {
                            Some(c) => if px - half - h_offset < i || (px - half - h_offset == i && py - top < j) {
                                c
                            } else {
                                old_fb.pixel(px, py)
                            },
                            None => old_fb.pixel(px, py),
                        },
                decreases size - j,
            {
                let y: i128 = top + j as i128;
                if y >= 0 && y < height {
                    let v: usize = resampled_row(j, sprites.size, size);
                    let color: u32 = *sprites.get(u, v, texture_id);
                    let ghost before = *fb;
                    fb.set_pixel(screen_x, y as usize, color);
                    assert forall|px: int, py: int| 0 <= px < fb.width && 0 <= py < fb.height implies #[trigger] fb.pixel(px, py) == match sprite_pixel(&old_fb, sprites, texture_id as int, size as int, h_offset as int, depth@, px, py) {
                        Some(c) => if px - half - h_offset < i || (px - half - h_offset == i && py - top < j + 1) {
                            c
                        } else {
                            old_fb.pixel(px, py)
                        },
                        None => old_fb.pixel(px, py),
                    } by {
                        crate::framebuffer::lemma_cell_distinct(fb.width as int, fb.height as int, px, py, screen_x as int, y as int);
                        crate::framebuffer::lemma_cell_in_bounds(fb.width as int, fb.height as int, px, py);
                        crate::framebuffer::lemma_cell_in_bounds(fb.width as int, fb.height as int, screen_x as int, y as int);
                        assert(before.pixel(px, py) == before.pixel(px, py));
                        if px == screen_x && py == y {
                            assert(fb.pixel(px, py) == color);
                            assert(sprite_pixel(&old_fb, sprites, texture_id as int, size as int, h_offset as int, depth@, px, py) == Some(color));
                        } else {
                            assert(fb.pixel(px, py) == before.pixel(px, py));
                        }
                    }
                } else {
                    assert forall|px: int, py: int| 0 <= px < fb.width && 0 <= py < fb.height implies #[trigger] fb.pixel(px, py) == match sprite_pixel(&old_fb, sprites, texture_id as int, size as int, h_offset as int, depth@, px, py) {
                        Some(c) => if px - half - h_offset < i || (px - half - h_offset == i && py - top < j + 1) {
                            c
                        } else {
                            old_fb.pixel(px, py)
                        },
                        None => old_fb.pixel(px, py),
                    } by {
                        assert(fb.pixel(px, py) == fb.pixel(px, py));
                    }
                }
                j = j + 1;
            }
            assert forall|px: int, py: int| 0 <= px < fb.width && 0 <= py < fb.height implies #[trigger] fb.pixel(px, py) == match sprite_pixel(&old_fb, sprites, texture_id as int, size as int, h_offset as int, depth@, px, py) {
                Some(c) => if px - half - h_offset < i + 1 { c } else { old_fb.pixel(px, py) },
                None => old_fb.pixel(px, py),
            } by {
                assert(fb.pixel(px, py) == fb.pixel(px, py));
            }
        } else {
            assert forall|px: int, py: int| 0 <= px < fb.width && 0 <= py < fb.height implies #[trigger] fb.pixel(px, py) == match sprite_pixel(&old_fb, sprites, texture_id as int, size as int, h_offset as int, depth@, px, py) {
                Some(c) => if px - half - h_offset < i + 1 { c } else { old_fb.pixel(px, py) },
                None => old_fb.pixel(px, py),
            } by {
                assert(fb.pixel(px, py) == fb.pixel(px, py));
            }
        }
        i = i + 1;
    }
    assert forall|px: int, py: int| 0 <= px < fb.width && 0 <= py < fb.height implies #[trigger] fb.pixel(px, py) == match sprite_pixel(&old_fb, sprites, texture_id as int, size as int, h_offset as int, depth@, px, py) {
        Some(c) => c,
        None => old_fb.pixel(px, py),
    } by {
        assert(fb.pixel(px, py) == fb.pixel(px, py));
    }
}

} // verus!
