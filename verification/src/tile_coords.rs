//! Tile coordinates and the two-way mapping between the discrete grid and
//! continuous screen pixel positions.
//!
//! Grid coordinates have their origin at the bottom left of the playable
//! area and are never negative; screen positions are signed pixels around
//! the engine's centered origin, except for [`top_left_to_coord`], whose
//! input has its origin at the top left of the viewport, as a pointer
//! device delivers it.

use vstd::prelude::*;

use crate::settings::GameSettings;

verus! {

/// A tile's position in the grid: a pair of non-negative integers with the
/// origin at the bottom left.
#[derive(Clone, Copy, Debug, PartialEq, Eq, Structural)]
pub struct TileCoords(pub u32, pub u32);

/// A pixel position on screen, with a render layer `z`.
#[derive(Clone, Copy, Debug, PartialEq, Eq, Structural)]
pub struct ScreenPos {
    pub x: i32,
    pub y: i32,
    pub z: i32,
}

impl TileCoords {
    /// The horizontal tile index.
    pub open spec fn xs(self) -> u32 {
        self.0
    }

    /// The vertical tile index.
    pub open spec fn ys(self) -> u32 {
        self.1
    }

    pub fn new(x: u32, y: u32) -> (c: TileCoords)
        ensures
            c.xs() == x,
            c.ys() == y,
    {
        TileCoords(x, y)
    }

    pub fn x(&self) -> (x: u32)
        ensures
            x == self.xs(),
    {
        self.0
    }

    pub fn y(&self) -> (y: u32)
        ensures
            y == self.ys(),
    {
        self.1
    }
}

/// Screen x of the center of the tile in column `x`.
pub open spec fn screen_x_of(s: GameSettings, x: int) -> int {
    x * s.step_x() + s.game_area_x_transform
}

/// Screen y of the center of the tile in row `y`.
pub open spec fn screen_y_of(s: GameSettings, y: int) -> int {
    y * s.step_y() + s.game_area_y_transform
}

/// The tile at `(x, y)` projects into the signed 32-bit pixel space.
pub open spec fn projectable(s: GameSettings, x: int, y: int) -> bool {
    &&& screen_x_of(s, x) <= i32::MAX
    &&& screen_y_of(s, y) <= i32::MAX
}

/// The tile a centered-origin screen position falls in, or none when the
/// position lies below or left of tile `(0, 0)`.
pub open spec fn coord_of_screen(s: GameSettings, px: int, py: int) -> Option<TileCoords> {
    if px >= s.game_area_x_transform && py >= s.game_area_y_transform {
        Some(
            TileCoords(
                (((px - s.game_area_x_transform) / s.step_x()) as u32),
                (((py - s.game_area_y_transform) / s.step_y()) as u32),
            ),
        )
    } else {
        None
    }
}

/// The tile a top-left-origin pointer position falls in, or none when the
/// position lies left of the editor panel's edge.
pub open spec fn coord_of_top_left(s: GameSettings, px: int, py: int) -> Option<TileCoords> {
    if px >= s.left_margin {
        Some(
            TileCoords(
                (((px - s.left_margin) / s.step_x()) as u32),
                ((vstd::math::abs(py - s.viewport_height) as int / s.step_y()) as u32),
            ),
        )
    } else {
        None
    }
}

/// A well-formed layout has scaled tile dimensions of at least one pixel,
/// each fitting the signed 32-bit pixel space.
pub proof fn lemma_wf_steps(s: GameSettings)
    requires
        s.wf(),
    ensures
        1 <= s.step_x() <= i32::MAX,
        1 <= s.step_y() <= i32::MAX,
{
    assert(s.step_x() >= 1 && s.step_y() >= 1) by (nonlinear_arith)
        requires
            s.scale >= 1,
            s.tile_width >= 1,
            s.tile_height >= 1,
            s.step_x() == s.tile_width as int * s.scale as int,
            s.step_y() == s.tile_height as int * s.scale as int,
    ;
}

/// Every coordinate inside the declared grid projects into the signed
/// 32-bit pixel space: its screen position lies within the playable bounds.
pub proof fn lemma_grid_projectable(s: GameSettings, x: u32, y: u32)
    requires
        s.wf(),
        x < s.game_area_tile_x_max,
        y < s.game_area_tile_y_max,
    ensures
        projectable(s, x as int, y as int),
        s.game_area_x_min <= screen_x_of(s, x as int) <= s.game_area_x_max,
        s.game_area_y_min <= screen_y_of(s, y as int) <= s.game_area_y_max,
{
    lemma_wf_steps(s);
    assert(0 <= x as int * s.step_x() <= (s.game_area_tile_x_max - 1) * s.step_x()
        && (s.game_area_tile_x_max - 1) * s.step_x() == s.game_area_tile_x_max as int * s.step_x()
        - s.step_x() && s.game_area_tile_x_max as int * s.step_x() == s.game_area_tile_x_max as int
        * s.tile_width as int * s.scale as int) by (nonlinear_arith)
        requires
            1 <= s.step_x(),
            x < s.game_area_tile_x_max,
            s.step_x() == s.tile_width as int * s.scale as int,
    ;
    assert(0 <= y as int * s.step_y() <= (s.game_area_tile_y_max - 1) * s.step_y()
        && (s.game_area_tile_y_max - 1) * s.step_y() == s.game_area_tile_y_max as int * s.step_y()
        - s.step_y() && s.game_area_tile_y_max as int * s.step_y() == s.game_area_tile_y_max as int
        * s.tile_height as int * s.scale as int) by (nonlinear_arith)
        requires
            1 <= s.step_y(),
            y < s.game_area_tile_y_max,
            s.step_y() == s.tile_height as int * s.scale as int,
    ;
}

/// Converts a grid coordinate (origin at the bottom left) to a screen
/// position (engine origin), passing the render layer through unchanged.
pub fn coord_to_screen_pos(x: u32, y: u32, z: i32, settings: &GameSettings) -> (p: ScreenPos)
    requires
        settings.wf(),
        projectable(*settings, x as int, y as int),
    ensures
        p.x == screen_x_of(*settings, x as int),
        p.y == screen_y_of(*settings, y as int),
        p.z == z,
{
    proof {
        lemma_wf_steps(*settings);
        lemma_mul_in_screen_range(x as int, settings.step_x());
        lemma_mul_in_screen_range(y as int, settings.step_y());
    }
    let step_x: i64 = (settings.tile_width as i64) * (settings.scale as i64);
    let step_y: i64 = (settings.tile_height as i64) * (settings.scale as i64);
    let new_x: i64 = (x as i64) * step_x + (settings.game_area_x_transform as i64);
    let new_y: i64 = (y as i64) * step_y + (settings.game_area_y_transform as i64);
    ScreenPos { x: new_x as i32, y: new_y as i32, z }
}

/// Converts a centered-origin screen position back to the tile it falls in.
/// A position below or left of tile `(0, 0)` yields no coordinate: that is
/// the bottom-left-origin boundary policy, not a fault.
pub fn screen_pos_to_coord(coords: ScreenPos, settings: &GameSettings) -> (r: Option<TileCoords>)
    requires
        settings.wf(),
    ensures
        r == coord_of_screen(*settings, coords.x as int, coords.y as int),
        r is Some <==> coords.x >= settings.game_area_x_transform && coords.y
            >= settings.game_area_y_transform,
{
    proof {
        lemma_wf_steps(*settings);
    }
    let step_x: i64 = (settings.tile_width as i64) * (settings.scale as i64);
    let step_y: i64 = (settings.tile_height as i64) * (settings.scale as i64);

    let dx: i64 = (coords.x as i64) - (settings.game_area_x_transform as i64);
    let dy: i64 = (coords.y as i64) - (settings.game_area_y_transform as i64);

    if dx >= 0 && dy >= 0 {
        proof {
            lemma_quotient_fits_u32(dx as int, step_x as int);
            lemma_quotient_fits_u32(dy as int, step_y as int);
        }
        Some(TileCoords((dx / step_x) as u32, (dy / step_y) as u32))
    } else {
        None
    }
}

/// Converts a pointer position whose origin is the top left of the viewport:
/// shifts x right of the editor panel, reflects y about the viewport height,
/// then divides by the scaled tile size.
pub fn top_left_to_coord(coords: ScreenPos, settings: &GameSettings) -> (r: Option<TileCoords>)
    requires
        settings.wf(),
    ensures
        r == coord_of_top_left(*settings, coords.x as int, coords.y as int),
        r is Some <==> coords.x >= settings.left_margin,
{
    proof {
        lemma_wf_steps(*settings);
    }
    let step_x: i64 = (settings.tile_width as i64) * (settings.scale as i64);
    let step_y: i64 = (settings.tile_height as i64) * (settings.scale as i64);

    let flipped: i64 = (coords.y as i64) - (settings.viewport_height as i64);
    let dy: i64 = if flipped < 0 {
        -flipped
    } else {
        flipped
    };
    let dx: i64 = (coords.x as i64) - (settings.left_margin as i64);

    if dx >= 0 {
        proof {
            lemma_quotient_fits_u32(dx as int, step_x as int);
            lemma_quotient_fits_u32(dy as int, step_y as int);
        }
        Some(TileCoords((dx / step_x) as u32, (dy / step_y) as u32))
    } else {
        None
    }
}

/// Mapping a tile to the screen and back returns the same tile: the two
/// transforms are inverse on every coordinate inside the grid.
pub proof fn lemma_screen_round_trip(s: GameSettings, x: u32, y: u32)
    requires
        s.wf(),
        x < s.game_area_tile_x_max,
        y < s.game_area_tile_y_max,
    ensures
        coord_of_screen(s, screen_x_of(s, x as int), screen_y_of(s, y as int)) == Some(
            TileCoords(x, y),
        ),
{
    lemma_wf_steps(s);
    lemma_grid_projectable(s, x, y);
    assert((x as int * s.step_x()) / s.step_x() == x as int) by {
        vstd::arithmetic::div_mod::lemma_div_by_multiple(x as int, s.step_x());
    }
    assert((y as int * s.step_y()) / s.step_y() == y as int) by {
        vstd::arithmetic::div_mod::lemma_div_by_multiple(y as int, s.step_y());
    }
}

/// A non-negative product of a tile index and a step stays within `i64`.
proof fn lemma_mul_in_screen_range(x: int, step: int)
    requires
        0 <= x <= u32::MAX,
        1 <= step <= i32::MAX,
    ensures
        0 <= x * step <= u32::MAX * (i32::MAX as int),
    decreases 0int,
{
    assert(0 <= x * step <= u32::MAX * (i32::MAX as int)) by (nonlinear_arith)
        requires
            0 <= x <= u32::MAX,
            1 <= step <= i32::MAX,
    ;
}

/// A pixel distance within the signed 32-bit span, divided by a positive
/// step, fits in an unsigned 32-bit tile index.
proof fn lemma_quotient_fits_u32(d: int, step: int)
    requires
        0 <= d <= u32::MAX,
        1 <= step,
    ensures
        0 <= d / step <= u32::MAX,
{
    assert(0 <= d / step <= d) by (nonlinear_arith)
        requires
            0 <= d,
            1 <= step,
    ;
}

} // verus!
