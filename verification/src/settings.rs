//! Screen layout derived from the declarative settings.
//!
//! Every derived quantity is a pure function of the six inputs
//! `(scale, grid width, grid height, tile width, tile height, editor flag)`.
//! Margins are computed with floor semantics, deliberately: the top margin is
//! a fifth of the playable height rounded down, and the editor's side panel
//! is half of the playable width rounded down.

use vstd::prelude::*;

verus! {

/// Raw numeric configuration, as read at startup.
///
/// Grid extents and pixel sizes are whole numbers of tiles and pixels;
/// the z layers are passed through to the renderer untouched.
#[derive(Clone, Copy, Debug, PartialEq)]
pub struct SettingsFile {
    pub scale: u32,
    pub x_max: u32,
    pub y_max: u32,
    pub tile_width: u32,
    pub tile_height: u32,
    pub tile_z: i32,
    pub game_z: i32,
}

/// Pixel-space geometry of the application window, derived once from a
/// [`SettingsFile`] and never mutated afterwards: any settings change
/// requires rebuilding the whole value.
#[derive(Clone, Copy, Debug, PartialEq)]
pub struct GameSettings {
    pub scale: u32,
    pub game_area_tile_x_max: u32,
    pub game_area_tile_y_max: u32,
    pub tile_width: u32,
    pub tile_height: u32,
    pub game_area_x_res: i32,
    pub game_area_y_res: i32,
    pub top_margin: i32,
    pub left_margin: i32,
    pub viewport_height: i32,
    pub viewport_width: i32,
    pub game_area_x_transform: i32,
    pub game_area_y_transform: i32,
    pub game_area_x_max: i32,
    pub game_area_x_min: i32,
    pub game_area_y_max: i32,
    pub game_area_y_min: i32,
    pub tile_z: i32,
    pub game_z: i32,
    pub is_editor: bool,
}

/// Width in pixels of one tile after scaling.
pub open spec fn step_x_of(scale: int, tile_width: int) -> int {
    tile_width * scale
}

/// Height in pixels of one tile after scaling.
pub open spec fn step_y_of(scale: int, tile_height: int) -> int {
    tile_height * scale
}

/// Pixel width of the playable grid.
pub open spec fn area_x_of(scale: int, x_max: int, tile_width: int) -> int {
    x_max * tile_width * scale
}

/// Pixel height of the playable grid.
pub open spec fn area_y_of(scale: int, y_max: int, tile_height: int) -> int {
    y_max * tile_height * scale
}

/// Reserved header height: a fifth of the playable height, rounded down.
pub open spec fn top_margin_of(area_y: int) -> int {
    area_y / 5
}

/// Reserved editor panel width: half the playable width, rounded down;
/// zero in game mode.
pub open spec fn left_margin_of(area_x: int, editor: bool) -> int {
    if editor {
        area_x / 2
    } else {
        0
    }
}

/// Screen x of tile `(0, 0)`'s center: the grid is centered horizontally in
/// the playable area, then shifted left by the editor panel width.
pub open spec fn x_transform_of(area_x: int, step_x: int, editor: bool) -> int {
    (step_x - area_x) / 2 - left_margin_of(area_x, editor)
}

/// Screen y of tile `(0, 0)`'s center: the grid is centered vertically, then
/// lowered by half the top margin.
pub open spec fn y_transform_of(area_y: int, step_y: int) -> int {
    (step_y - area_y - top_margin_of(area_y)) / 2
}

impl SettingsFile {
    /// The scale and tile sizes are positive and every derived pixel
    /// quantity fits in the signed 32-bit pixel space.
    pub open spec fn valid(self) -> bool {
        let area_x = area_x_of(self.scale as int, self.x_max as int, self.tile_width as int);
        let area_y = area_y_of(self.scale as int, self.y_max as int, self.tile_height as int);
        &&& self.scale >= 1
        &&& self.tile_width >= 1
        &&& self.tile_height >= 1
        &&& step_x_of(self.scale as int, self.tile_width as int) <= i32::MAX
        &&& step_y_of(self.scale as int, self.tile_height as int) <= i32::MAX
        &&& left_margin_of(area_x, true) + area_x <= i32::MAX
        &&& top_margin_of(area_y) + area_y <= i32::MAX
    }
}

impl GameSettings {
    /// Every derived field holds exactly the value the layout formulas give
    /// for the stored inputs.
    pub open spec fn wf(self) -> bool {
        let scale = self.scale as int;
        let area_x = area_x_of(scale, self.game_area_tile_x_max as int, self.tile_width as int);
        let area_y = area_y_of(scale, self.game_area_tile_y_max as int, self.tile_height as int);
        let step_x = step_x_of(scale, self.tile_width as int);
        let step_y = step_y_of(scale, self.tile_height as int);
        &&& self.input_file().valid()
        &&& self.game_area_x_res == area_x
        &&& self.game_area_y_res == area_y
        &&& self.top_margin == top_margin_of(area_y)
        &&& self.left_margin == left_margin_of(area_x, self.is_editor)
        &&& self.viewport_height == top_margin_of(area_y) + area_y
        &&& self.viewport_width == left_margin_of(area_x, self.is_editor) + area_x
        &&& self.game_area_x_transform == x_transform_of(area_x, step_x, self.is_editor)
        &&& self.game_area_y_transform == y_transform_of(area_y, step_y)
        &&& self.game_area_x_min == self.game_area_x_transform
        &&& self.game_area_y_min == self.game_area_y_transform
        &&& self.game_area_x_max == area_x + self.game_area_x_transform - step_x
        &&& self.game_area_y_max == area_y + self.game_area_y_transform - step_y
    }

    /// The inputs this layout was derived from.
    pub open spec fn input_file(self) -> SettingsFile {
        SettingsFile {
            scale: self.scale,
            x_max: self.game_area_tile_x_max,
            y_max: self.game_area_tile_y_max,
            tile_width: self.tile_width,
            tile_height: self.tile_height,
            tile_z: self.tile_z,
            game_z: self.game_z,
        }
    }

    /// Pixel width of one scaled tile.
    pub open spec fn step_x(self) -> int {
        step_x_of(self.scale as int, self.tile_width as int)
    }

    /// Pixel height of one scaled tile.
    pub open spec fn step_y(self) -> int {
        step_y_of(self.scale as int, self.tile_height as int)
    }

    /// Derives the layout from an already validated settings file.
    pub fn new_from_sf(sf: &SettingsFile, editor: bool) -> (s: GameSettings)
        requires
            sf.valid(),
        ensures
            s.wf(),
            s.input_file() == *sf,
            s.is_editor == editor,
    {
        GameSettings::new(
            sf.scale,
            sf.x_max,
            sf.y_max,
            sf.tile_width,
            sf.tile_height,
            sf.tile_z,
            sf.game_z,
            editor,
        )
    }

    /// Derives all pixel-space geometry from the declarative inputs.
    ///
    /// Pure and total on valid inputs: the result is a function of the
    /// arguments alone, and each field is pinned to its formula.
    pub fn new(
        scale: u32,
        game_area_tile_x_max: u32,
        game_area_tile_y_max: u32,
        tile_width: u32,
        tile_height: u32,
        tile_z: i32,
        game_z: i32,
        editor: bool,
    ) -> (s: GameSettings)
        requires
            (SettingsFile {
                scale,
                x_max: game_area_tile_x_max,
                y_max: game_area_tile_y_max,
                tile_width,
                tile_height,
                tile_z,
                game_z,
            }).valid(),
        ensures
            s.wf(),
            s.input_file() == (SettingsFile {
                scale,
                x_max: game_area_tile_x_max,
                y_max: game_area_tile_y_max,
                tile_width,
                tile_height,
                tile_z,
                game_z,
            }),
            s.is_editor == editor,
    {
        proof {
            lemma_area_bounds(scale as int, game_area_tile_x_max as int, tile_width as int);
            lemma_area_bounds(scale as int, game_area_tile_y_max as int, tile_height as int);
        }
        let step_x: i64 = (tile_width as i64) * (scale as i64);
        let step_y: i64 = (tile_height as i64) * (scale as i64);

        // pixel dimensions of the playable area
        let game_area_x_res: i64 = (game_area_tile_x_max as i64) * step_x;
        let game_area_y_res: i64 = (game_area_tile_y_max as i64) * step_y;

        // how big the information section on top is
        let top_margin: i64 = game_area_y_res / 5;

        // how big the editor's tile palette panel is; the game has none
        let left_margin: i64 = if editor {
            game_area_x_res / 2
        } else {
            0
        };

        // how big the application window is
        let viewport_height: i64 = top_margin + game_area_y_res;
        let viewport_width: i64 = left_margin + game_area_x_res;

        // the x, y translation that places tile (0, 0) of the map: the grid
        // is centered in the playable area with the origin at the lower
        // left, moved down to make room for the top margin and left to make
        // room for the editor panel
        let game_area_x_transform: i64 = div2_floor(step_x - game_area_x_res) - left_margin;
        let game_area_y_transform: i64 = div2_floor(step_y - game_area_y_res - top_margin);

        // pixel positions of the walls around the playable area
        let game_area_x_max: i64 = (game_area_x_res + game_area_x_transform) - step_x;
        let game_area_x_min: i64 = game_area_x_transform;
        let game_area_y_max: i64 = (game_area_y_res + game_area_y_transform) - step_y;
        let game_area_y_min: i64 = game_area_y_transform;

        GameSettings {
            scale,
            game_area_tile_x_max,
            game_area_tile_y_max,
            tile_width,
            tile_height,
            game_area_x_res: game_area_x_res as i32,
            game_area_y_res: game_area_y_res as i32,
            top_margin: top_margin as i32,
            left_margin: left_margin as i32,
            viewport_height: viewport_height as i32,
            viewport_width: viewport_width as i32,
            game_area_x_transform: game_area_x_transform as i32,
            game_area_y_transform: game_area_y_transform as i32,
            game_area_x_max: game_area_x_max as i32,
            game_area_x_min: game_area_x_min as i32,
            game_area_y_max: game_area_y_max as i32,
            game_area_y_min: game_area_y_min as i32,
            tile_z,
            game_z,
            is_editor: editor,
        }
    }
}

/// The layout is deterministic: two layouts derived from the same inputs and
/// the same mode are equal in every field.
pub proof fn lemma_layout_deterministic(a: GameSettings, b: GameSettings)
    requires
        a.wf(),
        b.wf(),
        a.input_file() == b.input_file(),
        a.is_editor == b.is_editor,
    ensures
        a == b,
{
}

/// With a positive scale, the playable area is at least one grid of unscaled
/// tiles wide, so bounding the scaled area also bounds the partial products.
proof fn lemma_area_bounds(scale: int, count: int, tile: int)
    requires
        scale >= 1,
        tile >= 1,
        count >= 0,
        count * tile * scale <= i32::MAX,
        tile * scale <= i32::MAX,
    ensures
        0 <= count * tile <= i32::MAX,
        0 <= count * tile * scale <= i32::MAX,
        0 <= tile * scale,
        count * (tile * scale) == count * tile * scale,
{
    assert(count * tile <= count * tile * scale && 0 <= count * tile && count * (tile * scale)
        == count * tile * scale) by (nonlinear_arith)
        requires
            scale >= 1,
            tile >= 1,
            count >= 0,
    ;
}

/// Division by two rounding towards negative infinity, matching `/ 2` on
/// spec-level integers.
fn div2_floor(a: i64) -> (r: i64)
    requires
        i64::MIN < a,
    ensures
        r == a as int / 2,
{
    if a >= 0 {
        a / 2
    } else {
        (a - 1) / 2
    }
}

} // verus!
