//! The map aggregate: one level's named, identified tile grid together with
//! its sprite-sheet reference, and the read-only projections the game and
//! the editor derive from it.

use vstd::prelude::*;

use crate::settings::GameSettings;
use crate::tile_coords::coord_to_screen_pos;
use crate::tile_coords::lemma_grid_projectable;
use crate::tile_coords::screen_x_of;
use crate::tile_coords::screen_y_of;
use crate::tile_coords::ScreenPos;
use crate::tile_coords::TileCoords;
use crate::tile_data::desc_in_bounds;
use crate::tile_data::desc_key;
use crate::tile_data::iteration;
use crate::tile_data::TileData;
use crate::tile_data::TileDataError;

verus! {

/// Semantic tag a tile may carry beyond its sprite.
#[derive(Clone, Copy, Debug, PartialEq, Eq, Structural)]
pub enum TileType {
    Wall,
    Door,
    Item,
    Enemy,
    NPC,
}

/// One cell's content: the sprite sheet index painted there (none for a
/// blank cell), the cell's grid coordinates, and an optional semantic tag.
#[derive(Clone, Copy, Debug, PartialEq, Eq)]
pub struct TileDesc {
    pub tile_index: Option<u32>,
    pub coords: TileCoords,
    pub metadata: Option<TileType>,
}

impl TileDesc {
    pub fn new(index: Option<u32>, coords: TileCoords, metadata: Option<TileType>) -> (t: TileDesc)
        ensures
            t == (TileDesc { tile_index: index, coords, metadata }),
    {
        TileDesc { tile_index: index, coords, metadata }
    }
}

/// A sprite placement instruction for the renderer: a signed cell offset,
/// a render layer, and the sprite to draw there, if any.
#[derive(Clone, Copy, Debug, PartialEq, Eq)]
pub struct TilePlacement {
    pub x: i32,
    pub y: i32,
    pub z: i32,
    pub sprite_index: Option<u32>,
}

/// One level: a named, identified tile grid with its sprite-sheet
/// reference. The grid is owned exclusively by the screen.
pub struct MapScreen {
    pub map_name: String,
    pub map_id: u128,
    pub tile_set: Option<String>,
    pub tile_rows: u32,
    pub tile_cols: u32,
    pub tile_data: TileData,
}

/// Relies on uuid::Uuid::new_v4 for a freshly drawn random identifier;
/// nothing is promised of the value, as it depends on the process's
/// randomness.
#[verifier::external_body]
fn fresh_map_id() -> u128 {
    uuid::Uuid::new_v4().as_u128()
}

/// Both grid indices of the descriptor fit the signed 32-bit range the
/// renderer works in.
pub open spec fn coords_fit(t: TileDesc) -> bool {
    &&& t.coords.xs() <= i32::MAX
    &&& t.coords.ys() <= i32::MAX
}

/// The placement instruction a descriptor turns into.
pub open spec fn placement_of(t: TileDesc, z: i32) -> TilePlacement {
    TilePlacement {
        x: t.coords.xs() as i32,
        y: t.coords.ys() as i32,
        z,
        sprite_index: t.tile_index,
    }
}

/// The screen positions of the wall-tagged descriptors of a batch, in
/// batch order.
pub open spec fn wall_projection(s: Seq<TileDesc>, set: GameSettings, z: i32) -> Seq<ScreenPos>
    decreases s.len(),
{
    if s.len() == 0 {
        Seq::empty()
    } else {
        let rest = wall_projection(s.drop_first(), set, z);
        if s[0].metadata == Some(TileType::Wall) {
            seq![
                ScreenPos {
                    x: screen_x_of(set, s[0].coords.xs() as int) as i32,
                    y: screen_y_of(set, s[0].coords.ys() as int) as i32,
                    z,
                },
            ] + rest
        } else {
            rest
        }
    }
}

impl Default for MapScreen {
    /// A blank, unnamed screen with the default sprite-sheet shape and an
    /// empty zero-sized grid.
    fn default() -> (m: MapScreen)
        ensures
            m.map_name@ == Seq::<char>::empty(),
            m.map_id == 0,
            m.tile_set is None,
            m.tile_rows == 24,
            m.tile_cols == 18,
            m.tile_data.max_x_spec() == 0,
            m.tile_data.max_y_spec() == 0,
            m.tile_data.tiles() == Map::<u64, TileDesc>::empty(),
            m.tile_data.consistent(),
    {
        MapScreen {
            map_name: String::new(),
            map_id: 0,
            tile_set: None,
            tile_rows: 24,
            tile_cols: 18,
            tile_data: TileData::default(),
        }
    }
}

impl MapScreen {
    /// A fresh screen with a newly drawn identifier and an empty grid; the
    /// editor sizes the grid afterwards.
    pub fn new(rows: u32, cols: u32, map_name: Option<&str>, filename: Option<&str>) -> (m:
        MapScreen)
        ensures
            m.tile_rows == rows,
            m.tile_cols == cols,
            m.map_name@ == (match map_name {
                Some(n) => n@,
                None => Seq::<char>::empty(),
            }),
            m.tile_set matches Some(p) && p@ == (match filename {
                Some(f) => f@,
                None => Seq::<char>::empty(),
            }),
            m.tile_data.max_x_spec() == 0,
            m.tile_data.max_y_spec() == 0,
            m.tile_data.tiles() == Map::<u64, TileDesc>::empty(),
            m.tile_data.consistent(),
    {
        let name: String = match map_name {
            Some(n) => n.to_owned(),
            None => String::new(),
        };
        let set: String = match filename {
            Some(f) => f.to_owned(),
            None => String::new(),
        };
        MapScreen {
            map_name: name,
            map_id: fresh_map_id(),
            tile_set: Some(set),
            tile_rows: rows,
            tile_cols: cols,
            tile_data: TileData::default(),
        }
    }

    /// Gives the screen a new name, touching nothing else.
    pub fn rename(&mut self, name: &str)
        ensures
            final(self).map_name@ == name@,
            final(self).map_id == old(self).map_id,
            final(self).tile_set == old(self).tile_set,
            final(self).tile_rows == old(self).tile_rows,
            final(self).tile_cols == old(self).tile_cols,
            final(self).tile_data == old(self).tile_data,
    {
        self.map_name = name.to_owned();
    }

    /// Points the screen at another sprite sheet; the grid itself is not
    /// altered.
    pub fn set_tile_set_path(&mut self, path: Option<String>)
        ensures
            final(self).tile_set == path,
            final(self).map_name == old(self).map_name,
            final(self).map_id == old(self).map_id,
            final(self).tile_rows == old(self).tile_rows,
            final(self).tile_cols == old(self).tile_cols,
            final(self).tile_data == old(self).tile_data,
    {
        self.tile_set = path;
    }

    /// Paints one cell: stores a descriptor with the given sprite index and
    /// tag at the given coordinates, propagating the grid's bounds check.
    pub fn paint_tile(&mut self, coords: TileCoords, sprite_index: u32, tag: Option<TileType>) -> (r:
        Result<(), TileDataError>)
        ensures
            ({
                let t = TileDesc { tile_index: Some(sprite_index), coords, metadata: tag };
                &&& desc_in_bounds(
                    t,
                    old(self).tile_data.max_x_spec(),
                    old(self).tile_data.max_y_spec(),
                ) ==> (r is Ok && final(self).tile_data.tiles() == old(
                    self,
                ).tile_data.tiles().insert(desc_key(t), t))
                &&& !desc_in_bounds(
                    t,
                    old(self).tile_data.max_x_spec(),
                    old(self).tile_data.max_y_spec(),
                ) ==> (r == Err::<(), TileDataError>(
                    TileDataError::OutOfBoundsError(
                        coords.xs(),
                        coords.ys(),
                        old(self).tile_data.max_x_spec(),
                        old(self).tile_data.max_y_spec(),
                    ),
                ) && final(self).tile_data == old(self).tile_data)
            }),
            final(self).tile_data.max_x_spec() == old(self).tile_data.max_x_spec(),
            final(self).tile_data.max_y_spec() == old(self).tile_data.max_y_spec(),
            old(self).tile_data.consistent() ==> final(self).tile_data.consistent(),
            final(self).map_name == old(self).map_name,
            final(self).map_id == old(self).map_id,
            final(self).tile_set == old(self).tile_set,
            final(self).tile_rows == old(self).tile_rows,
            final(self).tile_cols == old(self).tile_cols,
    {
        let tile = TileDesc::new(Some(sprite_index), coords, tag);
        self.tile_data.set_tile(tile)
    }

    /// The linear sprite index of the sheet cell in the given row and
    /// column.
    pub fn sprite_index(&self, row: u32, col: u32) -> (i: u32)
        requires
            col + row * self.tile_rows <= u32::MAX,
        ensures
            i == col + row * self.tile_rows,
    {
        col + row * self.tile_rows
    }

    /// Converts every stored descriptor to a sprite placement instruction,
    /// in row-major order; yields nothing at all when any stored coordinate
    /// cannot be represented in the renderer's signed 32-bit range.
    pub fn tilemapdata_from_struct(&self, tile_z: i32) -> (r: Option<Vec<TilePlacement>>)
        ensures
            r is Some <==> (forall|j: int|
                0 <= j < iteration(self.tile_data).len() ==> coords_fit(
                    #[trigger] iteration(self.tile_data)[j],
                )),
            r matches Some(v) ==> {
                &&& v@.len() == iteration(self.tile_data).len()
                &&& forall|j: int|
                    0 <= j < v@.len() ==> v@[j] == placement_of(
                        #[trigger] iteration(self.tile_data)[j],
                        tile_z,
                    )
            },
    {
        let ghost total = iteration(self.tile_data);
        let mut it = self.tile_data.iter();
        let mut out: Vec<TilePlacement> = Vec::new();
        proof {
            assert(it.remaining() =~= total.skip(0));
        }
        loop
            invariant
                it.wf(),
                it.source() == self.tile_data,
                total == iteration(self.tile_data),
                out@.len() <= total.len(),
                it.remaining() == total.skip(out@.len() as int),
                forall|j: int|
                    0 <= j < out@.len() ==> coords_fit(#[trigger] total[j]) && out@[j]
                        == placement_of(total[j], tile_z),
            ensures
                out@.len() == total.len(),
                forall|j: int|
                    0 <= j < out@.len() ==> coords_fit(#[trigger] total[j]) && out@[j]
                        == placement_of(total[j], tile_z),
            decreases it.remaining().len(),
        {
            let ghost n = out@.len() as int;
            let t = match it.next() {
                Some(t) => t,
                None => { break },
            };
            assert(*t == total[n]);
            let x = t.coords.x();
            let y = t.coords.y();
            if x > (i32::MAX as u32) || y > (i32::MAX as u32) {
                assert(!coords_fit(total[n]));
                return None;
            }
            out.push(
                TilePlacement { x: x as i32, y: y as i32, z: tile_z, sprite_index: t.tile_index },
            );
            proof {
                assert(total.skip(n).drop_first() =~= total.skip(n + 1));
            }
        }
        Some(out)
    }

    /// Projects every wall-tagged descriptor through the coordinate
    /// transform, for collision geometry: a pure read at the game's render
    /// layer.
    pub fn get_wallmap(&self, settings: &GameSettings) -> (r: Vec<ScreenPos>)
        requires
            settings.wf(),
            self.tile_data.consistent(),
            self.tile_data.max_x_spec() <= settings.game_area_tile_x_max,
            self.tile_data.max_y_spec() <= settings.game_area_tile_y_max,
        ensures
            r@ == wall_projection(iteration(self.tile_data), *settings, settings.game_z),
    {
        let ghost total = iteration(self.tile_data);
        let ghost z = settings.game_z;
        proof {
            crate::tile_data::lemma_iteration_in_bounds(self.tile_data);
        }
        let mut it = self.tile_data.iter();
        let mut out: Vec<ScreenPos> = Vec::new();
        let ghost mut n: int = 0;
        proof {
            assert(it.remaining() =~= total.skip(0));
            assert(out@ + wall_projection(total.skip(0), *settings, z) =~= wall_projection(
                total,
                *settings,
                z,
            ));
        }
        loop
            invariant
                it.wf(),
                it.source() == self.tile_data,
                settings.wf(),
                z == settings.game_z,
                self.tile_data.max_x_spec() <= settings.game_area_tile_x_max,
                self.tile_data.max_y_spec() <= settings.game_area_tile_y_max,
                total == iteration(self.tile_data),
                0 <= n <= total.len(),
                it.remaining() == total.skip(n),
                out@ + wall_projection(total.skip(n), *settings, z) == wall_projection(
                    total,
                    *settings,
                    z,
                ),
                forall|j: int|
                    0 <= j < total.len() ==> desc_in_bounds(
                        #[trigger] total[j],
                        self.tile_data.max_x_spec(),
                        self.tile_data.max_y_spec(),
                    ),
            ensures
                out@ == wall_projection(total, *settings, z),
            decreases it.remaining().len(),
        {
            let ghost n0 = n;
            let t = match it.next() {
                Some(t) => t,
                None => {
                    proof {
                        assert(total.skip(n).len() == 0);
                        assert(out@ + wall_projection(total.skip(n), *settings, z) =~= out@);
                    }
                    break
                },
            };
            assert(*t == total[n0]);
            proof {
                n = n + 1;
                assert(total.skip(n0).drop_first() =~= total.skip(n));
            }
            let is_wall = match t.metadata {
                Some(TileType::Wall) => true,
                _ => false,
            };
            if is_wall {
                proof {
                    lemma_grid_projectable(*settings, t.coords.xs(), t.coords.ys());
                }
                let p = coord_to_screen_pos(t.coords.x(), t.coords.y(), settings.game_z, settings);
                out.push(p);
                proof {
                    assert(wall_projection(total.skip(n0), *settings, z) == seq![
                        ScreenPos {
                            x: screen_x_of(*settings, total[n0].coords.xs() as int) as i32,
                            y: screen_y_of(*settings, total[n0].coords.ys() as int) as i32,
                            z,
                        },
                    ] + wall_projection(total.skip(n), *settings, z));
                    assert(out@ + wall_projection(total.skip(n), *settings, z) =~= wall_projection(
                        total,
                        *settings,
                        z,
                    ));
                }
            } else {
                proof {
                    assert(wall_projection(total.skip(n0), *settings, z) == wall_projection(
                        total.skip(n),
                        *settings,
                        z,
                    ));
                }
            }
        }
        out
    }
}

} // verus!
