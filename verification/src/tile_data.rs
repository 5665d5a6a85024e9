//! The dense tile grid store: a bounded map from tile coordinates to tile
//! descriptors.
//!
//! Every coordinate inside the declared bounds is populated with a blank
//! descriptor at construction, so an in-bounds lookup miss can only follow
//! a later bounds change. Bounds violations are reported as typed results,
//! never a crash.

use std::collections::HashMap;

use vstd::prelude::*;

use crate::tile_coords::TileCoords;
use crate::tilemap::TileDesc;

verus! {

broadcast use vstd::std_specs::hash::group_hash_axioms;

/// A grid operation that could not be carried out.
#[derive(Debug, PartialEq, Eq)]
pub enum TileDataError {
    /// The coordinate `(x, y)` lies at or beyond the declared size
    /// `(max_x, max_y)`.
    OutOfBoundsError(u32, u32, u32, u32),
    /// The coordinate is in bounds but no descriptor is stored there; this
    /// can only happen after the declared size was grown past the stored
    /// data.
    NotFoundError(u32, u32),
    /// The requested grid dimensions are invalid: a grid must be at least
    /// one tile wide and one tile high.
    InitializationError(u32, u32),
}

/// The storage key of the cell `(x, y)`: the two indices packed into one
/// 64-bit word, an injective encoding.
pub open spec fn key_of(x: u32, y: u32) -> u64 {
    ((x as int) * 0x1_0000_0000 + (y as int)) as u64
}

/// The column a storage key addresses.
pub open spec fn key_x(k: u64) -> u32 {
    ((k as int) / 0x1_0000_0000) as u32
}

/// The row a storage key addresses.
pub open spec fn key_y(k: u64) -> u32 {
    ((k as int) % 0x1_0000_0000) as u32
}

/// Packing two indices and unpacking the result are mutually inverse.
pub proof fn lemma_key_decode(x: u32, y: u32)
    ensures
        key_x(key_of(x, y)) == x,
        key_y(key_of(x, y)) == y,
{
    let b: int = 0x1_0000_0000;
    vstd::arithmetic::div_mod::lemma_fundamental_div_mod_converse_div(
        (x as int) * b + (y as int),
        b,
        x as int,
        y as int,
    );
    vstd::arithmetic::div_mod::lemma_fundamental_div_mod_converse_mod(
        (x as int) * b + (y as int),
        b,
        x as int,
        y as int,
    );
}

/// Every 64-bit word is the key of exactly the cell it decodes to.
pub proof fn lemma_key_encode(k: u64)
    ensures
        key_of(key_x(k), key_y(k)) == k,
{
    let b: int = 0x1_0000_0000;
    vstd::arithmetic::div_mod::lemma_fundamental_div_mod(k as int, b);
}

/// The blank descriptor every cell holds until something is painted there.
pub open spec fn blank_desc(x: u32, y: u32) -> TileDesc {
    TileDesc { tile_index: None, coords: TileCoords(x, y), metadata: None }
}

/// The contents of a freshly constructed grid: every cell inside the bounds
/// holds its blank descriptor, and nothing else is stored.
pub open spec fn blank_tiles(max_x: u32, max_y: u32) -> Map<u64, TileDesc> {
    Map::new(
        |k: u64| key_x(k) < max_x && key_y(k) < max_y,
        |k: u64| blank_desc(key_x(k), key_y(k)),
    )
}

/// The storage key a descriptor belongs under: that of its coordinates.
pub open spec fn desc_key(t: TileDesc) -> u64 {
    key_of(t.coords.xs(), t.coords.ys())
}

/// The descriptor's coordinates lie inside a grid of the given size.
pub open spec fn desc_in_bounds(t: TileDesc, max_x: u32, max_y: u32) -> bool {
    t.coords.xs() < max_x && t.coords.ys() < max_y
}

/// The contents after storing the given descriptors in order, each under
/// its own coordinates; later descriptors overwrite earlier ones.
pub open spec fn apply_descs(m: Map<u64, TileDesc>, s: Seq<TileDesc>) -> Map<u64, TileDesc>
    decreases s.len(),
{
    if s.len() == 0 {
        m
    } else {
        apply_descs(m.insert(desc_key(s[0]), s[0]), s.drop_first())
    }
}

/// Storing one more descriptor after a batch is one insertion at the end.
pub(crate) proof fn lemma_apply_descs_push(m: Map<u64, TileDesc>, s: Seq<TileDesc>, t: TileDesc)
    ensures
        apply_descs(m, s.push(t)) == apply_descs(m, s).insert(desc_key(t), t),
    decreases s.len(),
{
    if s.len() == 0 {
        assert(s.push(t)[0] == t);
        assert(s.push(t).drop_first() =~= Seq::<TileDesc>::empty());
        assert(apply_descs(m, s.push(t)) == apply_descs(
            m.insert(desc_key(t), t),
            Seq::<TileDesc>::empty(),
        ));
    } else {
        assert(s.push(t)[0] == s[0]);
        assert(s.push(t).drop_first() =~= s.drop_first().push(t));
        assert(apply_descs(m, s.push(t)) == apply_descs(
            m.insert(desc_key(s[0]), s[0]),
            s.drop_first().push(t),
        ));
        lemma_apply_descs_push(m.insert(desc_key(s[0]), s[0]), s.drop_first(), t);
    }
}

/// The position of the first descriptor outside the bounds, or the batch
/// length when every descriptor is inside them.
pub open spec fn first_oob(s: Seq<TileDesc>, max_x: u32, max_y: u32) -> int
    decreases s.len(),
{
    if s.len() == 0 {
        0
    } else if !desc_in_bounds(s[0], max_x, max_y) {
        0
    } else {
        1 + first_oob(s.drop_first(), max_x, max_y)
    }
}

/// A batch whose first `i` descriptors are in bounds has its first
/// out-of-bounds descriptor no earlier than `i`, and exactly at `i` when
/// the descriptor there is out of bounds.
pub(crate) proof fn lemma_first_oob_at(s: Seq<TileDesc>, max_x: u32, max_y: u32, i: int)
    requires
        0 <= i <= s.len(),
        forall|j: int| 0 <= j < i ==> desc_in_bounds(#[trigger] s[j], max_x, max_y),
    ensures
        i < s.len() && !desc_in_bounds(s[i], max_x, max_y) ==> first_oob(s, max_x, max_y) == i,
        i == s.len() ==> first_oob(s, max_x, max_y) >= i,
    decreases i,
{
    if i > 0 {
        assert(forall|j: int|
            0 <= j < i - 1 ==> desc_in_bounds(#[trigger] s.drop_first()[j], max_x, max_y));
        lemma_first_oob_at(s.drop_first(), max_x, max_y, i - 1);
    }
}

/// A dense 2D map from tile coordinates to tile descriptors, bounded by an
/// exclusive size `(max_x, max_y)`.
pub struct TileData {
    data: HashMap<u64, TileDesc>,
    max_x: u32,
    max_y: u32,
}

impl TileData {
    /// The stored contents, keyed by packed coordinates.
    pub closed spec fn tiles(self) -> Map<u64, TileDesc> {
        self.data@
    }

    /// The declared exclusive horizontal bound.
    pub closed spec fn max_x_spec(self) -> u32 {
        self.max_x
    }

    /// The declared exclusive vertical bound.
    pub closed spec fn max_y_spec(self) -> u32 {
        self.max_y
    }

    /// The declared exclusive horizontal bound.
    pub fn bound_x(&self) -> (x: u32)
        ensures
            x == self.max_x_spec(),
    {
        self.max_x
    }

    /// The declared exclusive vertical bound.
    pub fn bound_y(&self) -> (y: u32)
        ensures
            y == self.max_y_spec(),
    {
        self.max_y
    }

    /// The coordinate lies inside the declared bounds.
    pub open spec fn in_bounds(self, x: u32, y: u32) -> bool {
        x < self.max_x_spec() && y < self.max_y_spec()
    }

    /// Every stored descriptor sits under the key of its own coordinates
    /// and inside the declared bounds. Constructors establish this;
    /// shrinking the declared size is the one operation that can break the
    /// bounds half.
    pub open spec fn consistent(self) -> bool {
        forall|x: u32, y: u32|
            self.tiles().contains_key(#[trigger] key_of(x, y)) ==> {
                &&& self.in_bounds(x, y)
                &&& self.tiles()[key_of(x, y)].coords == TileCoords(x, y)
            }
    }

    /// Creates a grid with every coordinate inside the bounds implicitly
    /// blank. A grid must be at least one tile in each dimension.
    pub fn new(max_x: u32, max_y: u32) -> (r: Result<TileData, TileDataError>)
        ensures
            max_x >= 1 && max_y >= 1 ==> (r matches Ok(td) && td.max_x_spec() == max_x
                && td.max_y_spec() == max_y && td.tiles() == blank_tiles(max_x, max_y)
                && td.consistent()),
            max_x == 0 || max_y == 0 ==> r == Err::<TileData, TileDataError>(
                TileDataError::InitializationError(max_x, max_y),
            ),
    {
        if max_x == 0 || max_y == 0 {
            return Err(TileDataError::InitializationError(max_x, max_y));
        }
        let mut td = TileData { max_x, max_y, data: HashMap::new() };
        td.populate();
        proof {
            lemma_blank_tiles_consistent(td);
        }
        Ok(td)
    }

    /// Creates a grid populated blank, then stores the given descriptors in
    /// order; later descriptors at the same coordinate overwrite earlier
    /// ones, and the first descriptor out of bounds fails the whole
    /// construction.
    pub fn from_vec(max_x: u32, max_y: u32, tiles: Vec<TileDesc>) -> (r: Result<
        TileData,
        TileDataError,
    >)
        ensures
            ({
                let fo = first_oob(tiles@, max_x, max_y);
                &&& max_x == 0 || max_y == 0 ==> r == Err::<TileData, TileDataError>(
                    TileDataError::InitializationError(max_x, max_y),
                )
                &&& max_x >= 1 && max_y >= 1 && fo == tiles@.len() ==> (r matches Ok(td)
                    && td.max_x_spec() == max_x && td.max_y_spec() == max_y && td.tiles()
                    == apply_descs(blank_tiles(max_x, max_y), tiles@) && td.consistent())
                &&& max_x >= 1 && max_y >= 1 && fo < tiles@.len() ==> r == Err::<
                    TileData,
                    TileDataError,
                >(
                    TileDataError::OutOfBoundsError(
                        tiles@[fo].coords.xs(),
                        tiles@[fo].coords.ys(),
                        max_x,
                        max_y,
                    ),
                )
            }),
    {
        let mut td = match TileData::new(max_x, max_y) {
            Ok(td) => td,
            Err(e) => {
                return Err(e);
            },
        };
        let n = tiles.len();
        for i in 0..n
            invariant
                n == tiles@.len(),
                td.max_x_spec() == max_x,
                td.max_y_spec() == max_y,
                max_x >= 1 && max_y >= 1,
                forall|j: int| 0 <= j < i ==> desc_in_bounds(#[trigger] tiles@[j], max_x, max_y),
                td.tiles() == apply_descs(blank_tiles(max_x, max_y), tiles@.take(i as int)),
                td.consistent(),
        {
            let t = tiles[i];
            match td.set_tile(t) {
                Ok(()) => {
                    proof {
                        lemma_apply_descs_push(
                            blank_tiles(max_x, max_y),
                            tiles@.take(i as int),
                            tiles@[i as int],
                        );
                        assert(tiles@.take(i as int).push(tiles@[i as int]) =~= tiles@.take(
                            i as int + 1,
                        ));
                    }
                },
                Err(e) => {
                    proof {
                        lemma_first_oob_at(tiles@, max_x, max_y, i as int);
                    }
                    return Err(e);
                },
            }
        }
        proof {
            lemma_first_oob_at(tiles@, max_x, max_y, tiles@.len() as int);
            assert(tiles@.take(tiles@.len() as int) =~= tiles@);
        }
        Ok(td)
    }

    /// Fills every cell inside the bounds with its blank descriptor.
    fn populate(&mut self)
        requires
            old(self).tiles() == Map::<u64, TileDesc>::empty(),
        ensures
            final(self).max_x_spec() == old(self).max_x_spec(),
            final(self).max_y_spec() == old(self).max_y_spec(),
            final(self).tiles() == blank_tiles(final(self).max_x_spec(), final(self).max_y_spec()),
    {
        let max_x = self.max_x;
        let max_y = self.max_y;
        for x in 0..max_x
            invariant
                self.max_x_spec() == max_x,
                self.max_y_spec() == max_y,
                self.tiles() == blank_tiles_upto(max_x, max_y, x, 0),
        {
            for y in 0..max_y
                invariant
                    x < max_x,
                    self.max_x_spec() == max_x,
                    self.max_y_spec() == max_y,
                    self.tiles() == blank_tiles_upto(max_x, max_y, x, y),
            {
                let k = key_of_exec(x, y);
                self.data.insert(k, TileDesc {
                    tile_index: None,
                    coords: TileCoords::new(x, y),
                    metadata: None,
                });
                proof {
                    lemma_key_decode(x, y);
                    assert forall|k2: u64| true implies #[trigger] blank_tiles_upto(
                        max_x,
                        max_y,
                        x,
                        (y + 1) as u32,
                    ).dom().contains(k2) == blank_tiles_upto(max_x, max_y, x, y).insert(
                        key_of(x, y),
                        blank_desc(x, y),
                    ).dom().contains(k2) by {
                        lemma_key_encode(k2);
                    }
                    assert(blank_tiles_upto(max_x, max_y, x, (y + 1) as u32) =~= blank_tiles_upto(
                        max_x,
                        max_y,
                        x,
                        y,
                    ).insert(key_of(x, y), blank_desc(x, y)));
                }
            }
            proof {
                assert(blank_tiles_upto(max_x, max_y, (x + 1) as u32, 0) =~= blank_tiles_upto(
                    max_x,
                    max_y,
                    x,
                    max_y,
                ));
            }
        }
        proof {
            assert(blank_tiles(max_x, max_y) =~= blank_tiles_upto(max_x, max_y, max_x, 0));
        }
    }

    /// The number of cells the declared bounds span.
    pub fn len(&self) -> (n: u32)
        requires
            self.max_x_spec() as int * self.max_y_spec() as int <= u32::MAX,
        ensures
            n == self.max_x_spec() as int * self.max_y_spec() as int,
    {
        proof {
            assert(self.max_y_spec() as int * self.max_x_spec() as int == self.max_x_spec() as int
                * self.max_y_spec() as int) by (nonlinear_arith);
        }
        self.max_y * self.max_x
    }

    /// The declared bounds span no cell at all.
    pub fn is_empty(&self) -> (e: bool)
        requires
            self.max_x_spec() as int * self.max_y_spec() as int <= u32::MAX,
        ensures
            e <==> self.max_x_spec() as int * self.max_y_spec() as int == 0,
    {
        self.len() == 0
    }

    /// Updates the declared bounds without reflowing stored data: stored
    /// descriptors beyond the new bounds become inaccessible, not deleted,
    /// and cells gained by growing are not populated.
    pub fn set_tilemap_size(&mut self, x: u32, y: u32)
        ensures
            final(self).max_x_spec() == x,
            final(self).max_y_spec() == y,
            final(self).tiles() == old(self).tiles(),
    {
        self.max_x = x;
        self.max_y = y;
    }

    /// Stores a descriptor at its own coordinates, rejecting coordinates at
    /// or beyond the declared bounds.
    pub fn set_tile(&mut self, tile: TileDesc) -> (r: Result<(), TileDataError>)
        ensures
            desc_in_bounds(tile, old(self).max_x_spec(), old(self).max_y_spec()) ==> (r is Ok
                && final(self).tiles() == old(self).tiles().insert(desc_key(tile), tile)),
            !desc_in_bounds(tile, old(self).max_x_spec(), old(self).max_y_spec()) ==> (r == Err::<
                (),
                TileDataError,
            >(
                TileDataError::OutOfBoundsError(
                    tile.coords.xs(),
                    tile.coords.ys(),
                    old(self).max_x_spec(),
                    old(self).max_y_spec(),
                ),
            ) && *final(self) == *old(self)),
            final(self).max_x_spec() == old(self).max_x_spec(),
            final(self).max_y_spec() == old(self).max_y_spec(),
            old(self).consistent() ==> final(self).consistent(),
            fully_populated(*old(self)) ==> fully_populated(*final(self)),
    {
        let x = tile.coords.x();
        let y = tile.coords.y();
        if x >= self.max_x || y >= self.max_y {
            return Err(TileDataError::OutOfBoundsError(x, y, self.max_x, self.max_y));
        }
        let k = key_of_exec(x, y);
        self.data.insert(k, tile);
        proof {
            lemma_key_decode(x, y);
            assert forall|x2: u32, y2: u32|
                self.tiles().contains_key(#[trigger] key_of(x2, y2)) && old(self).consistent()
                    implies self.in_bounds(x2, y2) && self.tiles()[key_of(x2, y2)].coords
                == TileCoords(x2, y2) by {
                lemma_key_decode(x2, y2);
            }
        }
        Ok(())
    }

    /// Looks a cell up, reporting a coordinate at or beyond the declared
    /// bounds distinctly from an in-bounds cell that holds nothing.
    pub fn get_tile(&self, x: &u32, y: &u32) -> (r: Result<&TileDesc, TileDataError>)
        ensures
            !self.in_bounds(*x, *y) ==> (r matches Err(e) && e == TileDataError::OutOfBoundsError(
                *x,
                *y,
                self.max_x_spec(),
                self.max_y_spec(),
            )),
            self.in_bounds(*x, *y) && self.tiles().contains_key(key_of(*x, *y)) ==> (r matches Ok(t)
                && *t == self.tiles()[key_of(*x, *y)]),
            self.in_bounds(*x, *y) && !self.tiles().contains_key(key_of(*x, *y)) ==> (r matches Err(
                e,
            ) && e == TileDataError::NotFoundError(*x, *y)),
    {
        if *x >= self.max_x || *y >= self.max_y {
            return Err(TileDataError::OutOfBoundsError(*x, *y, self.max_x, self.max_y));
        }
        let k = key_of_exec(*x, *y);
        match self.data.get(&k) {
            Some(t) => Ok(t),
            None => Err(TileDataError::NotFoundError(*x, *y)),
        }
    }
}

/// Rebuilds a grid from persisted bounds and descriptors, storing each
/// descriptor under its own coordinates; persisted data is taken as it
/// comes, without bounds checks.
pub(crate) fn from_descs_raw(max_x: u32, max_y: u32, descs: &Vec<TileDesc>) -> (td: TileData)
    ensures
        td.max_x_spec() == max_x,
        td.max_y_spec() == max_y,
        td.tiles() == apply_descs(Map::<u64, TileDesc>::empty(), descs@),
{
    let mut td = TileData { data: HashMap::new(), max_x, max_y };
    let n = descs.len();
    for i in 0..n
        invariant
            n == descs@.len(),
            td.max_x_spec() == max_x,
            td.max_y_spec() == max_y,
            td.tiles() == apply_descs(Map::<u64, TileDesc>::empty(), descs@.take(i as int)),
    {
        let t = descs[i];
        let k = key_of_exec(t.coords.x(), t.coords.y());
        td.data.insert(k, t);
        proof {
            lemma_apply_descs_push(
                Map::<u64, TileDesc>::empty(),
                descs@.take(i as int),
                descs@[i as int],
            );
            assert(descs@.take(i as int).push(descs@[i as int]) =~= descs@.take(i as int + 1));
        }
    }
    proof {
        assert(descs@.take(n as int) =~= descs@);
    }
    td
}

/// The blank contents of all cells that precede column `x`, together with
/// the first `y` cells of column `x` itself.
pub open spec fn blank_tiles_upto(max_x: u32, max_y: u32, x: u32, y: u32) -> Map<u64, TileDesc> {
    Map::new(
        |k: u64|
            key_y(k) < max_y && (key_x(k) < x || (key_x(k) == x && key_y(k) < y)) && key_x(k)
                < max_x,
        |k: u64| blank_desc(key_x(k), key_y(k)),
    )
}

/// A freshly populated grid is consistent.
proof fn lemma_blank_tiles_consistent(td: TileData)
    requires
        td.tiles() == blank_tiles(td.max_x_spec(), td.max_y_spec()),
    ensures
        td.consistent(),
{
    assert forall|x: u32, y: u32| td.tiles().contains_key(#[trigger] key_of(x, y)) implies td
        .in_bounds(x, y) && td.tiles()[key_of(x, y)].coords == TileCoords(x, y) by {
        lemma_key_decode(x, y);
    }
}

/// The number of cells the declared bounds span, as a mathematical
/// integer.
pub open spec fn total_cells(td: TileData) -> int {
    td.max_x_spec() as int * td.max_y_spec() as int
}

/// The stored descriptors from flattened position `p` onwards, in ascending
/// row-major order (by x, then by y); positions whose cell holds nothing
/// are skipped.
pub open spec fn iteration_from(td: TileData, p: int) -> Seq<TileDesc>
    decreases total_cells(td) - p,
{
    if p < 0 || p >= total_cells(td) || td.max_y_spec() == 0 {
        Seq::empty()
    } else {
        let x = ((p / td.max_y_spec() as int) as u32);
        let y = ((p % td.max_y_spec() as int) as u32);
        let rest = iteration_from(td, p + 1);
        if td.tiles().contains_key(key_of(x, y)) {
            seq![td.tiles()[key_of(x, y)]] + rest
        } else {
            rest
        }
    }
}

/// All stored descriptors of a grid, in ascending row-major order.
pub open spec fn iteration(td: TileData) -> Seq<TileDesc> {
    iteration_from(td, 0)
}

/// Every cell inside the declared bounds holds a descriptor, as is the case
/// from construction until the declared size is grown.
pub open spec fn fully_populated(td: TileData) -> bool {
    forall|x: u32, y: u32| td.in_bounds(x, y) ==> td.tiles().contains_key(#[trigger] key_of(x, y))
}

/// A grid whose contents are the blank population of its bounds has every
/// in-bounds cell filled, as [`TileData::new`] leaves it.
pub proof fn lemma_blank_fully_populated(td: TileData)
    requires
        td.tiles() == blank_tiles(td.max_x_spec(), td.max_y_spec()),
    ensures
        fully_populated(td),
{
    assert forall|x: u32, y: u32| td.in_bounds(x, y) implies td.tiles().contains_key(
        #[trigger] key_of(x, y),
    ) by {
        lemma_key_decode(x, y);
    }
}

/// Iterating over a fully populated grid of size `w * h` yields exactly
/// `w * h` descriptors, and the one at position `p` belongs to the cell
/// `(p / h, p % h)`: the traversal is complete and ascending row-major.
pub proof fn lemma_iteration_complete(td: TileData)
    requires
        td.consistent(),
        fully_populated(td),
    ensures
        iteration(td).len() == total_cells(td),
        forall|p: int|
            0 <= p < total_cells(td) ==> (#[trigger] iteration(td)[p]).coords == TileCoords(
                ((p / td.max_y_spec() as int) as u32),
                ((p % td.max_y_spec() as int) as u32),
            ),
{
    lemma_iteration_from_full(td, 0);
    let mx = td.max_x_spec() as int;
    let my = td.max_y_spec() as int;
    assert forall|p: int| 0 <= p < total_cells(td) implies (#[trigger] iteration(td)[p]).coords
        == TileCoords(((p / my) as u32), ((p % my) as u32)) by {
        assert(my > 0) by (nonlinear_arith)
            requires
                mx * my > p >= 0,
                my >= 0,
        ;
        assert(my * mx == mx * my) by (nonlinear_arith);
        vstd::arithmetic::div_mod::lemma_multiply_divide_lt(p, my, mx);
        vstd::arithmetic::div_mod::lemma_mod_division_less_than_divisor(p, my);
        vstd::arithmetic::div_mod::lemma_div_pos_is_pos(p, my);
        let x = ((p / my) as u32);
        let y = ((p % my) as u32);
        assert(td.in_bounds(x, y));
        assert(iteration(td)[p] == td.tiles()[key_of(x, y)]);
    }
}

/// Induction step behind [`lemma_iteration_complete`]: from position `p`
/// on, a fully populated grid yields one descriptor per remaining cell.
proof fn lemma_iteration_from_full(td: TileData, p: int)
    requires
        td.consistent(),
        fully_populated(td),
        0 <= p <= total_cells(td),
    ensures
        iteration_from(td, p).len() == total_cells(td) - p,
        forall|j: int|
            0 <= j < total_cells(td) - p ==> (#[trigger] iteration_from(td, p)[j])
                == td.tiles()[key_of(
                (((p + j) / td.max_y_spec() as int) as u32),
                (((p + j) % td.max_y_spec() as int) as u32),
            )],
    decreases total_cells(td) - p,
{
    let mx = td.max_x_spec() as int;
    let my = td.max_y_spec() as int;
    if p < total_cells(td) {
        assert(my > 0) by (nonlinear_arith)
            requires
                mx * my > p >= 0,
                my >= 0,
        ;
        let x = ((p / my) as u32);
        let y = ((p % my) as u32);
        assert(my * mx == mx * my) by (nonlinear_arith);
        vstd::arithmetic::div_mod::lemma_multiply_divide_lt(p, my, mx);
        vstd::arithmetic::div_mod::lemma_mod_division_less_than_divisor(p, my);
        vstd::arithmetic::div_mod::lemma_div_pos_is_pos(p, my);
        vstd::arithmetic::div_mod::lemma_mod_bound(p, my);
        assert(td.in_bounds(x, y));
        assert(td.tiles().contains_key(key_of(x, y)));
        lemma_iteration_from_full(td, p + 1);
        assert(iteration_from(td, p) == seq![td.tiles()[key_of(x, y)]] + iteration_from(td, p + 1));
        assert forall|j: int| 0 <= j < total_cells(td) - p implies (#[trigger] iteration_from(
            td,
            p,
        )[j]) == td.tiles()[key_of(
            ((((p + j) / my)) as u32),
            ((((p + j) % my)) as u32),
        )] by {
            if j > 0 {
                assert(iteration_from(td, p)[j] == iteration_from(td, p + 1)[j - 1]);
            }
        }
    }
}

/// With a consistent grid, every descriptor the traversal yields lies
/// inside the declared bounds.
pub proof fn lemma_iteration_in_bounds(td: TileData)
    requires
        td.consistent(),
    ensures
        forall|j: int|
            0 <= j < iteration(td).len() ==> desc_in_bounds(
                #[trigger] iteration(td)[j],
                td.max_x_spec(),
                td.max_y_spec(),
            ),
{
    lemma_iteration_from_in_bounds(td, 0);
}

/// Induction step behind [`lemma_iteration_in_bounds`].
proof fn lemma_iteration_from_in_bounds(td: TileData, p: int)
    requires
        td.consistent(),
        0 <= p,
    ensures
        forall|j: int|
            0 <= j < iteration_from(td, p).len() ==> desc_in_bounds(
                #[trigger] iteration_from(td, p)[j],
                td.max_x_spec(),
                td.max_y_spec(),
            ),
    decreases total_cells(td) - p,
{
    let mx = td.max_x_spec() as int;
    let my = td.max_y_spec() as int;
    if p < total_cells(td) && my > 0 {
        let x = ((p / my) as u32);
        let y = ((p % my) as u32);
        assert(my * mx == mx * my) by (nonlinear_arith);
        vstd::arithmetic::div_mod::lemma_multiply_divide_lt(p, my, mx);
        vstd::arithmetic::div_mod::lemma_mod_division_less_than_divisor(p, my);
        vstd::arithmetic::div_mod::lemma_div_pos_is_pos(p, my);
        lemma_iteration_from_in_bounds(td, p + 1);
        if td.tiles().contains_key(key_of(x, y)) {
            assert(desc_in_bounds(td.tiles()[key_of(x, y)], td.max_x_spec(), td.max_y_spec()));
            assert(iteration_from(td, p) == seq![td.tiles()[key_of(x, y)]] + iteration_from(
                td,
                p + 1,
            ));
            assert forall|j: int| 0 <= j < iteration_from(td, p).len() implies desc_in_bounds(
                #[trigger] iteration_from(td, p)[j],
                td.max_x_spec(),
                td.max_y_spec(),
            ) by {
                if j > 0 {
                    assert(iteration_from(td, p)[j] == iteration_from(td, p + 1)[j - 1]);
                }
            }
        } else {
            assert(iteration_from(td, p) == iteration_from(td, p + 1));
            assert forall|j: int| 0 <= j < iteration_from(td, p).len() implies desc_in_bounds(
                #[trigger] iteration_from(td, p)[j],
                td.max_x_spec(),
                td.max_y_spec(),
            ) by {
                assert(iteration_from(td, p)[j] == iteration_from(td, p + 1)[j]);
            }
        }
    }
}

impl Default for TileData {
    /// An empty grid of size zero by zero, as a brand-new map screen
    /// carries before the editor sizes it.
    fn default() -> (td: TileData)
        ensures
            td.max_x_spec() == 0,
            td.max_y_spec() == 0,
            td.tiles() == Map::<u64, TileDesc>::empty(),
            td.consistent(),
    {
        TileData { data: HashMap::new(), max_x: 0, max_y: 0 }
    }
}

/// A lazy traversal of a grid's stored descriptors in ascending row-major
/// order: restartable by asking the grid for a fresh one, and finite.
pub struct TileDataIterator<'iter> {
    td: &'iter TileData,
    curr_x: u32,
    curr_y: u32,
}

impl<'iter> TileDataIterator<'iter> {
    /// The grid being traversed.
    pub closed spec fn source(self) -> TileData {
        *self.td
    }

    /// The flattened position of the cell the traversal will inspect next.
    pub closed spec fn pos(self) -> int {
        self.curr_x as int * self.source().max_y_spec() as int + self.curr_y as int
    }

    /// The cursor never sits past the end of a column.
    pub closed spec fn wf(self) -> bool {
        if self.source().max_y_spec() == 0 {
            self.curr_y == 0
        } else {
            self.curr_y < self.source().max_y_spec()
        }
    }

    /// The descriptors the traversal has yet to yield.
    pub open spec fn remaining(self) -> Seq<TileDesc> {
        iteration_from(self.source(), self.pos())
    }

    /// Yields the next stored descriptor in row-major order, or nothing
    /// once the traversal is past the last cell.
    pub fn next(&mut self) -> (r: Option<&'iter TileDesc>)
        requires
            old(self).wf(),
        ensures
            final(self).wf(),
            final(self).source() == old(self).source(),
            old(self).remaining().len() > 0 ==> (r matches Some(t) && *t == old(
                self,
            ).remaining()[0] && final(self).remaining() == old(self).remaining().drop_first()),
            old(self).remaining().len() == 0 ==> (r is None && final(self).remaining()
                == Seq::<TileDesc>::empty()),
    {
        let td: &'iter TileData = self.td;
        let max_x = td.max_x;
        let max_y = td.max_y;
        let ghost src = self.source();
        let ghost orig = self.remaining();
        if max_y == 0 {
            proof {
                assert(total_cells(src) == 0) by (nonlinear_arith)
                    requires
                        src.max_y_spec() == 0,
                        total_cells(src) == src.max_x_spec() as int * src.max_y_spec() as int,
                ;
            }
            return None;
        }
        while self.curr_x < max_x
            invariant
                self.wf(),
                self.td == td,
                self.source() == src,
                max_x == src.max_x_spec(),
                max_y == src.max_y_spec(),
                max_y > 0,
                src == old(self).source(),
                orig == old(self).remaining(),
                iteration_from(src, self.pos()) == orig,
            decreases total_cells(src) - self.pos(),
        {
            let x = self.curr_x;
            let y = self.curr_y;
            let ghost p = self.pos();
            proof {
                vstd::arithmetic::div_mod::lemma_fundamental_div_mod_converse_div(
                    p,
                    max_y as int,
                    x as int,
                    y as int,
                );
                vstd::arithmetic::div_mod::lemma_fundamental_div_mod_converse_mod(
                    p,
                    max_y as int,
                    x as int,
                    y as int,
                );
                assert(p < total_cells(src) && (x as int + 1) * max_y as int <= total_cells(src))
                    by (nonlinear_arith)
                    requires
                        x < max_x,
                        y < max_y,
                        p == x as int * max_y as int + y as int,
                        total_cells(src) == max_x as int * max_y as int,
                ;
            }
            let k = key_of_exec(x, y);
            if y + 1 < max_y {
                self.curr_y = y + 1;
            } else {
                self.curr_x = x + 1;
                self.curr_y = 0;
            }
            proof {
                assert((x as int + 1) * max_y as int == x as int * max_y as int + max_y as int)
                    by (nonlinear_arith);
                assert(self.pos() == p + 1);
            }
            match td.data.get(&k) {
                Some(t) => {
                    return Some(t);
                },
                None => {
                },
            }
        }
        proof {
            assert(self.pos() >= total_cells(src)) by (nonlinear_arith)
                requires
                    self.curr_x >= max_x,
                    self.curr_y >= 0,
                    self.pos() == self.curr_x as int * max_y as int + self.curr_y as int,
                    total_cells(src) == max_x as int * max_y as int,
                    max_y as int >= 0,
            ;
        }
        None
    }
}

impl TileData {
    /// Begins a fresh row-major traversal of the stored descriptors.
    pub fn iter(&self) -> (it: TileDataIterator)
        ensures
            it.wf(),
            it.source() == *self,
            it.remaining() == iteration(*self),
    {
        let it = TileDataIterator { td: self, curr_x: 0, curr_y: 0 };
        proof {
            assert(it.pos() == 0) by (nonlinear_arith)
                requires
                    it.pos() == 0int * self.max_y_spec() as int + 0int,
            ;
        }
        it
    }
}

/// Packs a cell's two indices into its storage key.
fn key_of_exec(x: u32, y: u32) -> (k: u64)
    ensures
        k == key_of(x, y),
{
    (x as u64) * 0x1_0000_0000u64 + (y as u64)
}

} // verus!
