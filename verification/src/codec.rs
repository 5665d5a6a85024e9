//! The persisted map-file codec: a line-oriented text format carrying the
//! map's name, identifier, sprite-sheet reference, sheet shape and grid
//! contents, together with the proof that a serialized screen parses back
//! to the same value.
//!
//! Every number is unsigned decimal followed by a single separator byte;
//! the two free-form strings (name and sprite-sheet path) are carried as a
//! byte count followed by that many raw UTF-8 bytes.

use vstd::prelude::*;

use vstd::utf8::decode_utf8;
use vstd::utf8::encode_utf8;
use vstd::utf8::valid_utf8;

use crate::tile_coords::TileCoords;
use crate::tile_data::apply_descs;
use crate::tile_data::desc_key;
use crate::tile_data::iteration;
use crate::tile_data::iteration_from;
use crate::tile_data::key_of;
use crate::tile_data::key_x;
use crate::tile_data::key_y;
use crate::tile_data::lemma_key_decode;
use crate::tile_data::lemma_key_encode;
use crate::tile_data::total_cells;
use crate::tile_data::TileData;
use crate::tilemap::MapScreen;
use crate::tilemap::TileDesc;
use crate::tilemap::TileType;

verus! {

/// A decimal digit byte.
pub open spec fn is_digit(b: u8) -> bool {
    48 <= b <= 57
}

/// The shortest decimal rendering of a non-negative number.
pub open spec fn dec_rep(n: int) -> Seq<u8>
    decreases n,
{
    if n < 10 {
        seq![(48 + n) as u8]
    } else {
        dec_rep(n / 10).push((48 + n % 10) as u8)
    }
}

/// A number's rendering consists of digit bytes and is never empty.
proof fn lemma_dec_rep_digits(n: int)
    requires
        n >= 0,
    ensures
        dec_rep(n).len() >= 1,
        forall|k: int| 0 <= k < dec_rep(n).len() ==> is_digit(#[trigger] dec_rep(n)[k]),
    decreases n,
{
    if n >= 10 {
        lemma_dec_rep_digits(n / 10);
        assert(0 <= n % 10 < 10);
        assert forall|k: int| 0 <= k < dec_rep(n).len() implies is_digit(
            #[trigger] dec_rep(n)[k],
        ) by {
            if k < dec_rep(n).len() - 1 {
                assert(dec_rep(n)[k] == dec_rep(n / 10)[k]);
            }
        }
    }
}

/// The value of a digit string read left to right into an accumulator.
pub open spec fn val_fold(s: Seq<u8>, acc: int) -> int
    decreases s.len(),
{
    if s.len() == 0 {
        acc
    } else {
        val_fold(s.drop_first(), acc * 10 + (s[0] - 48))
    }
}

/// Appending one digit multiplies the accumulated value by ten and adds it.
proof fn lemma_val_fold_push(s: Seq<u8>, acc: int, d: u8)
    ensures
        val_fold(s.push(d), acc) == val_fold(s, acc) * 10 + (d - 48),
    decreases s.len(),
{
    if s.len() == 0 {
        assert(s.push(d)[0] == d);
        assert(s.push(d).drop_first() =~= Seq::<u8>::empty());
        assert(val_fold(Seq::<u8>::empty(), acc * 10 + (d - 48)) == acc * 10 + (d - 48));
    } else {
        assert(s.push(d)[0] == s[0]);
        assert(s.push(d).drop_first() =~= s.drop_first().push(d));
        lemma_val_fold_push(s.drop_first(), acc * 10 + (s[0] - 48), d);
    }
}

/// Reading a number's rendering back yields the number.
proof fn lemma_val_fold_dec_rep(n: int)
    requires
        n >= 0,
    ensures
        val_fold(dec_rep(n), 0) == n,
    decreases n,
{
    lemma_val_fold_dec_rep_acc(n, 0);
}

/// Generalization of [`lemma_val_fold_dec_rep`] over the accumulator, so
/// that the induction goes through.
proof fn lemma_val_fold_dec_rep_acc(n: int, acc: int)
    requires
        n >= 0,
    ensures
        val_fold(dec_rep(n), acc) == acc * dec_shift(n) + n,
    decreases n,
{
    if n < 10 {
        assert(dec_rep(n)[0] == (48 + n) as u8);
        assert(dec_rep(n).drop_first() =~= Seq::<u8>::empty());
        assert(val_fold(Seq::<u8>::empty(), acc * 10 + n) == acc * 10 + n);
        assert(val_fold(dec_rep(n), acc) == acc * 10 + n);
    } else {
        lemma_val_fold_push(dec_rep(n / 10), acc, (48 + n % 10) as u8);
        lemma_val_fold_dec_rep_acc(n / 10, acc);
        assert((acc * dec_shift(n / 10) + n / 10) * 10 == acc * (dec_shift(n / 10) * 10) + (n / 10)
            * 10) by (nonlinear_arith);
        vstd::arithmetic::div_mod::lemma_fundamental_div_mod(n, 10);
    }
}

/// Ten to the power of the number of digits in the rendering.
pub open spec fn dec_shift(n: int) -> int
    decreases n,
{
    if n < 10 {
        10
    } else {
        dec_shift(n / 10) * 10
    }
}

/// The separator between fields on one line.
pub const SPACE: u8 = 32;

/// The line terminator.
pub const NEWLINE: u8 = 10;

/// Greedy decimal scan from position `i`, folding digits into `acc`:
/// yields the accumulated value and the position of the first byte that is
/// not a digit.
pub open spec fn scan_digits(bytes: Seq<u8>, i: int, acc: int) -> (int, int)
    decreases bytes.len() - i,
{
    if 0 <= i < bytes.len() && is_digit(bytes[i]) {
        scan_digits(bytes, i + 1, acc * 10 + (bytes[i] - 48))
    } else {
        (acc, i)
    }
}

/// Reads one number together with its single terminator byte; there must
/// be at least one digit, and the byte after the digits must be the
/// expected terminator.
pub open spec fn parse_num(bytes: Seq<u8>, i: int, term: u8) -> Option<(int, int)> {
    if 0 <= i < bytes.len() && is_digit(bytes[i]) {
        let (v, j) = scan_digits(bytes, i, 0);
        if j < bytes.len() && bytes[j] == term {
            Some((v, j + 1))
        } else {
            None
        }
    } else {
        None
    }
}

/// Reads `n` raw bytes.
pub open spec fn parse_raw(bytes: Seq<u8>, i: int, n: int) -> Option<(Seq<u8>, int)> {
    if 0 <= i && 0 <= n && i + n <= bytes.len() {
        Some((bytes.subrange(i, i + n), i + n))
    } else {
        None
    }
}

/// The literal occurs at position `i`.
pub open spec fn has_lit(bytes: Seq<u8>, i: int, lit: Seq<u8>) -> bool {
    0 <= i && i + lit.len() <= bytes.len() && bytes.subrange(i, i + lit.len()) == lit
}

/// Scanning a run of digits that ends at `j` folds up exactly the digits
/// of the segment.
proof fn lemma_scan_digits_seg(bytes: Seq<u8>, i: int, j: int, acc: int)
    requires
        0 <= i <= j <= bytes.len(),
        forall|k: int| i <= k < j ==> is_digit(#[trigger] bytes[k]),
        j == bytes.len() || !is_digit(bytes[j]),
    ensures
        scan_digits(bytes, i, acc) == (val_fold(bytes.subrange(i, j), acc), j),
    decreases j - i,
{
    if i < j {
        assert(bytes.subrange(i, j)[0] == bytes[i]);
        assert(bytes.subrange(i, j).drop_first() =~= bytes.subrange(i + 1, j));
        lemma_scan_digits_seg(bytes, i + 1, j, acc * 10 + (bytes[i] - 48));
    } else {
        assert(bytes.subrange(i, i) =~= Seq::<u8>::empty());
    }
}

/// The scan's value is at least the accumulator it started from, and the
/// stop position stays within the input.
proof fn lemma_scan_digits_bounds(bytes: Seq<u8>, i: int, acc: int)
    requires
        0 <= i <= bytes.len(),
        acc >= 0,
    ensures
        scan_digits(bytes, i, acc).0 >= acc,
        i <= scan_digits(bytes, i, acc).1 <= bytes.len(),
    decreases bytes.len() - i,
{
    if i < bytes.len() && is_digit(bytes[i]) {
        lemma_scan_digits_bounds(bytes, i + 1, acc * 10 + (bytes[i] - 48));
    }
}

/// A rendered number followed by its terminator parses back to the number,
/// whatever stands before and after it.
proof fn lemma_parse_num_rt(a: Seq<u8>, n: int, term: u8, b: Seq<u8>)
    requires
        n >= 0,
        !is_digit(term),
    ensures
        parse_num(a + dec_rep(n).push(term) + b, a.len() as int, term) == Some(
            (n, a.len() as int + dec_rep(n).len() as int + 1),
        ),
{
    let bytes = a + dec_rep(n).push(term) + b;
    let i = a.len() as int;
    let l = dec_rep(n).len() as int;
    lemma_dec_rep_digits(n);
    assert forall|k: int| i <= k < i + l implies is_digit(#[trigger] bytes[k]) by {
        assert(bytes[k] == dec_rep(n)[k - i]);
    }
    assert(bytes[i + l] == term);
    assert(bytes.subrange(i, i + l) =~= dec_rep(n));
    lemma_scan_digits_seg(bytes, i, i + l, 0);
    lemma_val_fold_dec_rep(n);
}


/// A rendered number with its terminator.
pub open spec fn num_tb(n: int, term: u8) -> Seq<u8> {
    dec_rep(n).push(term)
}

/// The bytes every map file begins with.
pub open spec fn magic() -> Seq<u8> {
    seq![116u8, 105u8, 108u8, 101u8, 109u8, 97u8, 112u8, 10u8]
}

/// The mathematical content of a map screen: what the persisted file
/// carries, and what parsing reconstructs.
pub ghost struct MapModel {
    pub name: Seq<char>,
    pub id: u128,
    pub tile_set: Option<Seq<char>>,
    pub rows: u32,
    pub cols: u32,
    pub max_x: u32,
    pub max_y: u32,
    pub tiles: Map<u64, TileDesc>,
}

/// The content of a map screen value.
pub open spec fn model_of(m: MapScreen) -> MapModel {
    MapModel {
        name: m.map_name@,
        id: m.map_id,
        tile_set: match m.tile_set {
            Some(s) => Some(s@),
            None => None,
        },
        rows: m.tile_rows,
        cols: m.tile_cols,
        max_x: m.tile_data.max_x_spec(),
        max_y: m.tile_data.max_y_spec(),
        tiles: m.tile_data.tiles(),
    }
}

/// The numeric code a semantic tag is stored as.
pub open spec fn tag_code(t: Option<TileType>) -> int {
    match t {
        None => 0,
        Some(TileType::Wall) => 1,
        Some(TileType::Door) => 2,
        Some(TileType::Item) => 3,
        Some(TileType::Enemy) => 4,
        Some(TileType::NPC) => 5,
    }
}

/// The semantic tag a stored code stands for, or nothing for a code the
/// format does not know.
pub open spec fn code_tag(n: int) -> Option<Option<TileType>> {
    if n == 0 {
        Some(None)
    } else if n == 1 {
        Some(Some(TileType::Wall))
    } else if n == 2 {
        Some(Some(TileType::Door))
    } else if n == 3 {
        Some(Some(TileType::Item))
    } else if n == 4 {
        Some(Some(TileType::Enemy))
    } else if n == 5 {
        Some(Some(TileType::NPC))
    } else {
        None
    }
}

/// Whether a sprite index is present: blanks store a zero in the index
/// field, which the flag tells apart from a painted index zero.
pub open spec fn index_flag(t: Option<u32>) -> int {
    match t {
        None => 0,
        Some(_) => 1,
    }
}

/// The stored sprite index value.
pub open spec fn index_val(t: Option<u32>) -> int {
    match t {
        None => 0,
        Some(v) => v as int,
    }
}

/// One grid line: the cell's coordinates, the sprite index flag and value,
/// and the tag code.
pub open spec fn ser_tile(t: TileDesc) -> Seq<u8> {
    num_tb(t.coords.xs() as int, SPACE) + num_tb(t.coords.ys() as int, SPACE) + num_tb(
        index_flag(t.tile_index),
        SPACE,
    ) + num_tb(index_val(t.tile_index), SPACE) + num_tb(tag_code(t.metadata), NEWLINE)
}

/// The grid lines of a batch of descriptors, in batch order.
pub open spec fn ser_tiles(s: Seq<TileDesc>) -> Seq<u8>
    decreases s.len(),
{
    if s.len() == 0 {
        Seq::empty()
    } else {
        ser_tile(s[0]) + ser_tiles(s.drop_first())
    }
}

/// The sprite-sheet reference line: a presence flag, the path's byte
/// count, and that many raw bytes.
pub open spec fn ser_tileset(o: Option<String>) -> Seq<u8> {
    match o {
        None => num_tb(0, SPACE) + num_tb(0, SPACE) + seq![NEWLINE],
        Some(s) => num_tb(1, SPACE) + num_tb(encode_utf8(s@).len() as int, SPACE) + encode_utf8(s@)
            + seq![NEWLINE],
    }
}

/// The full serialized form of a map screen.
pub open spec fn ser_map(m: MapScreen) -> Seq<u8> {
    ser_head(m) + ser_tail(m)
}

/// Parses one grid line.
pub open spec fn parse_tile(bytes: Seq<u8>, i: int) -> Option<(TileDesc, int)> {
    match parse_num(bytes, i, SPACE) {
        None => None,
        Some((x, i1)) => if x > u32::MAX {
            None
        } else {
            match parse_num(bytes, i1, SPACE) {
                None => None,
                Some((y, i2)) => if y > u32::MAX {
                    None
                } else {
                    match parse_num(bytes, i2, SPACE) {
                        None => None,
                        Some((flag, i3)) => if flag > 1 {
                            None
                        } else {
                            match parse_num(bytes, i3, SPACE) {
                                None => None,
                                Some((idx, i4)) => if idx > u32::MAX {
                                    None
                                } else {
                                    match parse_num(bytes, i4, NEWLINE) {
                                        None => None,
                                        Some((tg, i5)) => match code_tag(tg) {
                                            None => None,
                                            Some(md) => Some(
                                                (
                                                    TileDesc {
                                                        tile_index: if flag == 1 {
                                                            Some(idx as u32)
                                                        } else {
                                                            None
                                                        },
                                                        coords: TileCoords(x as u32, y as u32),
                                                        metadata: md,
                                                    },
                                                    i5,
                                                ),
                                            ),
                                        },
                                    }
                                },
                            }
                        },
                    }
                },
            }
        },
    }
}

/// Parses `cnt` grid lines in order.
pub open spec fn parse_tiles(bytes: Seq<u8>, i: int, cnt: int) -> Option<(Seq<TileDesc>, int)>
    decreases cnt,
{
    if cnt <= 0 {
        Some((Seq::empty(), i))
    } else {
        match parse_tile(bytes, i) {
            None => None,
            Some((t, j)) => match parse_tiles(bytes, j, cnt - 1) {
                None => None,
                Some((s, e)) => Some((seq![t] + s, e)),
            },
        }
    }
}

/// Parses a whole map file: the magic line, the name, the identifier, the
/// sprite-sheet reference, the sheet shape, the grid bounds and entry
/// count, then exactly that many grid lines, with nothing after them.
pub open spec fn spec_parse(bytes: Seq<u8>) -> Option<MapModel> {
    if !has_lit(bytes, 0, magic()) {
        None
    } else {
        match parse_num(bytes, magic().len() as int, SPACE) {
            None => None,
            Some((nlen, i1)) => match parse_raw(bytes, i1, nlen) {
                None => None,
                Some((nbytes, i2)) => if !(i2 < bytes.len() && bytes[i2] == NEWLINE) {
                    None
                } else if !valid_utf8(nbytes) {
                    None
                } else {
                    parse_after_name(bytes, i2 + 1, nbytes)
                },
            },
        }
    }
}

/// The middle of [`spec_parse`]: the identifier and the sprite-sheet
/// reference.
pub open spec fn parse_after_name(bytes: Seq<u8>, i: int, nbytes: Seq<u8>) -> Option<MapModel> {
    match parse_num(bytes, i, NEWLINE) {
        None => None,
        Some((id, i3)) => if id > u128::MAX {
            None
        } else {
            match parse_num(bytes, i3, SPACE) {
                None => None,
                Some((flag, i4)) => if flag > 1 {
                    None
                } else {
                    match parse_num(bytes, i4, SPACE) {
                        None => None,
                        Some((slen, i5)) => match parse_raw(bytes, i5, slen) {
                            None => None,
                            Some((sbytes, i6)) => if !(i6 < bytes.len() && bytes[i6] == NEWLINE) {
                                None
                            } else if flag == 1 && !valid_utf8(sbytes) {
                                None
                            } else {
                                parse_trailer(bytes, i6 + 1, nbytes, id, flag, sbytes)
                            },
                        },
                    }
                },
            }
        },
    }
}

/// The tail of [`spec_parse`]: the sheet shape, grid bounds, entry count
/// and grid lines.
pub open spec fn parse_trailer(
    bytes: Seq<u8>,
    i: int,
    nbytes: Seq<u8>,
    id: int,
    flag: int,
    sbytes: Seq<u8>,
) -> Option<MapModel> {
    match parse_num(bytes, i, NEWLINE) {
        None => None,
        Some((rows, i1)) => if rows > u32::MAX {
            None
        } else {
            match parse_num(bytes, i1, NEWLINE) {
                None => None,
                Some((cols, i2)) => if cols > u32::MAX {
                    None
                } else {
                    match parse_num(bytes, i2, SPACE) {
                        None => None,
                        Some((mx, i3)) => if mx > u32::MAX {
                            None
                        } else {
                            match parse_num(bytes, i3, SPACE) {
                                None => None,
                                Some((my, i4)) => if my > u32::MAX {
                                    None
                                } else {
                                    match parse_num(bytes, i4, NEWLINE) {
                                        None => None,
                                        Some((cnt, i5)) => if cnt > bytes.len() {
                                            None
                                        } else {
                                            match parse_tiles(bytes, i5, cnt) {
                                                None => None,
                                                Some((descs, i6)) => if i6 != bytes.len() {
                                                    None
                                                } else {
                                                    Some(
                                                        MapModel {
                                                            name: decode_utf8(nbytes),
                                                            id: id as u128,
                                                            tile_set: if flag == 1 {
                                                                Some(decode_utf8(sbytes))
                                                            } else {
                                                                None
                                                            },
                                                            rows: rows as u32,
                                                            cols: cols as u32,
                                                            max_x: mx as u32,
                                                            max_y: my as u32,
                                                            tiles: apply_descs(
                                                                Map::empty(),
                                                                descs,
                                                            ),
                                                        },
                                                    )
                                                },
                                            }
                                        },
                                    }
                                },
                            }
                        },
                    }
                },
            }
        },
    }
}


/// Appending one more descriptor's line extends the batch's rendering.
proof fn lemma_ser_tiles_push(s: Seq<TileDesc>, t: TileDesc)
    ensures
        ser_tiles(s.push(t)) == ser_tiles(s) + ser_tile(t),
    decreases s.len(),
{
    if s.len() == 0 {
        assert(s.push(t)[0] == t);
        assert(s.push(t).drop_first() =~= Seq::<TileDesc>::empty());
        assert(ser_tiles(s.push(t)) == ser_tile(t) + ser_tiles(Seq::<TileDesc>::empty()));
        assert(ser_tile(t) + Seq::<u8>::empty() =~= ser_tile(t));
        assert(Seq::<u8>::empty() + ser_tile(t) =~= ser_tile(t));
    } else {
        assert(s.push(t)[0] == s[0]);
        assert(s.push(t).drop_first() =~= s.drop_first().push(t));
        lemma_ser_tiles_push(s.drop_first(), t);
        assert(ser_tiles(s.push(t)) == ser_tile(s[0]) + (ser_tiles(s.drop_first()) + ser_tile(t)));
        assert(ser_tile(s[0]) + (ser_tiles(s.drop_first()) + ser_tile(t)) =~= (ser_tile(s[0])
            + ser_tiles(s.drop_first())) + ser_tile(t));
    }
}

/// Appends the shortest decimal rendering of a number.
fn push_dec(out: &mut Vec<u8>, n: u128)
    ensures
        final(out)@ == old(out)@ + dec_rep(n as int),
    decreases n,
{
    if n < 10 {
        out.push((48 + n as u8) as u8);
        assert(out@ =~= old(out)@ + dec_rep(n as int));
    } else {
        push_dec(out, n / 10);
        out.push((48 + (n % 10) as u8) as u8);
        assert(n as int / 10 == (n / 10) as int);
        assert(out@ =~= old(out)@ + dec_rep(n as int));
    }
}

/// Appends a rendered number and its terminator.
fn push_num_tb(out: &mut Vec<u8>, n: u128, term: u8)
    ensures
        final(out)@ == old(out)@ + num_tb(n as int, term),
{
    push_dec(out, n);
    out.push(term);
    assert(out@ =~= old(out)@ + num_tb(n as int, term));
}

/// Appends a raw byte run.
fn push_bytes(out: &mut Vec<u8>, bs: &[u8])
    ensures
        final(out)@ == old(out)@ + bs@,
{
    let n = bs.len();
    for k in 0..n
        invariant
            n == bs@.len(),
            out@ == old(out)@ + bs@.subrange(0, k as int),
    {
        out.push(bs[k]);
        proof {
            assert(bs@.subrange(0, k as int + 1) =~= bs@.subrange(0, k as int).push(
                bs@[k as int],
            ));
            assert(out@ =~= old(out)@ + bs@.subrange(0, k as int + 1));
        }
    }
    proof {
        assert(bs@.subrange(0, n as int) =~= bs@);
    }
}

/// Serializes a map screen to the persisted byte form.
pub fn serialize_map(ms: &MapScreen) -> (r: Vec<u8>)
    ensures
        r@ == ser_map(*ms),
{
    let mut out: Vec<u8> = Vec::new();
    // the magic line
    out.push(116);
    out.push(105);
    out.push(108);
    out.push(101);
    out.push(109);
    out.push(97);
    out.push(112);
    out.push(10);
    assert(out@ =~= magic());

    // the name, as a byte count and that many raw bytes
    let nbytes = ms.map_name.as_str().as_bytes();
    push_num_tb(&mut out, nbytes.len() as u128, SPACE);
    push_bytes(&mut out, nbytes);
    out.push(NEWLINE);

    // the identifier
    push_num_tb(&mut out, ms.map_id, NEWLINE);

    // the sprite-sheet reference
    match &ms.tile_set {
        None => {
            push_num_tb(&mut out, 0, SPACE);
            push_num_tb(&mut out, 0, SPACE);
            out.push(NEWLINE);
        },
        Some(p) => {
            push_num_tb(&mut out, 1, SPACE);
            let pbytes = p.as_str().as_bytes();
            push_num_tb(&mut out, pbytes.len() as u128, SPACE);
            push_bytes(&mut out, pbytes);
            out.push(NEWLINE);
        },
    }
    assert(out@ =~= magic() + num_tb(encode_utf8(ms.map_name@).len() as int, SPACE) + encode_utf8(
        ms.map_name@,
    ) + seq![NEWLINE] + num_tb(ms.map_id as int, NEWLINE) + ser_tileset(ms.tile_set));

    // the sprite-sheet shape
    push_num_tb(&mut out, ms.tile_rows as u128, NEWLINE);
    push_num_tb(&mut out, ms.tile_cols as u128, NEWLINE);

    // the grid: bounds, stored-entry count, then one line per entry
    let descs = collect_descs(&ms.tile_data);
    push_num_tb(&mut out, ms.tile_data.bound_x() as u128, SPACE);
    push_num_tb(&mut out, ms.tile_data.bound_y() as u128, SPACE);
    push_num_tb(&mut out, descs.len() as u128, NEWLINE);
    let ghost head = out@;

    let n = descs.len();
    for k in 0..n
        invariant
            n == descs@.len(),
            descs@ == iteration(ms.tile_data),
            out@ == head + ser_tiles(descs@.take(k as int)),
    {
        let t = descs[k];
        push_tile(&mut out, &t);
        proof {
            lemma_ser_tiles_push(descs@.take(k as int), descs@[k as int]);
            assert(descs@.take(k as int).push(descs@[k as int]) =~= descs@.take(k as int + 1));
            assert(out@ =~= head + ser_tiles(descs@.take(k as int + 1)));
        }
    }
    proof {
        assert(descs@.take(n as int) =~= descs@);
        assert(out@ =~= ser_map(*ms));
    }
    out
}

/// Appends one descriptor's grid line.
fn push_tile(out: &mut Vec<u8>, t: &TileDesc)
    ensures
        final(out)@ == old(out)@ + ser_tile(*t),
{
    push_num_tb(out, t.coords.x() as u128, SPACE);
    push_num_tb(out, t.coords.y() as u128, SPACE);
    let (flag, idx): (u128, u128) = match t.tile_index {
        Some(v) => (1, v as u128),
        None => (0, 0),
    };
    push_num_tb(out, flag, SPACE);
    push_num_tb(out, idx, SPACE);
    let code: u128 = match t.metadata {
        None => 0,
        Some(TileType::Wall) => 1,
        Some(TileType::Door) => 2,
        Some(TileType::Item) => 3,
        Some(TileType::Enemy) => 4,
        Some(TileType::NPC) => 5,
    };
    push_num_tb(out, code, NEWLINE);
    assert(out@ =~= old(out)@ + ser_tile(*t));
}

/// Gathers all stored descriptors in row-major order.
fn collect_descs(td: &crate::tile_data::TileData) -> (r: Vec<TileDesc>)
    ensures
        r@ == iteration(*td),
{
    let ghost total = iteration(*td);
    let mut it = td.iter();
    let mut out: Vec<TileDesc> = Vec::new();
    proof {
        assert(it.remaining() =~= total.skip(0));
    }
    loop
        invariant
            it.wf(),
            it.source() == *td,
            total == iteration(*td),
            out@.len() <= total.len(),
            it.remaining() == total.skip(out@.len() as int),
            forall|j: int| 0 <= j < out@.len() ==> out@[j] == #[trigger] total[j],
        ensures
            out@.len() == total.len(),
            forall|j: int| 0 <= j < out@.len() ==> out@[j] == #[trigger] total[j],
        decreases it.remaining().len(),
    {
        let ghost n = out@.len() as int;
        let t = match it.next() {
            Some(t) => t,
            None => { break },
        };
        assert(*t == total[n]);
        out.push(*t);
        proof {
            assert(total.skip(n).drop_first() =~= total.skip(n + 1));
        }
    }
    proof {
        assert(out@ =~= total);
    }
    out
}


/// A map file the parser could not make sense of.
#[derive(Clone, Copy, Debug, PartialEq, Eq)]
pub enum MapParseError {
    Malformed,
}

/// Relies on String::from_utf8: accepts exactly the valid UTF-8 byte
/// strings, and decodes the accepted bytes to the characters they encode.
#[verifier::external_body]
fn string_from_utf8(bytes: Vec<u8>) -> (r: Option<String>)
    ensures
        match r {
            Some(s) => valid_utf8(bytes@) && s@ == decode_utf8(bytes@),
            None => !valid_utf8(bytes@),
        },
{
    String::from_utf8(bytes).ok()
}

/// Reads one number and its terminator, refusing values above `limit`.
fn scan_num_tb(bytes: &[u8], i: usize, term: u8, limit: u128) -> (r: Option<(u128, usize)>)
    requires
        i <= bytes@.len(),
    ensures
        match parse_num(bytes@, i as int, term) {
            Some((v, j)) => {
                &&& v >= 0
                &&& (i as int) < j && j <= bytes@.len() && bytes@.len() <= usize::MAX
                &&& (v <= limit as int ==> r == Some((v as u128, j as usize)))
                &&& (v > limit as int ==> r is None)
            },
            None => r is None,
        },
{
    let len = bytes.len();
    proof {
        if (i as int) < bytes@.len() && is_digit(bytes@[i as int]) {
            lemma_scan_digits_bounds(bytes@, i as int, 0);
        }
    }
    if i >= len {
        return None;
    }
    let b0 = bytes[i];
    if !(48 <= b0 && b0 <= 57) {
        return None;
    }
    let q = limit / 10;
    let rm = limit % 10;
    let mut acc: u128 = 0;
    let mut j = i;
    while j < len
        invariant
            i <= j <= len,
            len == bytes@.len(),
            acc <= limit,
            q == limit / 10,
            rm == limit % 10,
            scan_digits(bytes@, i as int, 0) == scan_digits(bytes@, j as int, acc as int),
        ensures
            i <= j <= len,
            acc <= limit,
            scan_digits(bytes@, i as int, 0) == scan_digits(bytes@, j as int, acc as int),
            j == len || !is_digit(bytes@[j as int]),
        decreases len - j,
    {
        let b = bytes[j];
        if !(48 <= b && b <= 57) {
            break;
        }
        let d = (b - 48) as u128;
        if acc > q || (acc == q && d > rm) {
            proof {
                lemma_scan_digits_bounds(bytes@, j as int + 1, acc as int * 10 + (b - 48));
                assert(scan_digits(bytes@, j as int, acc as int) == scan_digits(
                    bytes@,
                    j as int + 1,
                    acc as int * 10 + (b - 48),
                ));
                assert(acc as int * 10 + (b - 48) > limit as int);
            }
            return None;
        }
        acc = acc * 10 + d;
        j = j + 1;
    }
    if j < len && bytes[j] == term {
        return Some((acc, j + 1));
    }
    None
}

/// Reads `n` raw bytes.
fn read_raw(bytes: &[u8], i: usize, n: u128) -> (r: Option<(Vec<u8>, usize)>)
    requires
        i <= bytes@.len(),
    ensures
        match parse_raw(bytes@, i as int, n as int) {
            Some((s, j)) => r matches Some(p) && p.0@ == s && p.1 == j,
            None => r is None,
        },
{
    let len = bytes.len();
    if n > (len - i) as u128 {
        return None;
    }
    let m = n as usize;
    let mut out: Vec<u8> = Vec::new();
    for k in 0..m
        invariant
            i + m <= len,
            len == bytes@.len(),
            out@ == bytes@.subrange(i as int, i as int + k as int),
    {
        out.push(bytes[i + k]);
        proof {
            assert(bytes@.subrange(i as int, i as int + k as int + 1) =~= bytes@.subrange(
                i as int,
                i as int + k as int,
            ).push(bytes@[i as int + k as int]));
        }
    }
    Some((out, i + m))
}

/// Reads the expected single byte.
fn expect_byte(bytes: &[u8], i: usize, b: u8) -> (r: Option<usize>)
    ensures
        (i as int) < bytes@.len() && bytes@[i as int] == b ==> r == Some((i + 1) as usize),
        !((i as int) < bytes@.len() && bytes@[i as int] == b) ==> r is None,
{
    if i < bytes.len() && bytes[i] == b {
        Some(i + 1)
    } else {
        None
    }
}

/// Reads the magic line every map file begins with.
fn eat_magic(bytes: &[u8]) -> (r: Option<usize>)
    ensures
        has_lit(bytes@, 0, magic()) ==> r == Some(8usize),
        !has_lit(bytes@, 0, magic()) ==> r is None,
{
    if bytes.len() < 8 {
        return None;
    }
    if bytes[0] == 116 && bytes[1] == 105 && bytes[2] == 108 && bytes[3] == 101 && bytes[4] == 109
        && bytes[5] == 97 && bytes[6] == 112 && bytes[7] == 10 {
        proof {
            assert(bytes@.subrange(0, 8) =~= magic());
        }
        Some(8)
    } else {
        proof {
            if has_lit(bytes@, 0, magic()) {
                assert(bytes@[0] == bytes@.subrange(0, 8)[0]);
                assert(bytes@[1] == bytes@.subrange(0, 8)[1]);
                assert(bytes@[2] == bytes@.subrange(0, 8)[2]);
                assert(bytes@[3] == bytes@.subrange(0, 8)[3]);
                assert(bytes@[4] == bytes@.subrange(0, 8)[4]);
                assert(bytes@[5] == bytes@.subrange(0, 8)[5]);
                assert(bytes@[6] == bytes@.subrange(0, 8)[6]);
                assert(bytes@[7] == bytes@.subrange(0, 8)[7]);
            }
        }
        None
    }
}

/// Reads one grid line.
fn parse_tile_exec(bytes: &[u8], i: usize) -> (r: Option<(TileDesc, usize)>)
    requires
        i <= bytes@.len(),
    ensures
        match parse_tile(bytes@, i as int) {
            Some((t, j)) => r matches Some(p) && p.0 == t && p.1 == j && (i as int) < j && j <= bytes@.len(),
            None => r is None,
        },
{
    let (x, i1) = match scan_num_tb(bytes, i, SPACE, 0xffff_ffff) {
        Some(p) => p,
        None => {
            proof {
                assert(parse_tile(bytes@, i as int) is None);
            }
            return None;
        },
    };
    let (y, i2) = match scan_num_tb(bytes, i1, SPACE, 0xffff_ffff) {
        Some(p) => p,
        None => {
            proof {
                let pn1 = parse_num(bytes@, i as int, SPACE);
                assert(pn1 matches Some((v, j)) && v == x as int && j == i1 as int && v
                    <= u32::MAX);
                let pn2 = parse_num(bytes@, i1 as int, SPACE);
                assert(match pn2 {
                    Some((v2, _j2)) => v2 > u32::MAX,
                    None => true,
                });
                assert(parse_tile(bytes@, i as int) is None);
            }
            return None;
        },
    };
    let (flag, i3) = match scan_num_tb(bytes, i2, SPACE, 1) {
        Some(p) => p,
        None => {
            proof {
                assert(parse_tile(bytes@, i as int) is None);
            }
            return None;
        },
    };
    let (idx, i4) = match scan_num_tb(bytes, i3, SPACE, 0xffff_ffff) {
        Some(p) => p,
        None => {
            proof {
                assert(parse_tile(bytes@, i as int) is None);
            }
            return None;
        },
    };
    let (tg, i5) = match scan_num_tb(bytes, i4, NEWLINE, 5) {
        Some(p) => p,
        None => {
            proof {
                assert(parse_tile(bytes@, i as int) is None);
            }
            return None;
        },
    };
    let metadata: Option<TileType> = if tg == 0 {
        None
    } else if tg == 1 {
        Some(TileType::Wall)
    } else if tg == 2 {
        Some(TileType::Door)
    } else if tg == 3 {
        Some(TileType::Item)
    } else if tg == 4 {
        Some(TileType::Enemy)
    } else {
        Some(TileType::NPC)
    };
    let t = TileDesc {
        tile_index: if flag == 1 {
            Some(idx as u32)
        } else {
            None
        },
        coords: TileCoords::new(x as u32, y as u32),
        metadata,
    };
    Some((t, i5))
}


/// Reads `cnt` grid lines.
fn parse_tiles_exec(bytes: &[u8], i: usize, cnt: u128) -> (r: Option<(Vec<TileDesc>, usize)>)
    requires
        i <= bytes@.len(),
    ensures
        match parse_tiles(bytes@, i as int, cnt as int) {
            Some((s, e)) => r matches Some(p) && p.0@ == s && p.1 == e && i as int <= e
                <= bytes@.len(),
            None => r is None,
        },
{
    let len = bytes.len();
    let mut descs: Vec<TileDesc> = Vec::new();
    let mut pos = i;
    let mut k: u128 = 0;
    while k < cnt
        invariant
            k <= cnt,
            i <= pos,
            pos as int <= bytes@.len(),
            bytes@.len() <= usize::MAX,
            (match parse_tiles(bytes@, pos as int, cnt as int - k as int) {
                Some((s2, e)) => parse_tiles(bytes@, i as int, cnt as int) matches Some(p) && p.0
                    == descs@ + s2 && p.1 == e,
                None => parse_tiles(bytes@, i as int, cnt as int) is None,
            }),
        ensures
            k == cnt,
            i <= pos,
            pos as int <= bytes@.len(),
            (match parse_tiles(bytes@, pos as int, cnt as int - k as int) {
                Some((s2, e)) => parse_tiles(bytes@, i as int, cnt as int) matches Some(p) && p.0
                    == descs@ + s2 && p.1 == e,
                None => parse_tiles(bytes@, i as int, cnt as int) is None,
            }),
        decreases cnt - k,
    {
        match parse_tile_exec(bytes, pos) {
            Some(p) => {
                let t = p.0;
                let np = p.1;
                proof {
                    assert(parse_tile(bytes@, pos as int) == Some::<(TileDesc, int)>(
                        (t, np as int),
                    ));
                    assert(descs@.push(t) + (match parse_tiles(
                        bytes@,
                        np as int,
                        cnt as int - k as int - 1,
                    ) {
                        Some((s3, _e)) => s3,
                        None => Seq::empty(),
                    }) =~= descs@ + (seq![t] + (match parse_tiles(
                        bytes@,
                        np as int,
                        cnt as int - k as int - 1,
                    ) {
                        Some((s3, _e)) => s3,
                        None => Seq::empty(),
                    })));
                }
                descs.push(t);
                pos = np;
                k = k + 1;
            },
            None => {
                proof {
                    assert(parse_tiles(bytes@, pos as int, cnt as int - k as int) is None);
                }
                return None;
            },
        }
    }
    proof {
        assert(parse_tiles(bytes@, pos as int, 0) == Some::<(Seq<TileDesc>, int)>(
            (Seq::empty(), pos as int),
        ));
        assert(descs@ + Seq::<TileDesc>::empty() =~= descs@);
    }
    Some((descs, pos))
}

/// Parses the persisted byte form of a map screen. A file the grammar does
/// not cover is rejected as malformed, never a crash; the caller reports
/// the failure together with the file's path.
pub fn parse_map(bytes: &[u8]) -> (r: Result<MapScreen, MapParseError>)
    ensures
        r matches Ok(m) ==> spec_parse(bytes@) == Some(model_of(m)),
        r is Err <==> spec_parse(bytes@) is None,
{
    let len = bytes.len();
    let i0 = match eat_magic(bytes) {
        Some(j) => j,
        None => {
            return Err(MapParseError::Malformed);
        },
    };
    // the name
    let (nlen, i1) = match scan_num_tb(bytes, i0, SPACE, u128::MAX) {
        Some(p) => p,
        None => {
            proof {
                lemma_huge_raw_fails(bytes@, i0 as int, SPACE);
            }
            return Err(MapParseError::Malformed);
        },
    };
    let (nraw, i2) = match read_raw(bytes, i1, nlen) {
        Some(p) => p,
        None => {
            return Err(MapParseError::Malformed);
        },
    };
    let i3 = match expect_byte(bytes, i2, NEWLINE) {
        Some(j) => j,
        None => {
            return Err(MapParseError::Malformed);
        },
    };
    let ghost nbytes = nraw@;
    let name = match string_from_utf8(nraw) {
        Some(s) => s,
        None => {
            return Err(MapParseError::Malformed);
        },
    };
    // the identifier
    let (id, i4) = match scan_num_tb(bytes, i3, NEWLINE, u128::MAX) {
        Some(p) => p,
        None => {
            return Err(MapParseError::Malformed);
        },
    };
    // the sprite-sheet reference
    let (flag, i5) = match scan_num_tb(bytes, i4, SPACE, 1) {
        Some(p) => p,
        None => {
            return Err(MapParseError::Malformed);
        },
    };
    let (slen, i6) = match scan_num_tb(bytes, i5, SPACE, u128::MAX) {
        Some(p) => p,
        None => {
            proof {
                lemma_huge_raw_fails(bytes@, i5 as int, SPACE);
            }
            return Err(MapParseError::Malformed);
        },
    };
    let (sraw, i7) = match read_raw(bytes, i6, slen) {
        Some(p) => p,
        None => {
            return Err(MapParseError::Malformed);
        },
    };
    let i8 = match expect_byte(bytes, i7, NEWLINE) {
        Some(j) => j,
        None => {
            return Err(MapParseError::Malformed);
        },
    };
    let ghost sbytes = sraw@;
    let tile_set: Option<String> = if flag == 1 {
        match string_from_utf8(sraw) {
            Some(s) => Some(s),
            None => {
                return Err(MapParseError::Malformed);
            },
        }
    } else {
        None
    };
    proof {
        assert(spec_parse(bytes@) == parse_trailer(
            bytes@,
            i8 as int,
            nbytes,
            id as int,
            flag as int,
            sbytes,
        ));
    }
    // the sprite-sheet shape
    let (rows, i9) = match scan_num_tb(bytes, i8, NEWLINE, 0xffff_ffff) {
        Some(p) => p,
        None => {
            return Err(MapParseError::Malformed);
        },
    };
    let (cols, i10) = match scan_num_tb(bytes, i9, NEWLINE, 0xffff_ffff) {
        Some(p) => p,
        None => {
            return Err(MapParseError::Malformed);
        },
    };
    // the grid bounds and entry count
    let (mx, i11) = match scan_num_tb(bytes, i10, SPACE, 0xffff_ffff) {
        Some(p) => p,
        None => {
            return Err(MapParseError::Malformed);
        },
    };
    let (my, i12) = match scan_num_tb(bytes, i11, SPACE, 0xffff_ffff) {
        Some(p) => p,
        None => {
            return Err(MapParseError::Malformed);
        },
    };
    let (cnt, i13) = match scan_num_tb(bytes, i12, NEWLINE, u128::MAX) {
        Some(p) => p,
        None => {
            return Err(MapParseError::Malformed);
        },
    };
    if cnt > len as u128 {
        return Err(MapParseError::Malformed);
    }
    // the grid lines
    let (descs, i14) = match parse_tiles_exec(bytes, i13, cnt) {
        Some(p) => p,
        None => {
            return Err(MapParseError::Malformed);
        },
    };
    if i14 != len {
        return Err(MapParseError::Malformed);
    }
    let tile_data = crate::tile_data::from_descs_raw(mx as u32, my as u32, &descs);
    let m = MapScreen {
        map_name: name,
        map_id: id,
        tile_set,
        tile_rows: rows as u32,
        tile_cols: cols as u32,
        tile_data,
    };
    proof {
        assert(spec_parse(bytes@) == Some(model_of(m)));
    }
    Ok(m)
}

/// A count too large to fit the machine's word cannot be a byte count of
/// the input: reading that many raw bytes fails.
proof fn lemma_huge_raw_fails(bytes: Seq<u8>, i: int, term: u8)
    requires
        bytes.len() <= usize::MAX,
    ensures
        match parse_num(bytes, i, term) {
            Some((v, j)) => v > u128::MAX ==> parse_raw(bytes, j, v) is None,
            None => true,
        },
{
}


/// The flattened row-major position of the cell a storage key addresses.
pub open spec fn pos_of(k: u64, max_y: u32) -> int {
    key_x(k) as int * max_y as int + key_y(k) as int
}

/// The stored descriptors at flattened position `p` or later.
pub open spec fn tiles_from(td: TileData, p: int) -> Map<u64, TileDesc> {
    Map::new(
        |k: u64| td.tiles().contains_key(k) && pos_of(k, td.max_y_spec()) >= p,
        |k: u64| td.tiles()[k],
    )
}

/// Storing a consistent grid's row-major traversal into an empty map
/// rebuilds exactly the grid's contents.
proof fn lemma_apply_iteration(td: TileData)
    requires
        td.consistent(),
    ensures
        apply_descs(Map::<u64, TileDesc>::empty(), iteration(td)) == td.tiles(),
{
    lemma_apply_iteration_from(td, 0, Map::<u64, TileDesc>::empty());
    assert forall|k: u64| #[trigger] td.tiles().contains_key(k) implies pos_of(
        k,
        td.max_y_spec(),
    ) >= 0 by {
        lemma_key_encode(k);
        assert(td.tiles().contains_key(key_of(key_x(k), key_y(k))));
        assert(key_x(k) as int * td.max_y_spec() as int >= 0) by (nonlinear_arith);
    }
    assert(Map::<u64, TileDesc>::empty().union_prefer_right(tiles_from(td, 0)) =~= td.tiles());
}

/// Induction step behind [`lemma_apply_iteration`]: applying the traversal
/// from position `p` overlays the descriptors stored at `p` or later.
proof fn lemma_apply_iteration_from(td: TileData, p: int, m: Map<u64, TileDesc>)
    requires
        td.consistent(),
        0 <= p,
    ensures
        apply_descs(m, iteration_from(td, p)) == m.union_prefer_right(tiles_from(td, p)),
    decreases total_cells(td) - p,
{
    let mx = td.max_x_spec() as int;
    let my = td.max_y_spec() as int;
    if p >= total_cells(td) || my == 0 {
        assert(tiles_from(td, p) =~= Map::<u64, TileDesc>::empty()) by {
            assert forall|k: u64| !(td.tiles().contains_key(k) && pos_of(k, td.max_y_spec())
                >= p) by {
                if td.tiles().contains_key(k) {
                    lemma_key_encode(k);
                    assert(td.tiles().contains_key(key_of(key_x(k), key_y(k))));
                    assert(key_x(k) < td.max_x_spec() && key_y(k) < td.max_y_spec());
                    assert(pos_of(k, td.max_y_spec()) <= (mx - 1) * my + (my - 1) && (mx - 1) * my
                        + (my - 1) < mx * my) by (nonlinear_arith)
                        requires
                            key_x(k) as int <= mx - 1,
                            key_y(k) as int <= my - 1,
                            my >= 1,
                            pos_of(k, td.max_y_spec()) == key_x(k) as int * my + key_y(k) as int,
                    ;
                }
            }
        }
        assert(m.union_prefer_right(tiles_from(td, p)) =~= m);
    } else {
        let x = ((p / my) as u32);
        let y = ((p % my) as u32);
        assert(my * mx == mx * my) by (nonlinear_arith);
        vstd::arithmetic::div_mod::lemma_multiply_divide_lt(p, my, mx);
        vstd::arithmetic::div_mod::lemma_mod_division_less_than_divisor(p, my);
        vstd::arithmetic::div_mod::lemma_div_pos_is_pos(p, my);
        let kk = key_of(x, y);
        lemma_key_decode(x, y);
        vstd::arithmetic::div_mod::lemma_fundamental_div_mod(p, my);
        assert(x as int == p / my && y as int == p % my);
        assert((p / my) * my == my * (p / my)) by (nonlinear_arith);
        assert(pos_of(kk, td.max_y_spec()) == p);
        lemma_apply_iteration_from(td, p + 1, if td.tiles().contains_key(kk) {
            m.insert(kk, td.tiles()[kk])
        } else {
            m
        });
        // a stored key at position p can only be the key of the cell (x, y)
        assert forall|k2: u64|
            td.tiles().contains_key(k2) && pos_of(k2, td.max_y_spec()) == p implies k2 == kk by {
            lemma_key_encode(k2);
            assert(td.tiles().contains_key(key_of(key_x(k2), key_y(k2))));
            assert(key_y(k2) < td.max_y_spec());
            vstd::arithmetic::div_mod::lemma_fundamental_div_mod_converse_div(
                p,
                my,
                key_x(k2) as int,
                key_y(k2) as int,
            );
            vstd::arithmetic::div_mod::lemma_fundamental_div_mod_converse_mod(
                p,
                my,
                key_x(k2) as int,
                key_y(k2) as int,
            );
        }
        if td.tiles().contains_key(kk) {
            let t = td.tiles()[kk];
            assert(t.coords == TileCoords(x, y));
            assert(desc_key(t) == kk);
            let s = iteration_from(td, p);
            assert(s == seq![t] + iteration_from(td, p + 1));
            assert(s[0] == t);
            assert(s.drop_first() =~= iteration_from(td, p + 1));
            assert(apply_descs(m, s) == apply_descs(m.insert(kk, t), iteration_from(td, p + 1)));
            assert(m.insert(kk, t).union_prefer_right(tiles_from(td, p + 1))
                =~= m.union_prefer_right(tiles_from(td, p)));
        } else {
            assert(iteration_from(td, p) == iteration_from(td, p + 1));
            assert(tiles_from(td, p) =~= tiles_from(td, p + 1));
        }
    }
}


/// A batch's rendering is at least one byte per descriptor.
proof fn lemma_ser_tiles_len(s: Seq<TileDesc>)
    ensures
        ser_tiles(s).len() >= s.len(),
    decreases s.len(),
{
    if s.len() > 0 {
        lemma_dec_rep_digits(tag_code(s[0].metadata));
        lemma_ser_tiles_len(s.drop_first());
    }
}

/// A rendered grid line parses back to its descriptor, whatever stands
/// before and after it.
#[verifier::rlimit(100)]
proof fn lemma_parse_tile_rt(a: Seq<u8>, t: TileDesc, b: Seq<u8>)
    ensures
        parse_tile(a + ser_tile(t) + b, a.len() as int) == Some(
            (t, a.len() as int + ser_tile(t).len() as int),
        ),
{
    let bytes = a + ser_tile(t) + b;
    let x = t.coords.xs() as int;
    let y = t.coords.ys() as int;
    let fl = index_flag(t.tile_index);
    let ix = index_val(t.tile_index);
    let tg = tag_code(t.metadata);
    let c1 = num_tb(x, SPACE);
    let c2 = num_tb(y, SPACE);
    let c3 = num_tb(fl, SPACE);
    let c4 = num_tb(ix, SPACE);
    let c5 = num_tb(tg, NEWLINE);
    assert(bytes =~= a + dec_rep(x).push(SPACE) + (c2 + c3 + c4 + c5 + b));
    lemma_parse_num_rt(a, x, SPACE, c2 + c3 + c4 + c5 + b);
    let a2 = a + c1;
    assert(bytes =~= a2 + dec_rep(y).push(SPACE) + (c3 + c4 + c5 + b));
    lemma_parse_num_rt(a2, y, SPACE, c3 + c4 + c5 + b);
    let a3 = a2 + c2;
    assert(bytes =~= a3 + dec_rep(fl).push(SPACE) + (c4 + c5 + b));
    lemma_parse_num_rt(a3, fl, SPACE, c4 + c5 + b);
    let a4 = a3 + c3;
    assert(bytes =~= a4 + dec_rep(ix).push(SPACE) + (c5 + b));
    lemma_parse_num_rt(a4, ix, SPACE, c5 + b);
    let a5 = a4 + c4;
    assert(bytes =~= a5 + dec_rep(tg).push(NEWLINE) + b);
    lemma_parse_num_rt(a5, tg, NEWLINE, b);
    assert(a5.len() + c5.len() == a.len() + ser_tile(t).len());
    assert(code_tag(tag_code(t.metadata)) == Some(t.metadata));
    assert(t.coords == TileCoords(t.coords.xs(), t.coords.ys()));
}

/// A rendered batch of grid lines parses back to the batch, whatever
/// stands before and after it.
proof fn lemma_parse_tiles_rt(a: Seq<u8>, s: Seq<TileDesc>, b: Seq<u8>)
    ensures
        parse_tiles(a + ser_tiles(s) + b, a.len() as int, s.len() as int) == Some(
            (s, a.len() as int + ser_tiles(s).len() as int),
        ),
    decreases s.len(),
{
    let bytes = a + ser_tiles(s) + b;
    if s.len() == 0 {
        assert(parse_tiles(bytes, a.len() as int, 0) == Some::<(Seq<TileDesc>, int)>(
            (Seq::empty(), a.len() as int),
        ));
        assert(Seq::<TileDesc>::empty() =~= s);
    } else {
        let t = s[0];
        let rest = s.drop_first();
        assert(ser_tiles(s) == ser_tile(t) + ser_tiles(rest));
        assert(bytes =~= a + ser_tile(t) + (ser_tiles(rest) + b));
        lemma_parse_tile_rt(a, t, ser_tiles(rest) + b);
        let a2 = a + ser_tile(t);
        assert(bytes =~= a2 + ser_tiles(rest) + b);
        lemma_parse_tiles_rt(a2, rest, b);
        assert(parse_tile(bytes, a.len() as int) == Some(
            (t, a.len() as int + ser_tile(t).len() as int),
        ));
        assert(a2.len() as int == a.len() as int + ser_tile(t).len() as int);
        assert(seq![t] + rest =~= s);
    }
}

/// The presence flag the sprite-sheet reference is stored with.
pub open spec fn set_flag(o: Option<String>) -> int {
    match o {
        Some(_) => 1,
        None => 0,
    }
}

/// The raw bytes the sprite-sheet reference is stored as.
pub open spec fn set_bytes(o: Option<String>) -> Seq<u8> {
    match o {
        Some(p) => encode_utf8(p@),
        None => Seq::empty(),
    }
}

/// The serialized header up to and including the sprite-sheet reference.
pub open spec fn ser_head(m: MapScreen) -> Seq<u8> {
    magic() + num_tb(encode_utf8(m.map_name@).len() as int, SPACE) + (encode_utf8(m.map_name@)
        + seq![NEWLINE]) + num_tb(m.map_id as int, NEWLINE) + ser_tileset(m.tile_set)
}

/// The serialized tail from the sprite-sheet shape onwards.
pub open spec fn ser_tail(m: MapScreen) -> Seq<u8> {
    num_tb(m.tile_rows as int, NEWLINE) + num_tb(m.tile_cols as int, NEWLINE) + num_tb(
        m.tile_data.max_x_spec() as int,
        SPACE,
    ) + num_tb(m.tile_data.max_y_spec() as int, SPACE) + num_tb(
        iteration(m.tile_data).len() as int,
        NEWLINE,
    ) + ser_tiles(iteration(m.tile_data))
}

/// Parsing a serialized screen passes the magic and name lines and hands
/// the rest of the parse the encoded name.
#[verifier::rlimit(100)]
proof fn lemma_rt_name(m: MapScreen)
    requires
        encode_utf8(m.map_name@).len() <= usize::MAX,
    ensures
        spec_parse(ser_map(m)) == parse_after_name(
            ser_map(m),
            (magic() + num_tb(encode_utf8(m.map_name@).len() as int, SPACE) + (encode_utf8(
                m.map_name@,
            ) + seq![NEWLINE])).len() as int,
            encode_utf8(m.map_name@),
        ),
{
    let bytes = ser_map(m);
    let nbytes = encode_utf8(m.map_name@);
    let h1 = num_tb(nbytes.len() as int, SPACE);
    let h2 = nbytes + seq![NEWLINE];
    let h3 = num_tb(m.map_id as int, NEWLINE);
    let h4 = ser_tileset(m.tile_set);
    let tail = ser_tail(m);
    broadcast use vstd::utf8::encode_utf8_valid_utf8;

    // the magic line
    assert(bytes.subrange(0, 8) =~= magic());
    // the name
    assert(bytes =~= magic() + dec_rep(nbytes.len() as int).push(SPACE) + (h2 + h3 + h4 + tail));
    lemma_parse_num_rt(magic(), nbytes.len() as int, SPACE, h2 + h3 + h4 + tail);
    let a1 = magic() + h1;
    let i1 = a1.len() as int;
    assert(bytes.subrange(i1, i1 + nbytes.len() as int) =~= nbytes);
    let i2 = i1 + nbytes.len() as int;
    assert(bytes[i2] == NEWLINE);
}

/// Parsing continues past the identifier and sprite-sheet reference lines
/// into the trailer.
#[verifier::rlimit(100)]
proof fn lemma_rt_mid(m: MapScreen, nbytes: Seq<u8>)
    requires
        (m.tile_set matches Some(p) ==> encode_utf8(p@).len() <= usize::MAX),
    ensures
        parse_after_name(
            ser_map(m),
            (magic() + num_tb(encode_utf8(m.map_name@).len() as int, SPACE) + (encode_utf8(
                m.map_name@,
            ) + seq![NEWLINE])).len() as int,
            nbytes,
        ) == parse_trailer(
            ser_map(m),
            ser_head(m).len() as int,
            nbytes,
            m.map_id as int,
            set_flag(m.tile_set),
            set_bytes(m.tile_set),
        ),
{
    let bytes = ser_map(m);
    let h1 = num_tb(encode_utf8(m.map_name@).len() as int, SPACE);
    let h2 = encode_utf8(m.map_name@) + seq![NEWLINE];
    let h3 = num_tb(m.map_id as int, NEWLINE);
    let h4 = ser_tileset(m.tile_set);
    let tail = ser_tail(m);
    broadcast use vstd::utf8::encode_utf8_valid_utf8;

    let a2 = magic() + h1 + h2;
    // the identifier
    assert(bytes =~= a2 + dec_rep(m.map_id as int).push(NEWLINE) + (h4 + tail));
    lemma_parse_num_rt(a2, m.map_id as int, NEWLINE, h4 + tail);
    let a3 = a2 + h3;
    // the sprite-sheet reference
    let flag = set_flag(m.tile_set);
    let sbytes = set_bytes(m.tile_set);
    assert(h4 =~= num_tb(flag, SPACE) + num_tb(sbytes.len() as int, SPACE) + sbytes
        + seq![NEWLINE]);
    assert(bytes =~= a3 + dec_rep(flag).push(SPACE) + (num_tb(sbytes.len() as int, SPACE) + sbytes
        + seq![NEWLINE] + tail));
    lemma_parse_num_rt(a3, flag, SPACE, num_tb(sbytes.len() as int, SPACE) + sbytes + seq![NEWLINE]
        + tail);
    let a4 = a3 + num_tb(flag, SPACE);
    assert(bytes =~= a4 + dec_rep(sbytes.len() as int).push(SPACE) + (sbytes + seq![NEWLINE]
        + tail));
    lemma_parse_num_rt(a4, sbytes.len() as int, SPACE, sbytes + seq![NEWLINE] + tail);
    let a5 = a4 + num_tb(sbytes.len() as int, SPACE);
    let i5 = a5.len() as int;
    assert(bytes.subrange(i5, i5 + sbytes.len() as int) =~= sbytes);
    let i6 = i5 + sbytes.len() as int;
    assert(bytes[i6] == NEWLINE);
    assert(ser_head(m).len() as int == i6 + 1);
}

/// Parsing a serialized screen's trailer reconstructs the screen's
/// content.
#[verifier::rlimit(100)]
proof fn lemma_rt_trailer(m: MapScreen, nbytes: Seq<u8>, id: int, flag: int, sbytes: Seq<u8>)
    requires
        m.tile_data.consistent(),
        0 <= id <= u128::MAX,
        flag == set_flag(m.tile_set),
    ensures
        ({
            let bytes = ser_head(m) + ser_tail(m);
            parse_trailer(bytes, ser_head(m).len() as int, nbytes, id, flag, sbytes) == Some(
                MapModel {
                    name: decode_utf8(nbytes),
                    id: id as u128,
                    tile_set: if flag == 1 {
                        Some(decode_utf8(sbytes))
                    } else {
                        None
                    },
                    rows: m.tile_rows,
                    cols: m.tile_cols,
                    max_x: m.tile_data.max_x_spec(),
                    max_y: m.tile_data.max_y_spec(),
                    tiles: m.tile_data.tiles(),
                },
            )
        }),
{
    let a = ser_head(m);
    let bytes = a + ser_tail(m);
    let descs = iteration(m.tile_data);
    let h5 = num_tb(m.tile_rows as int, NEWLINE);
    let h6 = num_tb(m.tile_cols as int, NEWLINE);
    let h7 = num_tb(m.tile_data.max_x_spec() as int, SPACE);
    let h8 = num_tb(m.tile_data.max_y_spec() as int, SPACE);
    let h9 = num_tb(descs.len() as int, NEWLINE);
    let tl = ser_tiles(descs);
    // the sprite-sheet shape
    assert(bytes =~= a + dec_rep(m.tile_rows as int).push(NEWLINE) + (h6 + h7 + h8 + h9 + tl));
    lemma_parse_num_rt(a, m.tile_rows as int, NEWLINE, h6 + h7 + h8 + h9 + tl);
    let a7 = a + h5;
    assert(bytes =~= a7 + dec_rep(m.tile_cols as int).push(NEWLINE) + (h7 + h8 + h9 + tl));
    lemma_parse_num_rt(a7, m.tile_cols as int, NEWLINE, h7 + h8 + h9 + tl);
    let a8 = a7 + h6;
    // the grid bounds and entry count
    assert(bytes =~= a8 + dec_rep(m.tile_data.max_x_spec() as int).push(SPACE) + (h8 + h9 + tl));
    lemma_parse_num_rt(a8, m.tile_data.max_x_spec() as int, SPACE, h8 + h9 + tl);
    let a9 = a8 + h7;
    assert(bytes =~= a9 + dec_rep(m.tile_data.max_y_spec() as int).push(SPACE) + (h9 + tl));
    lemma_parse_num_rt(a9, m.tile_data.max_y_spec() as int, SPACE, h9 + tl);
    let a10 = a9 + h8;
    assert(bytes =~= a10 + dec_rep(descs.len() as int).push(NEWLINE) + tl);
    lemma_parse_num_rt(a10, descs.len() as int, NEWLINE, tl);
    let a11 = a10 + h9;
    // the entry count fits the input
    lemma_ser_tiles_len(descs);
    // the grid lines
    assert(bytes =~= a11 + ser_tiles(descs) + Seq::<u8>::empty());
    lemma_parse_tiles_rt(a11, descs, Seq::<u8>::empty());
    assert(a11.len() + ser_tiles(descs).len() == bytes.len());
    // the reconstructed content
    lemma_apply_iteration(m.tile_data);
}

/// Serializing a map screen and parsing the bytes back yields the same
/// content: the same name, identifier, sprite-sheet reference and shape,
/// the same grid bounds, and the same set of stored descriptors.
pub proof fn lemma_persistence_round_trip(m: MapScreen)
    requires
        m.tile_data.consistent(),
        encode_utf8(m.map_name@).len() <= usize::MAX,
        (m.tile_set matches Some(p) ==> encode_utf8(p@).len() <= usize::MAX),
    ensures
        spec_parse(ser_map(m)) == Some(model_of(m)),
{
    broadcast use vstd::utf8::encode_utf8_decode_utf8;

    lemma_rt_name(m);
    lemma_rt_mid(m, encode_utf8(m.map_name@));
    lemma_rt_trailer(
        m,
        encode_utf8(m.map_name@),
        m.map_id as int,
        set_flag(m.tile_set),
        set_bytes(m.tile_set),
    );
    assert(decode_utf8(encode_utf8(m.map_name@)) == m.map_name@);
    match m.tile_set {
        Some(p) => {
            assert(decode_utf8(encode_utf8(p@)) == p@);
        },
        None => {
        },
    }
}

} // verus!
