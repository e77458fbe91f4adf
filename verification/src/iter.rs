//! Traversals of the tile pyramid: every tile, every tile down to a zoom
//! level, and every tile below a tile.

use std::collections::VecDeque;
use vstd::prelude::*;
use vstd::arithmetic::power2::{lemma2_to64, lemma_pow2_pos, pow2};
use crate::pow::{lemma_pow2_monotonic, pow2_u64};
use crate::tile::{has_subtiles, subtile_ids, valid_tile, Tile, TileId};
use crate::zorder::{
    lemma_deinterleave_square, lemma_interleave_corner, lemma_interleave_square,
    lemma_xy_roundtrip, lemma_zorder_roundtrip, xy_of, zorder_of, zorder_to_xy,
};

verus! {

/// How many bits a tile coordinate has at a zoom level: the zoom, up to the
/// 32 bits that a coordinate can hold.
pub open spec fn grid_bits(zoom: u8) -> nat {
    if zoom < 32 {
        zoom as nat
    } else {
        32
    }
}

/// The highest tile coordinate of a zoom level.
pub open spec fn last_coordinate(zoom: u8) -> nat {
    (pow2(grid_bits(zoom)) - 1) as nat
}

/// The highest tile coordinate of a zoom level.
pub fn last_coordinate_of(zoom: u8) -> (r: u32)
    ensures
        r as nat == last_coordinate(zoom),
        pow2(grid_bits(zoom)) >= 1,
{
    proof {
        lemma2_to64();
    }
    let bits: u8 = if zoom < 32 {
        zoom
    } else {
        32
    };
    (pow2_u64(bits) - 1) as u32
}

/// Where a traversal of all tiles stands: the zoom level and the Z-order
/// index of the tile that comes next.
pub struct Cursor {
    pub zoom: u8,
    pub zorder: u64,
}

/// Iterates over all the tiles in the world: zoom level by zoom level, each
/// level in Z-order.
pub struct AllTilesIterator {
    next_zoom: u8,
    next_zorder: u64,
}

impl View for AllTilesIterator {
    type V = Cursor;

    closed spec fn view(&self) -> Cursor {
        Cursor { zoom: self.next_zoom, zorder: self.next_zorder }
    }
}

/// The tile a cursor stands on.
pub open spec fn cursor_tile(c: Cursor) -> TileId {
    TileId { zoom: c.zoom, x: xy_of(c.zorder).0 as u32, y: xy_of(c.zorder).1 as u32 }
}

/// The cursor after the tile it stands on: the next index of the zoom level,
/// or the start of the next level behind the last of its `4^zoom` indices.
pub open spec fn cursor_step(c: Cursor) -> Cursor {
    if c.zorder + 1 == pow2(2 * grid_bits(c.zoom)) {
        Cursor { zoom: (c.zoom + 1) as u8, zorder: 0 }
    } else {
        Cursor { zoom: c.zoom, zorder: (c.zorder + 1) as u64 }
    }
}

/// The traversal of all tiles misses none: every tile has a Z-order index
/// among those of its zoom level, and a cursor at that index stands on it.
pub proof fn lemma_every_tile_has_a_cursor(id: TileId)
    requires
        valid_tile(id.zoom as nat, id.x as nat, id.y as nat),
    ensures
        zorder_of(id.x, id.y) < pow2(2 * grid_bits(id.zoom)),
        zorder_of(id.x, id.y) <= u64::MAX,
        cursor_tile(Cursor { zoom: id.zoom, zorder: zorder_of(id.x, id.y) as u64 }) == id,
{
    lemma2_to64();
    lemma_zorder_roundtrip(id.x, id.y);
    lemma_interleave_square(id.x as nat, id.y as nat, grid_bits(id.zoom), 32);
}

impl AllTilesIterator {
    /// The cursor stays among the indices of its zoom level, and the zoom
    /// goes no further than one past the last.
    #[verifier::type_invariant]
    pub open spec fn wf(&self) -> bool {
        self@.zoom <= 100 && self@.zorder < pow2(2 * grid_bits(self@.zoom))
    }

    /// A traversal that starts at the tile 0/0/0.
    pub fn new() -> (r: Self)
        ensures
            r@ == (Cursor { zoom: 0, zorder: 0 }),
    {
        proof {
            lemma2_to64();
        }
        AllTilesIterator { next_zoom: 0, next_zorder: 0 }
    }

    /// The next tile, and the cursor moved past it. Nothing comes, and
    /// nothing moves, once the zoom levels that tiles have are through.
    pub fn next(&mut self) -> (r: Option<Tile>)
        ensures
            old(self)@.zoom >= 100 ==> r is None && final(self)@ == old(self)@,
            old(self)@.zoom < 100 ==> r is Some && r.unwrap()@ == cursor_tile(old(self)@),
            old(self)@.zoom < 100 ==> final(self)@ == cursor_step(old(self)@),
    {
        proof {
            use_type_invariant(&*self);
        }
        let zoom: u8 = self.next_zoom;
        if zoom >= 100 {
            return None;
        }
        let (x, y) = zorder_to_xy(self.next_zorder);
        let last: u32 = last_coordinate_of(zoom);
        proof {
            let bits = grid_bits(zoom);
            lemma_deinterleave_square(self.next_zorder as nat, bits, 32);
            lemma_pow2_monotonic(bits, zoom as nat);
            lemma_xy_roundtrip(self.next_zorder);
            lemma_interleave_corner(bits, 32);
            lemma_zorder_roundtrip(last, last);
            lemma_pow2_pos(2 * grid_bits((zoom + 1) as u8));
        }
        let tile = Tile::new(zoom, x, y);
        if x == last && y == last {
            *self = AllTilesIterator { next_zoom: zoom + 1, next_zorder: 0 };
        } else {
            *self = AllTilesIterator { next_zoom: zoom, next_zorder: self.next_zorder + 1 };
        }
        tile
    }
}

/// How many tiles a zoom level has: 1 at zoom 0, else `4^zoom`.
pub open spec fn tiles_in_level(zoom: nat) -> nat {
    if zoom == 0 {
        1
    } else {
        pow2(2 * zoom)
    }
}

/// The last zoom level whose number of tiles a size is given for; the levels
/// behind it count as too large to size.
pub const LAST_SIZED_ZOOM: u8 = 5;

/// How many tiles the zoom levels from `lo` up to, not including, `hi` have
/// together.
pub open spec fn tiles_in_levels(lo: nat, hi: nat) -> nat
    decreases hi,
{
    if hi <= lo {
        0
    } else {
        tiles_in_levels(lo, (hi - 1) as nat) + tiles_in_level((hi - 1) as nat)
    }
}

/// How many tiles of a zoom level a column-by-column scan that stands on
/// `x`, `y` still has to give, that tile included.
pub open spec fn remaining_tiles(zoom: nat, x: nat, y: nat) -> nat {
    ((pow2(zoom) - y) + (pow2(zoom) - x - 1) * pow2(zoom)) as nat
}

/// A zoom level has as many tiles as a scan of it has to give from its first
/// tile on: the `2^zoom` columns times the `2^zoom` rows.
pub proof fn lemma_tiles_in_level_is_whole_scan(zoom: nat)
    ensures
        tiles_in_level(zoom) == remaining_tiles(zoom, 0, 0),
        tiles_in_level(zoom) == pow2(zoom) * pow2(zoom),
{
    lemma2_to64();
    vstd::arithmetic::power2::lemma_pow2_adds(zoom, zoom);
    lemma_pow2_pos(zoom);
    let p = pow2(zoom) as int;
    assert((p - 0) + (p - 0 - 1) * p == p * p) by (nonlinear_arith);
}

/// How many tiles a zoom level has, up to zoom 5; nothing for the levels
/// behind it, which count as too large to size.
pub fn num_tiles_in_zoom(zoom: u8) -> (r: Option<usize>)
    ensures
        r == if zoom <= LAST_SIZED_ZOOM {
            Some(tiles_in_level(zoom as nat) as usize)
        } else {
            None
        },
{
    if zoom <= LAST_SIZED_ZOOM {
        proof {
            lemma2_to64();
        }
        let count: u64 = pow2_u64(2 * zoom);
        Some(count as usize)
    } else {
        None
    }
}

/// How many tiles of the zoom level are left from `next_x`, `next_y` on, or
/// nothing where that is no tile of the level or the number is beyond
/// `usize`.
pub fn remaining_in_this_zoom(next_zoom: u8, next_x: u32, next_y: u32) -> (r: Option<usize>)
    ensures
        r == if next_x < pow2(next_zoom as nat) && next_y < pow2(next_zoom as nat)
            && remaining_tiles(next_zoom as nat, next_x as nat, next_y as nat) <= usize::MAX {
            Some(remaining_tiles(next_zoom as nat, next_x as nat, next_y as nat) as usize)
        } else {
            None
        },
{
    proof {
        lemma2_to64();
    }
    if next_zoom >= 64 {
        proof {
            lemma_pow2_monotonic(64, next_zoom as nat);
            let p = pow2(next_zoom as nat) as int;
            assert((p - next_x - 1) * p >= p) by (nonlinear_arith)
                requires
                    p - next_x - 1 >= 1,
                    p >= 0,
            ;
        }
        return None;
    }
    let across: u64 = pow2_u64(next_zoom);
    if next_x as u64 >= across || next_y as u64 >= across {
        return None;
    }
    proof {
        vstd::arithmetic::power2::lemma2_to64_rest();
    }
    let in_column: u128 = (across - next_y as u64) as u128;
    let columns_after: u128 = (across - next_x as u64 - 1) as u128;
    proof {
        assert(columns_after * across <= 0x8000_0000_0000_0000 * 0x8000_0000_0000_0000)
            by (nonlinear_arith)
            requires
                0 <= columns_after <= 0x8000_0000_0000_0000,
                0 <= across <= 0x8000_0000_0000_0000,
        ;
    }
    let total: u128 = columns_after * (across as u128) + in_column;
    if total <= usize::MAX as u128 {
        Some(total as usize)
    } else {
        None
    }
}

/// Where a traversal down to a zoom level stands: the last zoom level it
/// gives, and the tile that comes next.
pub struct ScanCursor {
    pub max_zoom: u8,
    pub zoom: u8,
    pub x: u32,
    pub y: u32,
}

/// The tile a scan stands on.
pub open spec fn scan_tile(c: ScanCursor) -> TileId {
    TileId { zoom: c.zoom, x: c.x, y: c.y }
}

/// Whether a scan has given all its tiles.
pub open spec fn scan_done(c: ScanCursor) -> bool {
    c.zoom > c.max_zoom || c.zoom >= 100
}

/// The cursor after the tile it stands on: one row south, or the top of the
/// next column behind the last row, or the start of the next level behind
/// the last column.
pub open spec fn scan_step(c: ScanCursor) -> ScanCursor {
    if c.y < last_coordinate(c.zoom) {
        ScanCursor { y: (c.y + 1) as u32, ..c }
    } else if c.x < last_coordinate(c.zoom) {
        ScanCursor { x: (c.x + 1) as u32, y: 0, ..c }
    } else {
        ScanCursor { zoom: (c.zoom + 1) as u8, x: 0, y: 0, ..c }
    }
}

/// How many tiles a scan still has to give: those left on its zoom level and
/// all those of the levels below, down to the last.
pub open spec fn scan_remaining(c: ScanCursor) -> nat {
    remaining_tiles(c.zoom as nat, c.x as nat, c.y as nat) + tiles_in_levels(
        (c.zoom + 1) as nat,
        (c.max_zoom + 1) as nat,
    )
}

/// Whether a scan has a whole zoom level behind zoom 5 before it: such a
/// level is too large to size.
pub open spec fn scan_beyond_sizing(c: ScanCursor) -> bool {
    c.zoom < c.max_zoom && c.max_zoom > LAST_SIZED_ZOOM
}

/// What a scan says of how many tiles are left: nothing left once it is
/// through; the exact number as both bounds, where no level before it is too
/// large to size and the number fits in `usize`; else `usize::MAX` and no
/// upper bound.
pub open spec fn scan_size_hint(c: ScanCursor) -> (usize, Option<usize>) {
    if c.zoom > c.max_zoom {
        (0, Some(0))
    } else if !scan_beyond_sizing(c) && scan_remaining(c) <= usize::MAX {
        (scan_remaining(c) as usize, Some(scan_remaining(c) as usize))
    } else {
        (usize::MAX, None)
    }
}

/// Iterates over all the tiles from 0/0/0 up to, and including, `max_zoom`:
/// zoom level by zoom level, each level column by column.
pub struct AllTilesToZoomIterator {
    max_zoom: u8,
    next_zoom: u8,
    next_x: u32,
    next_y: u32,
}

impl View for AllTilesToZoomIterator {
    type V = ScanCursor;

    closed spec fn view(&self) -> ScanCursor {
        ScanCursor { max_zoom: self.max_zoom, zoom: self.next_zoom, x: self.next_x, y: self.next_y }
    }
}

/// The count of the tiles left on a zoom level is exact: it is 1 on the
/// level's last tile, and each step of the scan before that takes 1 off.
pub proof fn lemma_remaining_counts_down(c: ScanCursor)
    requires
        c.zoom <= 32,
        c.x <= last_coordinate(c.zoom),
        c.y <= last_coordinate(c.zoom),
    ensures
        c.x == last_coordinate(c.zoom) && c.y == last_coordinate(c.zoom) ==> remaining_tiles(
            c.zoom as nat,
            c.x as nat,
            c.y as nat,
        ) == 1,
        !(c.x == last_coordinate(c.zoom) && c.y == last_coordinate(c.zoom)) ==> scan_step(c).zoom
            == c.zoom && remaining_tiles(
            c.zoom as nat,
            scan_step(c).x as nat,
            scan_step(c).y as nat,
        ) + 1 == remaining_tiles(c.zoom as nat, c.x as nat, c.y as nat),
{
    lemma2_to64();
    lemma_pow2_pos(c.zoom as nat);
    lemma_pow2_monotonic(c.zoom as nat, 32);
    let p = pow2(c.zoom as nat) as int;
    let x = c.x as int;
    let y = c.y as int;
    if y == p - 1 && x < p - 1 {
        assert((p - x - 1) * p == (p - (x + 1) - 1) * p + p) by (nonlinear_arith);
    }
    if y == p - 1 && x == p - 1 {
        assert((p - x - 1) * p == 0) by (nonlinear_arith)
            requires
                x == p - 1,
        ;
    }
}

/// A run of zoom levels has the tiles of its first level and those of the
/// run behind it.
pub proof fn lemma_tiles_in_levels_first(lo: nat, hi: nat)
    requires
        lo < hi,
    ensures
        tiles_in_levels(lo, hi) == tiles_in_level(lo) + tiles_in_levels(lo + 1, hi),
    decreases hi,
{
    if lo + 1 < hi {
        lemma_tiles_in_levels_first(lo, (hi - 1) as nat);
    } else {
        assert(tiles_in_levels(lo, lo) == 0);
    }
}

/// The number of tiles that a scan still has to give is exact: it is 1 on the
/// last tile of the last zoom level, and each step before that takes 1 off,
/// from one zoom level to the next as well.
pub proof fn lemma_scan_remaining_counts_down(c: ScanCursor)
    requires
        c.zoom <= c.max_zoom,
        c.zoom <= 32,
        c.x <= last_coordinate(c.zoom),
        c.y <= last_coordinate(c.zoom),
    ensures
        c.zoom == c.max_zoom && c.x == last_coordinate(c.zoom) && c.y == last_coordinate(c.zoom)
            ==> scan_remaining(c) == 1,
        !(c.zoom == c.max_zoom && c.x == last_coordinate(c.zoom) && c.y == last_coordinate(
            c.zoom,
        )) ==> scan_remaining(scan_step(c)) + 1 == scan_remaining(c),
{
    lemma_remaining_counts_down(c);
    if c.x == last_coordinate(c.zoom) && c.y == last_coordinate(c.zoom) {
        if c.zoom < c.max_zoom {
            lemma_tiles_in_levels_first((c.zoom + 1) as nat, (c.max_zoom + 1) as nat);
            lemma_tiles_in_level_is_whole_scan((c.zoom + 1) as nat);
        } else {
            assert(tiles_in_levels((c.zoom + 1) as nat, (c.max_zoom + 1) as nat) == 0);
        }
    }
}

/// The tiles of a run of zoom levels are no fewer when the run goes on
/// further.
pub proof fn lemma_tiles_in_levels_grows(lo: nat, mid: nat, hi: nat)
    requires
        mid <= hi,
    ensures
        tiles_in_levels(lo, mid) <= tiles_in_levels(lo, hi),
    decreases hi,
{
    if mid < hi {
        lemma_tiles_in_levels_grows(lo, mid, (hi - 1) as nat);
    }
}

impl AllTilesToZoomIterator {
    /// The cursor stands on a place of its zoom level.
    #[verifier::type_invariant]
    pub open spec fn wf(&self) -> bool {
        self@.zoom <= 100 && self@.x <= last_coordinate(self@.zoom) && self@.y <= last_coordinate(
            self@.zoom,
        )
    }

    /// A traversal from 0/0/0 down to the last tile of `max_zoom`.
    pub fn new(max_zoom: u8) -> (r: Self)
        ensures
            r@ == (ScanCursor { max_zoom, zoom: 0, x: 0, y: 0 }),
    {
        AllTilesToZoomIterator { max_zoom: max_zoom, next_zoom: 0, next_x: 0, next_y: 0 }
    }

    /// The next tile, and the cursor moved past it. Nothing comes, and
    /// nothing moves, once the last zoom level is through.
    pub fn next(&mut self) -> (r: Option<Tile>)
        ensures
            scan_done(old(self)@) ==> r is None && final(self)@ == old(self)@,
            !scan_done(old(self)@) ==> r is Some && r.unwrap()@ == scan_tile(old(self)@),
            !scan_done(old(self)@) ==> final(self)@ == scan_step(old(self)@),
    {
        proof {
            use_type_invariant(&*self);
        }
        if self.next_zoom > self.max_zoom || self.next_zoom >= 100 {
            return None;
        }
        let last: u32 = last_coordinate_of(self.next_zoom);
        proof {
            lemma_pow2_monotonic(grid_bits(self.next_zoom), self.next_zoom as nat);
        }
        let tile = Tile::new(self.next_zoom, self.next_x, self.next_y);
        let max_zoom: u8 = self.max_zoom;
        if self.next_y < last {
            *self = AllTilesToZoomIterator { next_y: self.next_y + 1, ..*self };
        } else if self.next_x < last {
            *self = AllTilesToZoomIterator { next_x: self.next_x + 1, next_y: 0, ..*self };
        } else {
            *self = AllTilesToZoomIterator {
                max_zoom,
                next_zoom: self.next_zoom + 1,
                next_x: 0,
                next_y: 0,
            };
        }
        tile
    }

    /// How many tiles are left, as far as `usize` can say.
    pub fn size_hint(&self) -> (r: (usize, Option<usize>))
        ensures
            r == scan_size_hint(self@),
    {
        if self.next_zoom > self.max_zoom {
            return (0, Some(0));
        }
        proof {
            use_type_invariant(self);
            lemma2_to64();
            lemma_pow2_monotonic(grid_bits(self.next_zoom), self.next_zoom as nat);
        }
        let ghost lo = (self.next_zoom + 1) as nat;
        let ghost hi = (self.max_zoom + 1) as nat;
        let ghost here = remaining_tiles(
            self.next_zoom as nat,
            self.next_x as nat,
            self.next_y as nat,
        );
        let mut total: usize = match remaining_in_this_zoom(
            self.next_zoom,
            self.next_x,
            self.next_y,
        ) {
            None => {
                return (usize::MAX, None);
            },
            Some(n) => n,
        };
        let mut level: u16 = self.next_zoom as u16 + 1;
        let end: u16 = self.max_zoom as u16 + 1;
        while level < end
            invariant
                lo <= level <= end,
                end == hi,
                end <= 256,
                level > lo ==> level <= LAST_SIZED_ZOOM + 1,
                total as nat == here + tiles_in_levels(lo, level as nat),
                self@.zoom <= self@.max_zoom,
                lo == self@.zoom + 1,
                hi == self@.max_zoom + 1,
                here == remaining_tiles(self@.zoom as nat, self@.x as nat, self@.y as nat),
            decreases end - level,
        {
            proof {
                lemma_tiles_in_levels_grows(lo, (level + 1) as nat, hi);
                lemma2_to64();
                if level <= LAST_SIZED_ZOOM {
                    lemma_pow2_monotonic(2 * (level as nat), 10);
                }
            }
            let in_level: usize = match num_tiles_in_zoom(level as u8) {
                None => {
                    return (usize::MAX, None);
                },
                Some(n) => n,
            };
            total = match total.checked_add(in_level) {
                None => {
                    return (usize::MAX, None);
                },
                Some(n) => n,
            };
            level = level + 1;
        }
        (total, Some(total))
    }
}

/// The tiles that wait in a traversal of all tiles below a tile.
pub struct AllSubTilesIterator {
    tiles: VecDeque<Tile>,
}

impl View for AllSubTilesIterator {
    type V = Seq<TileId>;

    closed spec fn view(&self) -> Seq<TileId> {
        self.tiles@.map_values(|t: Tile| t@)
    }
}

/// The tiles right below `id` in the order they are visited, none where `id`
/// has no subtiles.
pub open spec fn children_of(id: TileId) -> Seq<TileId> {
    if has_subtiles(id) {
        subtile_ids(id)
    } else {
        Seq::empty()
    }
}

impl AllSubTilesIterator {
    /// A traversal of all tiles below `base_tile`: its four subtiles wait.
    pub fn new_from_tile(base_tile: &Tile) -> (r: Self)
        ensures
            r@ == children_of(base_tile@),
    {
        let mut tiles: VecDeque<Tile> = VecDeque::new();
        match base_tile.subtiles() {
            None => {},
            Some(sub) => {
                tiles.push_back(sub[0]);
                tiles.push_back(sub[1]);
                tiles.push_back(sub[2]);
                tiles.push_back(sub[3]);
            },
        }
        AllSubTilesIterator { tiles }
    }

    /// The tile that waited longest, whose subtiles now wait behind all
    /// others; nothing where none waits.
    pub fn next(&mut self) -> (r: Option<Tile>)
        ensures
            old(self)@.len() == 0 ==> r is None && final(self)@ == old(self)@,
            old(self)@.len() > 0 ==> r is Some && r.unwrap()@ == old(self)@[0] && final(self)@
                == old(self)@.skip(1) + children_of(old(self)@[0]),
    {
        match self.tiles.pop_front() {
            None => {
                None
            },
            Some(tile) => {
                match tile.subtiles() {
                    None => {},
                    Some(sub) => {
                        self.tiles.push_back(sub[0]);
                        self.tiles.push_back(sub[1]);
                        self.tiles.push_back(sub[2]);
                        self.tiles.push_back(sub[3]);
                    },
                }
                Some(tile)
            },
        }
    }
}

} // verus!
