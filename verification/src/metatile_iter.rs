//! The traversal of metatiles: zoom level by zoom level, over the whole world
//! or over the rectangle that a region covers on each level, in Z-order.

use vstd::prelude::*;
use vstd::arithmetic::div_mod::lemma_div_is_ordered;
use vstd::arithmetic::power2::{lemma2_to64, pow2};
use crate::bounds::{BoundsId, TileBounds};
use crate::iter::grid_bits;
use crate::metatile::{
    is_power_of_two, lemma_u8_power_of_two, metatile_of, scale_is_power_of_two, valid_metatile,
    Metatile, MetatileId,
};
use crate::pow::pow2_u64;
use crate::zorder::{
    deinterleave, lemma_interleave_monotonic, lemma_zorder_roundtrip, xy_to_zorder, zorder_of,
    zorder_to_xy,
};

verus! {

/// The rectangle of the metatile grid that a traversal walks on one zoom
/// level: the column and row it starts at, and the last column and row
/// counted from there.
pub struct Grid {
    pub start_x: u32,
    pub start_y: u32,
    pub last_i: u32,
    pub last_j: u32,
}

/// Where a traversal of metatiles stands and what steers it.
pub struct MetatileCursor {
    /// The side of the metatiles.
    pub scale: u8,
    /// The zoom level the traversal is on.
    pub zoom: u8,
    /// The last zoom level of the traversal.
    pub maxzoom: u8,
    /// The Z-order index, within the zoom level's rectangle, to go on from.
    pub zorder: u64,
    /// The region's corner tiles by zoom level; none for the whole world.
    pub bounds: Option<Seq<BoundsId>>,
    /// Whether the traversal is over.
    pub finished: bool,
}

/// The last column, and row, of the metatile grid of the whole world on a
/// zoom level: the tiles across, as far as 32-bit coordinates reach, divided
/// by the scale and rounded up, less one.
pub open spec fn world_last(scale: u8, zoom: u8) -> nat {
    let across = pow2(grid_bits(zoom));
    let whole = across / (scale as nat);
    if across % (scale as nat) > 0 {
        whole
    } else {
        (whole - 1) as nat
    }
}

/// The rectangle of the metatile grid that a region with the corner tiles `b`
/// covers.
pub open spec fn bounds_grid(scale: u8, b: BoundsId) -> Grid {
    Grid {
        start_x: b.min_x / (scale as u32),
        start_y: b.min_y / (scale as u32),
        last_i: (b.max_x / (scale as u32) - b.min_x / (scale as u32)) as u32,
        last_j: (b.max_y / (scale as u32) - b.min_y / (scale as u32)) as u32,
    }
}

/// The rectangle that a traversal walks on its zoom level.
pub open spec fn cursor_grid(c: MetatileCursor) -> Grid {
    match c.bounds {
        None => Grid {
            start_x: 0,
            start_y: 0,
            last_i: world_last(c.scale, c.zoom) as u32,
            last_j: world_last(c.scale, c.zoom) as u32,
        },
        Some(table) => bounds_grid(c.scale, table[c.zoom as int]),
    }
}

/// Whether the cell with the Z-order index `z` lies in the rectangle.
pub open spec fn in_grid(g: Grid, z: nat) -> bool {
    deinterleave(z, 32).0 <= g.last_i && deinterleave(z, 32).1 <= g.last_j
}

/// The Z-order index of the rectangle's far corner, the last one walked.
pub open spec fn last_zorder(g: Grid) -> nat {
    zorder_of(g.last_i, g.last_j)
}

/// The first index from `from` on whose cell lies in the rectangle. The
/// indices between belong to cells that the Z-order curve visits outside a
/// rectangle that is no square.
pub open spec fn next_cell(g: Grid, from: nat) -> nat
    decreases last_zorder(g) - from,
{
    if from >= last_zorder(g) || in_grid(g, from) {
        from
    } else {
        next_cell(g, from + 1)
    }
}

/// The cell that comes next is the first one in the rectangle: from an index
/// up to the rectangle's last, `next_cell` finds an index of the rectangle,
/// no further than the last, and every index it passed over lies outside.
pub proof fn lemma_next_cell_is_first_in_grid(g: Grid, from: nat)
    requires
        from <= last_zorder(g),
    ensures
        from <= next_cell(g, from) <= last_zorder(g),
        in_grid(g, next_cell(g, from)),
        forall|k: nat| from <= k < next_cell(g, from) ==> !in_grid(g, k),
    decreases last_zorder(g) - from,
{
    lemma_zorder_roundtrip(g.last_i, g.last_j);
    if from < last_zorder(g) && !in_grid(g, from) {
        lemma_next_cell_is_first_in_grid(g, from + 1);
    }
}

/// The traversal of a rectangle misses none of its cells: the index of a
/// cell of the rectangle is no larger than the last index walked, and the
/// cell counts as in the rectangle.
pub proof fn lemma_grid_cell_is_walked(g: Grid, i: u32, j: u32)
    requires
        i <= g.last_i,
        j <= g.last_j,
    ensures
        zorder_of(i, j) <= last_zorder(g),
        in_grid(g, zorder_of(i, j)),
{
    lemma2_to64();
    lemma_interleave_monotonic(i as nat, j as nat, g.last_i as nat, g.last_j as nat, 32);
    lemma_zorder_roundtrip(i, j);
}

/// The metatile at the cell with index `z`, where there is one: the cell's
/// column and row, counted from the rectangle's start and times the scale,
/// are the coordinates of its north-west tile.
pub open spec fn cell_metatile(c: MetatileCursor, z: nat) -> Option<MetatileId> {
    let g = cursor_grid(c);
    let x = (g.start_x + deinterleave(z, 32).0) * c.scale;
    let y = (g.start_y + deinterleave(z, 32).1) * c.scale;
    if x <= u32::MAX && y <= u32::MAX && valid_metatile(c.scale, c.zoom, x as u32, y as u32) {
        Some(metatile_of(c.scale, c.zoom, x as u32, y as u32))
    } else {
        None
    }
}

/// The cursor after the metatile at index `z` was given: the next index; or
/// the start of the next zoom level behind the rectangle's last index; or
/// the end behind the last zoom level's.
pub open spec fn cursor_after(c: MetatileCursor, z: nat) -> MetatileCursor {
    if z < last_zorder(cursor_grid(c)) {
        MetatileCursor { zorder: (z + 1) as u64, ..c }
    } else if c.zoom < c.maxzoom {
        MetatileCursor { zoom: (c.zoom + 1) as u8, zorder: 0, ..c }
    } else {
        MetatileCursor { finished: true, ..c }
    }
}

/// What a pull gives and leaves: nothing and no change once the traversal is
/// over; else the metatile at the next cell of the rectangle and the cursor
/// behind it, or, where that cell has no metatile, nothing and the end.
pub open spec fn pull(c: MetatileCursor) -> (Option<MetatileId>, MetatileCursor) {
    if c.finished {
        (None, c)
    } else {
        let z = next_cell(cursor_grid(c), c.zorder as nat);
        match cell_metatile(c, z) {
            Some(id) => (Some(id), cursor_after(c, z)),
            None => (None, MetatileCursor { finished: true, ..c }),
        }
    }
}

/// The corner tiles of a table of bounds.
pub open spec fn bounds_ids(table: Option<Vec<TileBounds>>) -> Option<Seq<BoundsId>> {
    match table {
        None => None,
        Some(v) => Some(v@.map_values(|b: TileBounds| b@)),
    }
}

/// A table of corner tiles with the whole world at zoom 0: the entry of zoom
/// 0 is the single tile 0/0/0, whatever the table had there; the others, and
/// a table without entries, stay as they are.
pub open spec fn world_at_zoom_0(table: Seq<BoundsId>) -> Seq<BoundsId> {
    if table.len() == 0 {
        table
    } else {
        table.update(0, BoundsId { min_x: 0, min_y: 0, max_x: 0, max_y: 0 })
    }
}

/// The cursor that a traversal starts with: on `minzoom`, before the first
/// cell. It is over from the start where the scale is no power of two, where
/// `minzoom` lies behind `maxzoom`, or where the table of bounds has no entry
/// for `minzoom`; and it goes no further down than the table has entries.
pub open spec fn start_cursor(
    scale: u8,
    bounds: Option<Seq<BoundsId>>,
    minzoom: u8,
    maxzoom: u8,
) -> MetatileCursor {
    let deepest = if bounds is Some && bounds.unwrap().len() <= maxzoom {
        bounds.unwrap().len() - 1
    } else {
        maxzoom as int
    };
    MetatileCursor {
        scale,
        zoom: minzoom,
        maxzoom: if deepest < 0 {
            0u8
        } else {
            deepest as u8
        },
        zorder: 0,
        bounds,
        finished: !is_power_of_two(scale as nat) || minzoom > deepest,
    }
}

/// Iterates over the metatiles of the world, or of a region.
#[derive(Debug)]
pub struct MetatilesIterator {
    scale: u8,
    curr_zoom: u8,
    maxzoom: u8,
    curr_zorder: u64,
    bounds: Option<Vec<TileBounds>>,
    finished: bool,
}

impl View for MetatilesIterator {
    type V = MetatileCursor;

    closed spec fn view(&self) -> MetatileCursor {
        MetatileCursor {
            scale: self.scale,
            zoom: self.curr_zoom,
            maxzoom: self.maxzoom,
            zorder: self.curr_zorder,
            bounds: bounds_ids(self.bounds),
            finished: self.finished,
        }
    }
}

/// The last column and row of the whole world's metatile grid fit in 32 bits.
pub proof fn lemma_world_last_fits(scale: u8, zoom: u8)
    requires
        scale > 0,
    ensures
        world_last(scale, zoom) <= u32::MAX,
{
    lemma2_to64();
    let across = pow2(grid_bits(zoom)) as int;
    assert(0x1_0000_0000int / (scale as int) <= 0x1_0000_0000) by (nonlinear_arith)
        requires
            scale > 0,
    ;
    if across % (scale as int) > 0 {
        vstd::arithmetic::div_mod::lemma_fundamental_div_mod(across, scale as int);
        assert(across / (scale as int) < 0x1_0000_0000) by (nonlinear_arith)
            requires
                across == (scale as int) * (across / (scale as int)) + across % (scale as int),
                across % (scale as int) > 0,
                across <= 0x1_0000_0000,
                scale >= 1,
        ;
    } else {
        vstd::arithmetic::div_mod::lemma_fundamental_div_mod(across, scale as int);
        assert(across / (scale as int) >= 1) by (nonlinear_arith)
            requires
                across == (scale as int) * (across / (scale as int)) + across % (scale as int),
                across % (scale as int) == 0,
                across >= 1,
                scale >= 1,
        ;
    }
}

impl MetatilesIterator {
    /// While the traversal goes on, the scale is a power of two, the zoom
    /// level is one of the traversal's, the table of bounds reaches down to
    /// the last level, and the index is one of the level's rectangle.
    #[verifier::type_invariant]
    pub open spec fn wf(&self) -> bool {
        !self@.finished ==> {
            &&& is_power_of_two(self@.scale as nat)
            &&& self@.zoom <= self@.maxzoom
            &&& (self@.bounds is Some ==> self@.maxzoom < self@.bounds.unwrap().len())
            &&& self@.zorder <= last_zorder(cursor_grid(self@))
        }
    }

    /// All metatiles of side `scale` of the world, from zoom 0 to zoom 32.
    pub fn all(scale: u8) -> (r: Self)
        ensures
            r@ == start_cursor(scale, None, 0, 32),
    {
        MetatilesIterator::new_for_bbox_zoom(scale, None, 0, 32)
    }

    /// The metatiles of side `scale` of a region, from zoom 0 to zoom 32.
    /// `bounds` holds the region's corner tiles on each zoom level, that of
    /// zoom 0 first.
    pub fn new_for_bbox(scale: u8, bounds: Vec<TileBounds>) -> (r: Self)
        ensures
            r@ == start_cursor(scale, bounds_ids(Some(bounds)), 0, 32),
    {
        MetatilesIterator::new_for_bbox_zoom(scale, Some(bounds), 0, 32)
    }

    /// The metatiles of side `scale` that a region is in, from zoom 0 to zoom
    /// 32, starting from the whole world: on zoom 0 the traversal walks the
    /// one cell that holds everything, whatever `bounds` says of zoom 0; from
    /// zoom 1 on it walks the region's rectangle.
    pub fn new_for_bbox_from_world(scale: u8, bounds: Vec<TileBounds>) -> (r: Self)
        ensures
            r@ == start_cursor(
                scale,
                Some(world_at_zoom_0(bounds_ids(Some(bounds)).unwrap())),
                0,
                32,
            ),
    {
        let ghost given = bounds_ids(Some(bounds)).unwrap();
        let mut bounds = bounds;
        if bounds.len() > 0 {
            let world = TileBounds::new((0, 0), (0, 0)).unwrap();
            bounds.set(0, world);
        }
        proof {
            assert(bounds_ids(Some(bounds)).unwrap() =~= world_at_zoom_0(given));
        }
        MetatilesIterator::new_for_bbox_zoom(scale, Some(bounds), 0, 32)
    }

    /// The metatiles of side `scale` from `minzoom` to `maxzoom`, of the
    /// region whose corner tiles `bounds` holds by zoom level, or of the
    /// whole world where it holds none.
    pub fn new_for_bbox_zoom(
        scale: u8,
        bounds: Option<Vec<TileBounds>>,
        minzoom: u8,
        maxzoom: u8,
    ) -> (r: Self)
        ensures
            r@ == start_cursor(scale, bounds_ids(bounds), minzoom, maxzoom),
    {
        let mut deepest: u8 = maxzoom;
        let mut finished: bool = !scale_is_power_of_two(scale) || minzoom > maxzoom;
        match &bounds {
            None => {},
            Some(table) => {
                if table.len() <= maxzoom as usize {
                    if table.len() == 0 {
                        deepest = 0;
                        finished = true;
                    } else {
                        deepest = (table.len() - 1) as u8;
                        finished = !scale_is_power_of_two(scale) || minzoom > deepest;
                    }
                }
            },
        }
        MetatilesIterator {
            scale,
            curr_zoom: minzoom,
            maxzoom: deepest,
            curr_zorder: 0,
            bounds,
            finished,
        }
    }

    /// The rectangle of the zoom level the traversal is on.
    fn grid(&self) -> (g: Grid)
        requires
            !self@.finished,
        ensures
            g == cursor_grid(self@),
    {
        proof {
            use_type_invariant(self);
            lemma_u8_power_of_two(self.scale);
        }
        let scale: u32 = self.scale as u32;
        match &self.bounds {
            None => {
                proof {
                    lemma2_to64();
                }
                let bits: u8 = if self.curr_zoom < 32 {
                    self.curr_zoom
                } else {
                    32
                };
                let across: u64 = pow2_u64(bits);
                let whole: u64 = across / (scale as u64);
                let last: u64 = if across % (scale as u64) > 0 {
                    whole
                } else {
                    whole - 1
                };
                Grid { start_x: 0, start_y: 0, last_i: last as u32, last_j: last as u32 }
            },
            Some(table) => {
                let b: TileBounds = table[self.curr_zoom as usize];
                proof {
                    use_type_invariant(&b);
                    lemma_div_is_ordered(b@.min_x as int, b@.max_x as int, scale as int);
                    lemma_div_is_ordered(b@.min_y as int, b@.max_y as int, scale as int);
                }
                let top_left = b.top_left();
                let bottom_right = b.bottom_right();
                Grid {
                    start_x: top_left.0 / scale,
                    start_y: top_left.1 / scale,
                    last_i: bottom_right.0 / scale - top_left.0 / scale,
                    last_j: bottom_right.1 / scale - top_left.1 / scale,
                }
            },
        }
    }

    /// The next metatile, and the cursor moved past it; nothing once the
    /// traversal is over. The cells of a zoom level's rectangle come in
    /// Z-order, the zoom levels from the first to the last.
    pub fn next(&mut self) -> (r: Option<Metatile>)
        ensures
            match pull(old(self)@).0 {
                Some(id) => r is Some && r.unwrap()@ == id,
                None => r is None,
            },
            final(self)@ == pull(old(self)@).1,
    {
        if self.finished {
            return None;
        }
        proof {
            use_type_invariant(&*self);
        }
        let ghost before = self@;
        let g: Grid = self.grid();
        let last: u64 = xy_to_zorder(g.last_i, g.last_j);
        let mut z: u64 = self.curr_zorder;
        let mut cell: (u32, u32) = zorder_to_xy(z);
        proof {
            lemma_zorder_roundtrip(g.last_i, g.last_j);
        }
        while !(cell.0 <= g.last_i && cell.1 <= g.last_j)
            invariant
                z <= last,
                last as nat == last_zorder(g),
                (cell.0 as nat, cell.1 as nat) == deinterleave(z as nat, 32),
                deinterleave(last as nat, 32) == (g.last_i as nat, g.last_j as nat),
                next_cell(g, z as nat) == next_cell(g, before.zorder as nat),
            decreases last - z,
        {
            z = z + 1;
            cell = zorder_to_xy(z);
        }
        let scale: u64 = self.scale as u64;
        let column: u64 = g.start_x as u64 + cell.0 as u64;
        let row: u64 = g.start_y as u64 + cell.1 as u64;
        proof {
            assert(column * scale <= 0x2_0000_0000 * 255 && row * scale <= 0x2_0000_0000 * 255)
                by (nonlinear_arith)
                requires
                    column <= 0x2_0000_0000,
                    row <= 0x2_0000_0000,
                    scale <= 255,
            ;
        }
        let x: u64 = column * scale;
        let y: u64 = row * scale;
        let found: Option<Metatile> = if x > 0xffff_ffff || y > 0xffff_ffff {
            None
        } else {
            Metatile::new(self.scale, self.curr_zoom, x as u32, y as u32)
        };
        match found {
            None => {
                self.finished = true;
                None
            },
            Some(mt) => {
                if z < last {
                    self.curr_zorder = z + 1;
                } else if self.curr_zoom < self.maxzoom {
                    self.curr_zorder = 0;
                    self.curr_zoom = self.curr_zoom + 1;
                } else {
                    self.finished = true;
                }
                Some(mt)
            },
        }
    }
}

} // verus!
