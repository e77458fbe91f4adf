//! A rectangle of tiles on one zoom level, given by its corner tiles.

use vstd::prelude::*;
use vstd::arithmetic::div_mod::{lemma_div_is_ordered, lemma_fundamental_div_mod};
use crate::tile::{valid_tile, Tile, TileId};

verus! {

/// The corner tiles of a rectangle, as contracts speak of them.
pub struct BoundsId {
    pub min_x: u32,
    pub min_y: u32,
    pub max_x: u32,
    pub max_y: u32,
}

/// The tiles from a north-west corner to a south-east corner on one zoom
/// level, both corners included.
#[derive(PartialEq, Eq, Structural, Debug, Clone, Copy, Hash)]
pub struct TileBounds {
    min_x: u32,
    min_y: u32,
    max_x: u32,
    max_y: u32,
}

impl View for TileBounds {
    type V = BoundsId;

    closed spec fn view(&self) -> BoundsId {
        BoundsId { min_x: self.min_x, min_y: self.min_y, max_x: self.max_x, max_y: self.max_y }
    }
}

/// Whether the corners are in order: the south-east one is neither west nor
/// north of the north-west one.
pub open spec fn ordered_corners(b: BoundsId) -> bool {
    b.min_x <= b.max_x && b.min_y <= b.max_y
}

/// How many tiles a rectangle holds.
pub open spec fn tile_count(b: BoundsId) -> nat {
    ((b.max_x - b.min_x + 1) * (b.max_y - b.min_y + 1)) as nat
}

/// How many metatiles of side `scale` a rectangle touches: the columns and
/// rows of the metatile grid from the one of the first corner to the one of
/// the second.
pub open spec fn metatile_count(b: BoundsId, scale: nat) -> nat {
    ((b.max_x as nat / scale - b.min_x as nat / scale + 1) * (b.max_y as nat / scale
        - b.min_y as nat / scale + 1)) as nat
}

impl TileBounds {
    /// The corners of a rectangle are in order.
    #[verifier::type_invariant]
    pub open spec fn wf(&self) -> bool {
        ordered_corners(self@)
    }

    /// The rectangle from the tile `top_left` to the tile `bottom_right`, each
    /// an `(x, y)` pair; nothing where the corners are out of order.
    pub fn new(top_left: (u32, u32), bottom_right: (u32, u32)) -> (r: Option<Self>)
        ensures
            r is Some <==> top_left.0 <= bottom_right.0 && top_left.1 <= bottom_right.1,
            r is Some ==> r.unwrap()@ == (BoundsId {
                min_x: top_left.0,
                min_y: top_left.1,
                max_x: bottom_right.0,
                max_y: bottom_right.1,
            }),
    {
        if top_left.0 <= bottom_right.0 && top_left.1 <= bottom_right.1 {
            Some(
                TileBounds {
                    min_x: top_left.0,
                    min_y: top_left.1,
                    max_x: bottom_right.0,
                    max_y: bottom_right.1,
                },
            )
        } else {
            None
        }
    }

    /// The north-west corner tile, as `(x, y)`.
    pub fn top_left(&self) -> (r: (u32, u32))
        ensures
            r == (self@.min_x, self@.min_y),
    {
        (self.min_x, self.min_y)
    }

    /// The south-east corner tile, as `(x, y)`.
    pub fn bottom_right(&self) -> (r: (u32, u32))
        ensures
            r == (self@.max_x, self@.max_y),
    {
        (self.max_x, self.max_y)
    }

}

/// How many tiles the rectangle that a region covers on a zoom level holds,
/// or nothing where the number is beyond `usize`.
pub fn size_bbox_zoom(bounds: &TileBounds) -> (r: Option<usize>)
    ensures
        r == if tile_count(bounds@) <= usize::MAX {
            Some(tile_count(bounds@) as usize)
        } else {
            None
        },
{
    proof {
        use_type_invariant(bounds);
    }
    let top_left = bounds.top_left();
    let bottom_right = bounds.bottom_right();
    let width: u64 = (bottom_right.0 - top_left.0) as u64 + 1;
    let height: u64 = (bottom_right.1 - top_left.1) as u64 + 1;
    product_in_usize(width, height)
}

/// How many metatiles of side `metatile_scale` the rectangle that a region
/// covers on a zoom level touches, or nothing where the scale is 0 or the
/// number is beyond `usize`.
pub fn size_bbox_zoom_metatiles(bounds: &TileBounds, metatile_scale: u8) -> (r: Option<usize>)
    ensures
        r == if metatile_scale > 0 && metatile_count(bounds@, metatile_scale as nat)
            <= usize::MAX {
            Some(metatile_count(bounds@, metatile_scale as nat) as usize)
        } else {
            None
        },
{
    if metatile_scale == 0 {
        return None;
    }
    let scale: u32 = metatile_scale as u32;
    let top_left = bounds.top_left();
    let bottom_right = bounds.bottom_right();
    proof {
        use_type_invariant(bounds);
        lemma_div_is_ordered(top_left.0 as int, bottom_right.0 as int, scale as int);
        lemma_div_is_ordered(top_left.1 as int, bottom_right.1 as int, scale as int);
    }
    let width: u64 = (bottom_right.0 / scale - top_left.0 / scale) as u64 + 1;
    let height: u64 = (bottom_right.1 / scale - top_left.1 / scale) as u64 + 1;
    product_in_usize(width, height)
}

/// The `k`-th tile of a rectangle on a zoom level, counted from 0 column by
/// column from the west, each column from the north; none where the
/// rectangle has no `k`-th tile or the place is no tile of that zoom level.
pub open spec fn tile_at_id(b: BoundsId, zoom: u8, k: nat) -> Option<TileId> {
    let height = (b.max_y - b.min_y + 1) as nat;
    let x = (b.min_x + k / height) as nat;
    let y = (b.min_y + k % height) as nat;
    if k < tile_count(b) && valid_tile(zoom as nat, x, y) {
        Some(TileId { zoom, x: x as u32, y: y as u32 })
    } else {
        None
    }
}

/// The `k`-th tile that covers a region on a zoom level, counted from 0
/// column by column from the west, each column from the north.
pub fn tile_at(bounds: &TileBounds, zoom: u8, k: u64) -> (r: Option<Tile>)
    ensures
        r is Some <==> tile_at_id(bounds@, zoom, k as nat) is Some,
        r is Some ==> r.unwrap()@ == tile_at_id(bounds@, zoom, k as nat).unwrap(),
{
    proof {
        use_type_invariant(bounds);
    }
    let top_left = bounds.top_left();
    let bottom_right = bounds.bottom_right();
    let height: u64 = (bottom_right.1 - top_left.1) as u64 + 1;
    let last_column: u64 = (bottom_right.0 - top_left.0) as u64;
    let column: u64 = k / height;
    let row: u64 = k % height;
    proof {
        lemma_fundamental_div_mod(k as int, height as int);
        let width = last_column + 1;
        assert(k < width * height <==> column < width) by (nonlinear_arith)
            requires
                k == height * column + row,
                0 <= row < height,
                0 <= column,
                0 < width,
        ;
    }
    if column > last_column {
        None
    } else {
        Tile::new(zoom, top_left.0 + column as u32, top_left.1 + row as u32)
    }
}

/// The product of two sides of at most `2^32`, or nothing where it is beyond
/// `usize`.
fn product_in_usize(width: u64, height: u64) -> (r: Option<usize>)
    requires
        width <= 0x1_0000_0000,
        height <= 0x1_0000_0000,
    ensures
        r == if width * height <= usize::MAX {
            Some((width * height) as usize)
        } else {
            None
        },
{
    proof {
        assert(width * height <= 0x1_0000_0000 * 0x1_0000_0000) by (nonlinear_arith)
            requires
                width <= 0x1_0000_0000,
                height <= 0x1_0000_0000,
        ;
    }
    let product: u128 = (width as u128) * (height as u128);
    if product <= usize::MAX as u128 {
        Some(product as usize)
    } else {
        None
    }
}

} // verus!
