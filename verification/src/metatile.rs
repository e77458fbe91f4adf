//! Metatiles: square blocks of tiles, a power of two on a side, that are
//! handled as one unit.

use vstd::prelude::*;
use vstd::arithmetic::div_mod::lemma_fundamental_div_mod;
use vstd::arithmetic::power2::{lemma2_to64, lemma_pow2_adds, pow2};
use crate::metatile_iter::{start_cursor, MetatilesIterator};
use crate::paths::{dir_path, join_path, mt_parts, xy_to_mt};
use crate::pow::{lemma_pow2_monotonic, pow2_u64};
use crate::text::{captures, group_number, group_value, regex_captures};
use crate::tile::{valid_tile, Tile, TileId};

verus! {

/// Whether `n` is a power of two.
pub open spec fn is_power_of_two(n: nat) -> bool {
    exists|k: nat| n == pow2(k)
}

/// The powers of two that fit in a byte, one by one.
pub proof fn lemma_u8_power_of_two(s: u8)
    ensures
        is_power_of_two(s as nat) <==> (s == 1 || s == 2 || s == 4 || s == 8 || s == 16 || s == 32
            || s == 64 || s == 128),
{
    lemma2_to64();
    if s == 1 || s == 2 || s == 4 || s == 8 || s == 16 || s == 32 || s == 64 || s == 128 {
        let k: nat = if s == 1 {
            0
        } else if s == 2 {
            1
        } else if s == 4 {
            2
        } else if s == 8 {
            3
        } else if s == 16 {
            4
        } else if s == 32 {
            5
        } else if s == 64 {
            6
        } else {
            7
        };
    }
    if is_power_of_two(s as nat) {
        let k = choose|k: nat| s as nat == pow2(k);
        if k >= 8 {
            lemma_pow2_monotonic(8, k);
        }
    }
}

/// A block that starts on a multiple of its side `s`, a power of two, and
/// starts inside a grid of `2^z` cells that is at least `s` wide, ends inside
/// that grid.
pub proof fn lemma_aligned_block_fits(x: nat, s: nat, z: nat)
    requires
        is_power_of_two(s),
        s <= pow2(z),
        x % s == 0,
        x < pow2(z),
    ensures
        x + s <= pow2(z),
{
    let k = choose|k: nat| s == pow2(k);
    if k > z {
        vstd::arithmetic::power2::lemma_pow2_strictly_increases(z, k);
    }
    let rest = pow2((z - k) as nat);
    lemma_pow2_adds(k, (z - k) as nat);
    lemma_fundamental_div_mod(x as int, s as int);
    let q = x / s;
    assert(q < rest) by (nonlinear_arith)
        requires
            s * q < s * rest,
            s > 0,
    ;
    assert(s * q + s <= s * rest) by (nonlinear_arith)
        requires
            q + 1 <= rest,
            s > 0,
    ;
}

/// Whether a metatile of side `scale` exists at `zoom/x/y`: the scale is a
/// power of two and `zoom/x/y` is a tile.
pub open spec fn valid_metatile(scale: u8, zoom: u8, x: u32, y: u32) -> bool {
    is_power_of_two(scale as nat) && valid_tile(zoom as nat, x as nat, y as nat)
}

/// The scale, zoom and north-west tile of a metatile, as contracts speak of
/// them.
pub struct MetatileId {
    pub scale: u8,
    pub zoom: u8,
    pub x: u32,
    pub y: u32,
}

/// The metatile of side `scale` that holds the tile `zoom/x/y`: its corner is
/// `x` and `y` rounded down to multiples of the scale.
pub open spec fn metatile_of(scale: u8, zoom: u8, x: u32, y: u32) -> MetatileId {
    MetatileId {
        scale,
        zoom,
        x: ((x as int / scale as int) * scale) as u32,
        y: ((y as int / scale as int) * scale) as u32,
    }
}

/// The side of a metatile in tiles: its scale, or the whole width of the
/// zoom level where that is less.
pub open spec fn metatile_size(id: MetatileId) -> nat {
    if pow2(id.zoom as nat) < id.scale {
        pow2(id.zoom as nat)
    } else {
        id.scale as nat
    }
}

/// The tiles of a metatile, column by column from the west, each column from
/// the north.
pub open spec fn metatile_tiles(id: MetatileId) -> Seq<TileId> {
    let size = metatile_size(id) as int;
    Seq::new(
        (size * size) as nat,
        |n: int| TileId { zoom: id.zoom, x: (id.x + n / size) as u32, y: (id.y + n % size) as u32 },
    )
}

/// The text form of a metatile: the scale, a space, and the tile's `zoom/x/y`.
pub const METATILE_PATTERN: &'static str =
    "^(?P<scale>[0-9]+) (?P<zoom>[0-9]?[0-9])/(?P<x>[0-9]{1,10})/(?P<y>[0-9]{1,10})$";

/// The metatile that the capture groups of a match write: scale, zoom, `x`
/// and `y` are groups 1 to 4.
pub open spec fn metatile_of_groups(groups: Option<Seq<Option<Seq<char>>>>) -> Option<MetatileId> {
    match groups {
        None => None,
        Some(g) => match (
            group_number(g, 1),
            group_number(g, 2),
            group_number(g, 3),
            group_number(g, 4),
        ) {
            (Some(scale), Some(zoom), Some(x), Some(y)) => if scale <= u8::MAX && zoom <= u8::MAX
                && x <= u32::MAX && y <= u32::MAX && valid_metatile(
                scale as u8,
                zoom as u8,
                x as u32,
                y as u32,
            ) {
                Some(metatile_of(scale as u8, zoom as u8, x as u32, y as u32))
            } else {
                None
            },
            _ => None,
        },
    }
}

/// Metatiles are NxN tiles.
#[derive(PartialEq, Eq, Structural, Debug, Clone, Copy, Hash)]
pub struct Metatile {
    scale: u8,
    zoom: u8,
    x: u32,
    y: u32,
}

impl View for Metatile {
    type V = MetatileId;

    closed spec fn view(&self) -> MetatileId {
        MetatileId { scale: self.scale, zoom: self.zoom, x: self.x, y: self.y }
    }
}

/// Whether `scale` is a power of two.
pub fn scale_is_power_of_two(scale: u8) -> (r: bool)
    ensures
        r == is_power_of_two(scale as nat),
{
    proof {
        lemma_u8_power_of_two(scale);
    }
    scale == 1 || scale == 2 || scale == 4 || scale == 8 || scale == 16 || scale == 32 || scale
        == 64 || scale == 128
}

impl Metatile {
    /// Every metatile has a power of two as scale and starts on a tile whose
    /// coordinates are multiples of the scale.
    #[verifier::type_invariant]
    pub open spec fn wf(&self) -> bool {
        &&& valid_metatile(self@.scale, self@.zoom, self@.x, self@.y)
        &&& self@.x % (self@.scale as u32) == 0
        &&& self@.y % (self@.scale as u32) == 0
    }

    /// Two metatiles with the same scale and corner are the same metatile.
    pub proof fn lemma_same_id(a: Metatile, b: Metatile)
        requires
            a@ == b@,
        ensures
            a == b,
    {
    }

    /// The metatile of side `scale` that holds the tile `zoom/x/y`, or nothing
    /// where the scale is no power of two or there is no such tile.
    pub fn new(scale: u8, zoom: u8, x: u32, y: u32) -> (r: Option<Self>)
        ensures
            r is Some <==> valid_metatile(scale, zoom, x, y),
            r is Some ==> r.unwrap()@ == metatile_of(scale, zoom, x, y),
    {
        if !scale_is_power_of_two(scale) {
            return None;
        }
        proof {
            lemma_u8_power_of_two(scale);
        }
        match Tile::new(zoom, x, y) {
            None => None,
            Some(_) => {
                let s: u32 = scale as u32;
                proof {
                    lemma_fundamental_div_mod(x as int, s as int);
                    lemma_fundamental_div_mod(y as int, s as int);
                    assert((x / s) * s <= x && (y / s) * s <= y) by (nonlinear_arith)
                        requires
                            x == s * (x / s) + x % s,
                            y == s * (y / s) + y % s,
                            x % s >= 0,
                            y % s >= 0,
                    ;
                }
                let mx: u32 = (x / s) * s;
                let my: u32 = (y / s) * s;
                proof {
                    assert(mx % s == 0) by (nonlinear_arith)
                        requires
                            mx == (x / s) * s,
                            s > 0,
                    ;
                    assert(my % s == 0) by (nonlinear_arith)
                        requires
                            my == (y / s) * s,
                            s > 0,
                    ;
                }
                Some(Metatile { scale, zoom, x: mx, y: my })
            },
        }
    }

    /// The metatile that the capture groups of a match write; nothing where
    /// there was no match, a group is missing or no number, or no metatile has
    /// these numbers.
    pub fn from_captures(groups: &Option<Vec<Option<String>>>) -> (r: Option<Metatile>)
        ensures
            r is Some <==> metatile_of_groups(groups.deep_view()) is Some,
            r is Some ==> r.unwrap()@ == metatile_of_groups(groups.deep_view()).unwrap(),
    {
        match groups {
            None => None,
            Some(g) => {
                let scale = group_value(g, 1);
                let zoom = group_value(g, 2);
                let x = group_value(g, 3);
                let y = group_value(g, 4);
                match (scale, zoom, x, y) {
                    (Some(scale), Some(zoom), Some(x), Some(y)) => {
                        if scale > 255 || zoom > 255 || x > 0xffff_ffff || y > 0xffff_ffff {
                            None
                        } else {
                            Metatile::new(scale as u8, zoom as u8, x as u32, y as u32)
                        }
                    },
                    _ => None,
                }
            },
        }
    }

    /// Reads a metatile from its text form `scale zoom/x/y`.
    pub fn parse(s: &str) -> (r: Option<Metatile>)
        ensures
            r is Some <==> metatile_of_groups(regex_captures(METATILE_PATTERN@, s@)) is Some,
            r is Some ==> r.unwrap()@ == metatile_of_groups(
                regex_captures(METATILE_PATTERN@, s@),
            ).unwrap(),
    {
        let groups = captures(METATILE_PATTERN, s);
        Metatile::from_captures(&groups)
    }

    /// All metatiles of side `scale` of the world, from zoom 0 to zoom 32.
    pub fn all(scale: u8) -> (r: MetatilesIterator)
        requires
            is_power_of_two(scale as nat),
        ensures
            r@ == start_cursor(scale, None, 0, 32),
    {
        MetatilesIterator::all(scale)
    }

    /// The side this metatile was asked for.
    pub fn scale(&self) -> (r: u8)
        ensures
            r == self@.scale,
    {
        self.scale
    }

    /// Zoom of this metatile.
    pub fn zoom(&self) -> (r: u8)
        ensures
            r == self@.zoom,
    {
        self.zoom
    }

    /// X value of this metatile's north-west tile.
    pub fn x(&self) -> (r: u32)
        ensures
            r == self@.x,
    {
        self.x
    }

    /// Y value of this metatile's north-west tile.
    pub fn y(&self) -> (r: u32)
        ensures
            r == self@.y,
    {
        self.y
    }

    /// What is the width or height of this metatile. For small zoom numbers
    /// (e.g. z1), there will not be the full `scale` tiles across.
    pub fn size(&self) -> (r: u8)
        ensures
            r as nat == metatile_size(self@),
    {
        if self.zoom >= 8 {
            proof {
                lemma2_to64();
                lemma_pow2_monotonic(8, self.zoom as nat);
            }
            self.scale
        } else {
            let across: u64 = pow2_u64(self.zoom);
            proof {
                lemma2_to64();
            }
            if across < self.scale as u64 {
                across as u8
            } else {
                self.scale
            }
        }
    }

    /// The tiles of this metatile, column by column from the west, each
    /// column from the north.
    pub fn tiles(&self) -> (r: Vec<Tile>)
        ensures
            r@.map_values(|t: Tile| t@) == metatile_tiles(self@),
    {
        let size: u32 = self.size() as u32;
        proof {
            assert(size * size <= 65_025) by (nonlinear_arith)
                requires
                    size <= 255,
            ;
        }
        let total: u32 = size * size;
        let mut out: Vec<Tile> = Vec::new();
        let mut n: u32 = 0;
        proof {
            use_type_invariant(self);
            lemma_block_in_grid(self@);
            lemma_u8_power_of_two(self@.scale);
        }
        while n < total
            invariant
                n <= total,
                total == size * size,
                0 < size <= 255,
                size as nat == metatile_size(self@),
                self.wf(),
                self@.x + size <= pow2(self@.zoom as nat),
                self@.y + size <= pow2(self@.zoom as nat),
                self@.x + size <= 0x1_0000_0000,
                self@.y + size <= 0x1_0000_0000,
                out@.len() == n,
                forall|m: int| 0 <= m < n ==> (#[trigger] out@[m])@ == metatile_tiles(self@)[m],
            decreases total - n,
        {
            let i: u32 = n / size;
            let j: u32 = n % size;
            proof {
                assert(i < size) by (nonlinear_arith)
                    requires
                        n < size * size,
                        i == n / size,
                        size > 0,
                ;
            }
            let tile = Tile::new(self.zoom(), self.x() + i, self.y() + j).unwrap();
            out.push(tile);
            n = n + 1;
        }
        out
    }
}

impl std::str::FromStr for Metatile {
    type Err = ();

    /// Reads a metatile from its text form `scale zoom/x/y`.
    fn from_str(s: &str) -> (r: Result<Self, Self::Err>)
        ensures
            r is Ok <==> metatile_of_groups(regex_captures(METATILE_PATTERN@, s@)) is Some,
            r is Ok ==> r->Ok_0@ == metatile_of_groups(
                regex_captures(METATILE_PATTERN@, s@),
            ).unwrap(),
    {
        match Metatile::parse(s) {
            Some(mt) => Ok(mt),
            None => Err(()),
        }
    }
}

/// Metatiles as found by mod_tile, always 8x8.
#[derive(PartialEq, Eq, Structural, Debug, Clone, Copy, Hash)]
pub struct ModTileMetatile {
    inner: Metatile,
}

impl View for ModTileMetatile {
    type V = MetatileId;

    closed spec fn view(&self) -> MetatileId {
        self.inner@
    }
}

impl ModTileMetatile {
    /// The scale of a mod_tile metatile is 8.
    #[verifier::type_invariant]
    pub open spec fn wf(&self) -> bool {
        self@.scale == 8
    }

    /// The mod_tile metatile that holds the tile `zoom/x/y`, or nothing where
    /// there is no such tile.
    pub fn new(zoom: u8, x: u32, y: u32) -> (r: Option<Self>)
        ensures
            r is Some <==> valid_tile(zoom as nat, x as nat, y as nat),
            r is Some ==> r.unwrap()@ == metatile_of(8, zoom, x, y),
    {
        proof {
            lemma_u8_power_of_two(8);
        }
        match Metatile::new(8, zoom, x, y) {
            None => None,
            Some(inner) => Some(ModTileMetatile { inner: inner }),
        }
    }

    /// Takes a metatile as a mod_tile metatile, which it is where its scale
    /// is 8.
    pub fn try_from(mt: Metatile) -> (r: Result<Self, &'static str>)
        ensures
            r is Ok <==> mt@.scale == 8,
            r is Ok ==> r.unwrap()@ == mt@,
    {
        if mt.scale() == 8 {
            Ok(ModTileMetatile { inner: mt })
        } else {
            Err("Can only convert scale 8 metatiles into ModTileMetatile")
        }
    }

    /// This metatile as a plain metatile.
    pub fn metatile(&self) -> (r: Metatile)
        ensures
            r@ == self@,
    {
        self.inner
    }

    /// Returns the mod_tile path for storing this metatile.
    pub fn path(&self, ext: &str) -> (r: String)
        ensures
            r@ == dir_path(self@.zoom, mt_parts(self@.x, self@.y), ext@),
    {
        let parts = xy_to_mt(self.inner.x(), self.inner.y());
        join_path(self.inner.zoom(), &parts, ext)
    }

    /// X value of this metatile.
    pub fn x(&self) -> (r: u32)
        ensures
            r == self@.x,
    {
        self.inner.x()
    }

    /// Y value of this metatile.
    pub fn y(&self) -> (r: u32)
        ensures
            r == self@.y,
    {
        self.inner.y()
    }

    /// Zoom value of this metatile.
    pub fn zoom(&self) -> (r: u8)
        ensures
            r == self@.zoom,
    {
        self.inner.zoom()
    }

    /// What is the width or height of this metatile. For small zoom numbers
    /// (e.g. z1), there will not be the full 8 tiles across.
    pub fn size(self) -> (r: u8)
        ensures
            r as nat == metatile_size(self@),
    {
        self.inner.size()
    }

    /// The tiles of this metatile, column by column from the west, each
    /// column from the north.
    pub fn tiles(&self) -> (r: Vec<Tile>)
        ensures
            r@.map_values(|t: Tile| t@) == metatile_tiles(self@),
    {
        self.inner.tiles()
    }
}

impl From<ModTileMetatile> for Metatile {
    fn from(mt: ModTileMetatile) -> (r: Metatile) {
        mt.inner
    }
}

impl vstd::std_specs::convert::FromSpecImpl<ModTileMetatile> for Metatile {
    open spec fn obeys_from_spec() -> bool {
        true
    }

    open spec fn from_spec(mt: ModTileMetatile) -> Metatile {
        mt.as_metatile()
    }
}

impl ModTileMetatile {
    /// The plain metatile inside.
    pub closed spec fn as_metatile(self) -> Metatile {
        self.inner
    }

    /// The plain metatile inside has the same scale and corner.
    pub proof fn lemma_as_metatile(self)
        ensures
            self.as_metatile()@ == self@,
    {
    }
}

/// Every tile of a metatile is a tile, and the metatile of its scale that
/// holds that tile is the metatile itself.
pub proof fn lemma_metatile_holds_its_tiles(id: MetatileId, n: int)
    requires
        valid_metatile(id.scale, id.zoom, id.x, id.y),
        id.x % (id.scale as u32) == 0,
        id.y % (id.scale as u32) == 0,
        0 <= n < metatile_tiles(id).len(),
    ensures
        valid_tile(
            metatile_tiles(id)[n].zoom as nat,
            metatile_tiles(id)[n].x as nat,
            metatile_tiles(id)[n].y as nat,
        ),
        metatile_of(
            id.scale,
            metatile_tiles(id)[n].zoom,
            metatile_tiles(id)[n].x,
            metatile_tiles(id)[n].y,
        ) == id,
{
    lemma_block_in_grid(id);
    lemma_u8_power_of_two(id.scale);
    let size = metatile_size(id) as int;
    let s = id.scale as int;
    let i = n / size;
    assert(0 <= i < size) by (nonlinear_arith)
        requires
            0 <= n < size * size,
            i == n / size,
            size > 0,
    ;
    lemma_fundamental_div_mod(id.x as int, s);
    lemma_fundamental_div_mod(id.y as int, s);
}

/// A metatile's block of tiles lies inside its zoom level and inside the
/// 32-bit range of coordinates.
pub proof fn lemma_block_in_grid(id: MetatileId)
    requires
        valid_metatile(id.scale, id.zoom, id.x, id.y),
        id.x % (id.scale as u32) == 0,
        id.y % (id.scale as u32) == 0,
    ensures
        id.x + metatile_size(id) <= pow2(id.zoom as nat),
        id.y + metatile_size(id) <= pow2(id.zoom as nat),
        id.x + metatile_size(id) <= 0x1_0000_0000,
        id.y + metatile_size(id) <= 0x1_0000_0000,
{
    lemma2_to64();
    lemma_u8_power_of_two(id.scale);
    let s = id.scale as nat;
    let z = id.zoom as nat;
    if pow2(z) < s {
    } else {
        lemma_aligned_block_fits(id.x as nat, s, z);
        lemma_aligned_block_fits(id.y as nat, s, z);
    }
    lemma_aligned_block_fits(id.x as nat, s, 32);
    lemma_aligned_block_fits(id.y as nat, s, 32);
}

} // verus!
