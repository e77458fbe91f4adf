//! A single tile of the zoom/x/y quad-tree, and its family relations.

use vstd::prelude::*;
use vstd::arithmetic::power2::{lemma_pow2_unfold, pow2};
use crate::iter::{
    children_of, AllSubTilesIterator, AllTilesIterator, AllTilesToZoomIterator, Cursor, ScanCursor,
};
use crate::metatile::{is_power_of_two, metatile_of, Metatile, ModTileMetatile};
use crate::paths::{
    dir_path, join_path, join_segments, mp_parts, mt_parts, tc_parts, ts_parts, with_segments,
    xy_to_mp, xy_to_mt, xy_to_tc, xy_to_ts,
};
use crate::pow::{lemma_u32_below_pow2, pow2_u64};
use crate::text::{
    captures, decimal_digits, decimal_string, group_number, group_value, regex_captures,
};

verus! {

/// The highest zoom level a tile can have.
pub const MAX_TILE_ZOOM: u8 = 99;

/// Whether `zoom/x/y` addresses a tile: the zoom is below 100 and both
/// coordinates lie in the `2^zoom` columns and rows of that zoom level.
pub open spec fn valid_tile(zoom: nat, x: nat, y: nat) -> bool {
    zoom < 100 && x < pow2(zoom) && y < pow2(zoom)
}

/// The coordinates of a tile, as contracts speak of them.
pub struct TileId {
    pub zoom: u8,
    pub x: u32,
    pub y: u32,
}

/// A single tile.
#[derive(PartialEq, Eq, Structural, Debug, Clone, Copy, Hash)]
pub struct Tile {
    zoom: u8,
    x: u32,
    y: u32,
}

impl View for Tile {
    type V = TileId;

    closed spec fn view(&self) -> TileId {
        TileId { zoom: self.zoom, x: self.x, y: self.y }
    }
}

/// Why a text is not a tile.
#[derive(PartialEq, Eq, Structural, Debug, Clone, Copy)]
pub enum TileParseError {
    /// The text is not of the form `zoom/x/y`.
    NoMatch,
    /// The text has the form, but no tile has these numbers.
    InvalidCoordinates,
}

/// The text form of a tile: `zoom/x/y`, the zoom of one or two digits, `x`
/// and `y` of one to ten.
pub const TILE_PATTERN: &'static str =
    "^(?P<zoom>[0-9]?[0-9])/(?P<x>[0-9]{1,10})/(?P<y>[0-9]{1,10})$";

/// The end of a tile's address on a tile server: `zoom/x/y`, with or without
/// a slash in front and a file extension of three or four letters behind.
pub const TMS_PATTERN: &'static str =
    "/?(?P<zoom>[0-9]?[0-9])/(?P<x>[0-9]{1,10})/(?P<y>[0-9]{1,10})(\\.[a-zA-Z]{3,4})?$";

/// The tile that the capture groups of a match write: zoom, `x` and `y` are
/// groups 1, 2 and 3.
pub open spec fn tile_of_groups(groups: Option<Seq<Option<Seq<char>>>>) -> Result<
    TileId,
    TileParseError,
> {
    match groups {
        None => Err(TileParseError::NoMatch),
        Some(g) => match (group_number(g, 1), group_number(g, 2), group_number(g, 3)) {
            (Some(zoom), Some(x), Some(y)) => if zoom <= u8::MAX && x <= u32::MAX && y
                <= u32::MAX && valid_tile(zoom as nat, x as nat, y as nat) {
                Ok(TileId { zoom: zoom as u8, x: x as u32, y: y as u32 })
            } else {
                Err(TileParseError::InvalidCoordinates)
            },
            _ => Err(TileParseError::NoMatch),
        },
    }
}

/// Whether `r` is the outcome `expected`, tiles taken by their coordinates.
pub open spec fn parsed_as(r: Result<Tile, TileParseError>, expected: Result<
    TileId,
    TileParseError,
>) -> bool {
    match r {
        Ok(t) => expected == Ok::<TileId, TileParseError>(t@),
        Err(e) => expected == Err::<TileId, TileParseError>(e),
    }
}

/// The coordinates of the tile that holds `id` one zoom level up.
pub open spec fn parent_id(id: TileId) -> TileId {
    TileId { zoom: (id.zoom - 1) as u8, x: id.x / 2, y: id.y / 2 }
}

/// The coordinates of one of the four tiles that cover `id` one zoom level
/// down: `dx` and `dy` are 0 or 1, the column and row inside `id`.
pub open spec fn child_id(id: TileId, dx: nat, dy: nat) -> TileId {
    TileId { zoom: (id.zoom + 1) as u8, x: (2 * id.x + dx) as u32, y: (2 * id.y + dy) as u32 }
}

/// Whether the four tiles below `id` are tiles: the zoom level below exists
/// and the doubled coordinates still fit in 32 bits.
pub open spec fn has_subtiles(id: TileId) -> bool {
    id.zoom < MAX_TILE_ZOOM && id.x <= 0x7fff_ffff && id.y <= 0x7fff_ffff
}

/// The four children of `id` in the order north-west, north-east,
/// south-west, south-east.
pub open spec fn subtile_ids(id: TileId) -> Seq<TileId> {
    seq![child_id(id, 0, 0), child_id(id, 1, 0), child_id(id, 0, 1), child_id(id, 1, 1)]
}

/// The words that tell why a text is not a tile.
pub open spec fn message_text(e: TileParseError) -> Seq<char> {
    match e {
        TileParseError::NoMatch => "Tile Z/X/Y regex didn't match"@,
        TileParseError::InvalidCoordinates => "Invalid X or Y for this zoom"@,
    }
}

impl TileParseError {
    /// The reason in words.
    pub fn message(&self) -> (r: &'static str)
        ensures
            r@ == message_text(*self),
    {
        match self {
            TileParseError::NoMatch => "Tile Z/X/Y regex didn't match",
            TileParseError::InvalidCoordinates => "Invalid X or Y for this zoom",
        }
    }
}

impl Tile {
    /// Every tile addresses a place that exists at its zoom level.
    #[verifier::type_invariant]
    pub open spec fn wf(&self) -> bool {
        valid_tile(self@.zoom as nat, self@.x as nat, self@.y as nat)
    }

    /// Two tiles with the same coordinates are the same tile.
    pub proof fn lemma_same_id(a: Tile, b: Tile)
        requires
            a@ == b@,
        ensures
            a == b,
    {
    }

    /// Constructs the tile `zoom/x/y`, or nothing where no such tile exists.
    pub fn new(zoom: u8, x: u32, y: u32) -> (r: Option<Tile>)
        ensures
            r is Some <==> valid_tile(zoom as nat, x as nat, y as nat),
            r is Some ==> r.unwrap()@ == (TileId { zoom, x, y }),
    {
        if zoom > MAX_TILE_ZOOM {
            None
        } else if zoom >= 32 {
            proof {
                lemma_u32_below_pow2(x, zoom as nat);
                lemma_u32_below_pow2(y, zoom as nat);
            }
            Some(Tile { zoom, x, y })
        } else {
            let across: u64 = pow2_u64(zoom);
            if (x as u64) < across && (y as u64) < across {
                Some(Tile { zoom, x, y })
            } else {
                None
            }
        }
    }

    /// Zoom of this tile.
    pub fn zoom(&self) -> (r: u8)
        ensures
            r == self@.zoom,
    {
        self.zoom
    }

    /// X value of this tile.
    pub fn x(&self) -> (r: u32)
        ensures
            r == self@.x,
    {
        self.x
    }

    /// Y value of this tile.
    pub fn y(&self) -> (r: u32)
        ensures
            r == self@.y,
    {
        self.y
    }

    /// The tile that the capture groups of a match write, or the reason why
    /// there is none: no match, a group that is missing or no number, or
    /// numbers that no tile has.
    pub fn from_captures(groups: &Option<Vec<Option<String>>>) -> (r: Result<Tile, TileParseError>)
        ensures
            parsed_as(r, tile_of_groups(groups.deep_view())),
    {
        match groups {
            None => Err(TileParseError::NoMatch),
            Some(g) => {
                let zoom = group_value(g, 1);
                let x = group_value(g, 2);
                let y = group_value(g, 3);
                match (zoom, x, y) {
                    (Some(zoom), Some(x), Some(y)) => {
                        if zoom > 255 || x > 0xffff_ffff || y > 0xffff_ffff {
                            Err(TileParseError::InvalidCoordinates)
                        } else {
                            match Tile::new(zoom as u8, x as u32, y as u32) {
                                Some(t) => Ok(t),
                                None => Err(TileParseError::InvalidCoordinates),
                            }
                        }
                    },
                    _ => Err(TileParseError::NoMatch),
                }
            },
        }
    }

    /// Reads a tile from its text form `zoom/x/y`.
    pub fn parse(s: &str) -> (r: Result<Tile, TileParseError>)
        ensures
            parsed_as(r, tile_of_groups(regex_captures(TILE_PATTERN@, s@))),
    {
        let groups = captures(TILE_PATTERN, s);
        Tile::from_captures(&groups)
    }

    /// Reads a tile from the end of its address on a tile server, such as
    /// `/10/547/380.png`. Nothing comes back where the text does not end in
    /// such an address or no tile has these numbers.
    pub fn from_tms(tms: &str) -> (r: Option<Tile>)
        ensures
            match tile_of_groups(regex_captures(TMS_PATTERN@, tms@)) {
                Ok(id) => r is Some && r.unwrap()@ == id,
                Err(_) => r is None,
            },
    {
        let groups = captures(TMS_PATTERN, tms);
        match Tile::from_captures(&groups) {
            Ok(t) => Some(t),
            Err(_) => None,
        }
    }

    /// Returns the TC (TileCache) path for storing this tile.
    pub fn tc_path(&self, ext: &str) -> (r: String)
        ensures
            r@ == dir_path(self@.zoom, tc_parts(self@.x, self@.y), ext@),
    {
        let parts = xy_to_tc(self.x, self.y);
        join_path(self.zoom, &parts, ext)
    }

    /// Returns the MP (MapProxy) path for storing this tile.
    pub fn mp_path(&self, ext: &str) -> (r: String)
        ensures
            r@ == dir_path(self@.zoom, mp_parts(self@.x, self@.y), ext@),
    {
        let parts = xy_to_mp(self.x, self.y);
        join_path(self.zoom, &parts, ext)
    }

    /// Returns the TS (TileStash safe) path for storing this tile.
    pub fn ts_path(&self, ext: &str) -> (r: String)
        ensures
            r@ == dir_path(self@.zoom, ts_parts(self@.x, self@.y), ext@),
    {
        let parts = xy_to_ts(self.x, self.y);
        join_path(self.zoom, &parts, ext)
    }

    /// Returns the mod_tile path for storing this tile.
    pub fn mt_path(&self, ext: &str) -> (r: String)
        ensures
            r@ == dir_path(self@.zoom, mt_parts(self@.x, self@.y), ext@),
    {
        let parts = xy_to_mt(self.x, self.y);
        join_path(self.zoom, &parts, ext)
    }

    /// Returns the Z/X/Y representation of this tile.
    pub fn zxy(&self) -> (r: String)
        ensures
            r@ == with_segments(
                decimal_digits(self@.zoom as nat),
                seq![decimal_digits(self@.x as nat), decimal_digits(self@.y as nat)],
            ),
    {
        let parts = [decimal_string(self.x, 0), decimal_string(self.y, 0)];
        proof {
            assert(crate::paths::texts(parts) =~= seq![
                decimal_digits(self@.x as nat),
                decimal_digits(self@.y as nat),
            ]);
        }
        join_segments(self.zoom, &parts)
    }

    /// Returns the ZXY path for storing this tile.
    pub fn zxy_path(&self, ext: &str) -> (r: String)
        ensures
            r@ == dir_path(
                self@.zoom,
                seq![decimal_digits(self@.x as nat), decimal_digits(self@.y as nat)],
                ext@,
            ),
    {
        let parts = [decimal_string(self.x, 0), decimal_string(self.y, 0)];
        proof {
            assert(crate::paths::texts(parts) =~= seq![
                decimal_digits(self@.x as nat),
                decimal_digits(self@.y as nat),
            ]);
        }
        join_path(self.zoom, &parts, ext)
    }

    /// Iterate on all child tiles of this tile.
    pub fn all_subtiles_iter(&self) -> (r: AllSubTilesIterator)
        ensures
            r@ == children_of(self@),
    {
        AllSubTilesIterator::new_from_tile(self)
    }

    /// Returns an iterator that yields all the tiles possible, starting from
    /// `0/0/0`. Tiles are generated in a breadth first manner, with all zoom 1
    /// tiles before zoom 2 etc.
    pub fn all() -> (r: AllTilesIterator)
        ensures
            r@ == (Cursor { zoom: 0, zorder: 0 }),
    {
        AllTilesIterator::new()
    }

    /// Returns an iterator that yields all the tiles from zoom 0 down to, and
    /// including, all the tiles at `max_zoom` zoom level.
    pub fn all_to_zoom(max_zoom: u8) -> (r: AllTilesToZoomIterator)
        ensures
            r@ == (ScanCursor { max_zoom, zoom: 0, x: 0, y: 0 }),
    {
        AllTilesToZoomIterator::new(max_zoom)
    }

    /// The metatile of side `scale` that this tile lies in; none where the
    /// scale is no power of two.
    pub fn metatile(&self, scale: u8) -> (r: Option<Metatile>)
        ensures
            r is Some <==> is_power_of_two(scale as nat),
            r is Some ==> r.unwrap()@ == metatile_of(scale, self@.zoom, self@.x, self@.y),
    {
        proof {
            use_type_invariant(self);
        }
        Metatile::new(scale, self.zoom, self.x, self.y)
    }

    /// The mod_tile metatile that this tile lies in.
    pub fn modtile_metatile(&self) -> (r: Option<ModTileMetatile>)
        ensures
            r is Some,
            r.unwrap()@ == metatile_of(8, self@.zoom, self@.x, self@.y),
    {
        proof {
            use_type_invariant(self);
        }
        ModTileMetatile::new(self.zoom, self.x, self.y)
    }

    /// The tile one zoom level up that this tile lies in; none at zoom 0.
    pub fn parent(&self) -> (r: Option<Tile>)
        ensures
            r is Some <==> self@.zoom > 0,
            r is Some ==> r.unwrap()@ == parent_id(self@),
    {
        proof {
            use_type_invariant(self);
        }
        if self.zoom == 0 {
            None
        } else {
            proof {
                lemma_parent_valid(self@);
            }
            Some(Tile { zoom: self.zoom - 1, x: self.x / 2, y: self.y / 2 })
        }
    }

    /// The four tiles one zoom level down that cover this tile, in the order
    /// north-west, north-east, south-west, south-east; none where those
    /// would not be tiles.
    pub fn subtiles(&self) -> (r: Option<[Tile; 4]>)
        ensures
            r is Some <==> has_subtiles(self@),
            r is Some ==> r.unwrap()@.map_values(|t: Tile| t@) == subtile_ids(self@),
    {
        proof {
            use_type_invariant(self);
        }
        if self.zoom >= MAX_TILE_ZOOM || self.x > 0x7fff_ffff || self.y > 0x7fff_ffff {
            None
        } else {
            let z: u8 = self.zoom + 1;
            let x: u32 = 2 * self.x;
            let y: u32 = 2 * self.y;
            proof {
                lemma_children_valid(self@, 0, 0);
                lemma_children_valid(self@, 1, 0);
                lemma_children_valid(self@, 0, 1);
                lemma_children_valid(self@, 1, 1);
            }
            let tiles = [
                Tile { zoom: z, x: x, y: y },
                Tile { zoom: z, x: x + 1, y: y },
                Tile { zoom: z, x: x, y: y + 1 },
                Tile { zoom: z, x: x + 1, y: y + 1 },
            ];
            Some(tiles)
        }
    }
}

impl std::str::FromStr for Tile {
    type Err = &'static str;

    /// Reads a tile from its text form `zoom/x/y`; where there is none, the
    /// reason comes back in words.
    fn from_str(s: &str) -> (r: Result<Self, Self::Err>)
        ensures
            match r {
                Ok(t) => tile_of_groups(regex_captures(TILE_PATTERN@, s@)) == Ok::<
                    TileId,
                    TileParseError,
                >(t@),
                Err(words) => tile_of_groups(regex_captures(TILE_PATTERN@, s@)) is Err
                    && words@ == message_text(
                    tile_of_groups(regex_captures(TILE_PATTERN@, s@))->Err_0,
                ),
            },
    {
        match Tile::parse(s) {
            Ok(t) => Ok(t),
            Err(e) => Err(e.message()),
        }
    }
}

/// The parent of a tile below zoom 0 is a tile.
pub proof fn lemma_parent_valid(id: TileId)
    requires
        valid_tile(id.zoom as nat, id.x as nat, id.y as nat),
        id.zoom > 0,
    ensures
        valid_tile(
            parent_id(id).zoom as nat,
            parent_id(id).x as nat,
            parent_id(id).y as nat,
        ),
{
    lemma_pow2_unfold(id.zoom as nat);
}

/// The four children of a tile that has subtiles are tiles.
pub proof fn lemma_children_valid(id: TileId, dx: nat, dy: nat)
    requires
        valid_tile(id.zoom as nat, id.x as nat, id.y as nat),
        has_subtiles(id),
        dx <= 1,
        dy <= 1,
    ensures
        valid_tile(
            child_id(id, dx, dy).zoom as nat,
            child_id(id, dx, dy).x as nat,
            child_id(id, dx, dy).y as nat,
        ),
{
    lemma_pow2_unfold((id.zoom + 1) as nat);
}

/// A tile is one of its parent's subtiles, and the parent of each of its own.
///
/// For every tile `t` above zoom 0 the parent has subtiles and `t` is among
/// them, at the place its coordinates' low bits give. For every tile that has
/// subtiles, each of the four names it as parent.
pub proof fn lemma_tile_family(id: TileId)
    requires
        valid_tile(id.zoom as nat, id.x as nat, id.y as nat),
    ensures
        id.zoom > 0 ==> has_subtiles(parent_id(id)) && subtile_ids(parent_id(id)).contains(id)
            && child_id(parent_id(id), (id.x % 2) as nat, (id.y % 2) as nat) == id,
        has_subtiles(id) ==> forall|i: int|
            0 <= i < 4 ==> (#[trigger] subtile_ids(id)[i]).zoom > 0 && parent_id(
                subtile_ids(id)[i],
            ) == id,
{
    if id.zoom > 0 {
        let p = parent_id(id);
        let dx = (id.x % 2) as nat;
        let dy = (id.y % 2) as nat;
        assert(subtile_ids(p)[(dx + 2 * dy) as int] == id);
    }
}

} // verus!
