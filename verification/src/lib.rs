//! Coordinate geometry for slippy-map tiles: the zoom/x/y quad-tree over the
//! Web Mercator projection, metatiles, the Z-order curve, the directory
//! layouts of several tile caches, and the traversals built on them.
//!
//! Every function of this crate carries a contract, and Verus proves each of
//! them but one: the search by regular expression in `text` is the work of
//! the regex crate, and what it captures is taken on trust. The text forms
//! are proved from that.

pub mod bbox_text;
pub mod bbox_tiles;
pub mod bounds;
pub mod iter;
pub mod metatile;
pub mod metatile_iter;
pub mod paths;
pub mod pow;
pub mod text;
pub mod tile;
pub mod zorder;

pub use bbox_text::{bbox_text, BBoxText};
pub use bbox_tiles::BBoxTilesIterator;
pub use bounds::{size_bbox_zoom, size_bbox_zoom_metatiles, tile_at, TileBounds};
pub use iter::{
    num_tiles_in_zoom, remaining_in_this_zoom, AllSubTilesIterator, AllTilesIterator,
    AllTilesToZoomIterator,
};
pub use metatile::{Metatile, ModTileMetatile};
pub use metatile_iter::MetatilesIterator;
pub use paths::{xy_to_mp, xy_to_mt, xy_to_tc, xy_to_ts};
pub use tile::{Tile, TileParseError};
pub use zorder::{xy_to_zorder, zorder_to_xy};
