//! The traversal of the tiles that touch a region, zoom level by zoom level:
//! the tiles held on one level, their subtiles as candidates for the next, and
//! the step down to those candidates that the region keeps.

use vstd::prelude::*;
use crate::iter::children_of;
use crate::tile::{Tile, TileId};

verus! {

/// The coordinates of a list of tiles.
pub open spec fn tile_ids(tiles: Seq<Tile>) -> Seq<TileId> {
    tiles.map_values(|t: Tile| t@)
}

/// The subtiles of each of `held`, in the order of `held`.
pub open spec fn children_of_all(held: Seq<TileId>) -> Seq<TileId>
    decreases held.len(),
{
    if held.len() == 0 {
        Seq::empty()
    } else {
        children_of_all(held.drop_last()) + children_of(held.last())
    }
}

/// Those of `candidates` whose flag in `keep` is set, in their order. A
/// candidate that `keep` has no flag for is not kept.
pub open spec fn kept(candidates: Seq<TileId>, keep: Seq<bool>) -> Seq<TileId>
    decreases candidates.len(),
{
    if candidates.len() == 0 {
        Seq::empty()
    } else {
        let before = kept(candidates.drop_last(), keep);
        if candidates.len() <= keep.len() && keep[candidates.len() - 1] {
            before.push(candidates.last())
        } else {
            before
        }
    }
}

/// What a traversal holds: the tiles of its zoom level, and how many of them
/// were given out.
pub struct LevelState {
    pub held: Seq<TileId>,
    pub given: nat,
}

/// Iterates over the tiles that a region is in, from zoom 0 on: it holds the
/// tiles of one zoom level and its place among them. Which subtiles the
/// region is in, the caller says at each step down.
pub struct BBoxTilesIterator {
    tiles: Vec<Tile>,
    tile_index: usize,
}

impl View for BBoxTilesIterator {
    type V = LevelState;

    closed spec fn view(&self) -> LevelState {
        LevelState { held: tile_ids(self.tiles@), given: self.tile_index as nat }
    }
}

impl BBoxTilesIterator {
    /// No more tiles are given out than are held.
    #[verifier::type_invariant]
    pub open spec fn wf(&self) -> bool {
        self@.given <= self@.held.len()
    }

    /// The traversal at zoom 0: everything is in 0/0/0, so it starts with that.
    pub fn new() -> (r: Self)
        ensures
            r@.held == seq![TileId { zoom: 0, x: 0, y: 0 }],
            r@.given == 0,
    {
        proof {
            vstd::arithmetic::power2::lemma2_to64();
        }
        let mut tiles: Vec<Tile> = Vec::new();
        tiles.push(Tile::new(0, 0, 0).unwrap());
        BBoxTilesIterator { tiles, tile_index: 0 }
    }

    /// The next tile of this zoom level; nothing once all were given, until
    /// `descend` steps down to the next level.
    pub fn next(&mut self) -> (r: Option<Tile>)
        ensures
            final(self)@.held == old(self)@.held,
            old(self)@.given < old(self)@.held.len() ==> r is Some && r.unwrap()@ == old(
                self,
            )@.held[old(self)@.given as int] && final(self)@.given == old(self)@.given + 1,
            old(self)@.given >= old(self)@.held.len() ==> r is None && final(self)@.given == old(
                self,
            )@.given,
    {
        proof {
            use_type_invariant(&*self);
        }
        if self.tile_index < self.tiles.len() {
            let tile = self.tiles[self.tile_index];
            self.tile_index = self.tile_index + 1;
            Some(tile)
        } else {
            None
        }
    }

    /// The subtiles of all held tiles: the tiles that the next zoom level is
    /// chosen from.
    pub fn candidates(&self) -> (r: Vec<Tile>)
        ensures
            tile_ids(r@) == children_of_all(self@.held),
    {
        let mut out: Vec<Tile> = Vec::new();
        let mut i: usize = 0;
        while i < self.tiles.len()
            invariant
                i <= self.tiles@.len(),
                self@.held == tile_ids(self.tiles@),
                tile_ids(out@) == children_of_all(self@.held.take(i as int)),
            decreases self.tiles@.len() - i,
        {
            let tile = self.tiles[i];
            proof {
                let next = self@.held.take(i + 1);
                assert(next.drop_last() =~= self@.held.take(i as int));
            }
            match tile.subtiles() {
                None => {},
                Some(sub) => {
                    out.push(sub[0]);
                    out.push(sub[1]);
                    out.push(sub[2]);
                    out.push(sub[3]);
                },
            }
            i = i + 1;
        }
        proof {
            assert(self@.held.take(self.tiles@.len() as int) =~= self@.held);
        }
        out
    }

    /// Steps down one zoom level: the traversal then holds those subtiles of
    /// its tiles whose flag in `keep` is set, the flags being in the order of
    /// `candidates`, and none of them is given out yet.
    pub fn descend(&mut self, keep: &Vec<bool>)
        ensures
            final(self)@.held == kept(children_of_all(old(self)@.held), keep@),
            final(self)@.given == 0,
    {
        let all = self.candidates();
        let mut chosen: Vec<Tile> = Vec::new();
        let mut i: usize = 0;
        while i < all.len()
            invariant
                i <= all@.len(),
                tile_ids(chosen@) == kept(tile_ids(all@).take(i as int), keep@),
            decreases all@.len() - i,
        {
            proof {
                let next = tile_ids(all@).take(i + 1);
                assert(next.drop_last() =~= tile_ids(all@).take(i as int));
            }
            if i < keep.len() && keep[i] {
                chosen.push(all[i]);
            }
            i = i + 1;
        }
        proof {
            assert(tile_ids(all@).take(all@.len() as int) =~= tile_ids(all@));
        }
        *self = BBoxTilesIterator { tiles: chosen, tile_index: 0 };
    }
}

} // verus!
