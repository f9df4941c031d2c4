//! The tile queue and cache around the external fetch.
//!
//! The globe owns a stack of requested coordinates and a cache of built
//! tiles keyed by coordinate. At most one fetch is in flight: a driver loop
//! outside the library takes the next coordinate with `next_fetch`,
//! performs the fetch and decode, and hands the outcome back through
//! `complete_fetch` or `abort_fetch`. A failed coordinate is dropped, not
//! retried; the cache grows without eviction.

use vstd::prelude::*;

use crate::data::WebTileSource;
use crate::tile::Tile;

verus! {

/// A tile coordinate: column `x`, row `y` and zoom level, the identity key
/// for caching.
#[derive(Clone, Copy, Debug, PartialEq, Eq, Structural)]
pub struct TileCoord {
    pub x: u32,
    pub y: u32,
    pub zoom: u32,
}

impl TileCoord {
    /// Within the tile pyramid: `x` and `y` both below `2^zoom`.
    pub open spec fn valid(self) -> bool {
        self.zoom < 32 && self.x < (1u32 << self.zoom) && self.y < (1u32 << self.zoom)
    }

    /// Whether this coordinate lies within its zoom level's tile pyramid.
    pub fn is_valid(&self) -> (b: bool)
        ensures
            b == self.valid(),
    {
        self.zoom < 32 && self.x < (1u32 << self.zoom) && self.y < (1u32 << self.zoom)
    }
}

/// The coordinates of every tile of zoom level `zoom`, rows outermost:
/// entry `j` is column `j mod 2^zoom` of row `j div 2^zoom`. This is the
/// order a whole-level fetch walks the pyramid in.
pub fn grid_coords(zoom: u32) -> (v: Vec<TileCoord>)
    requires
        zoom <= 15,
    ensures
        v@.len() == (1u32 << zoom) * (1u32 << zoom),
        forall|j: int|
            0 <= j < v@.len() ==> (#[trigger] v@[j]).x == j % ((1u32 << zoom) as int) && v@[j].y
                == j / ((1u32 << zoom) as int) && v@[j].zoom == zoom,
{
    proof {
        assert(1u32 << zoom >= 1 && 1u32 << zoom <= 0x8000) by (bit_vector)
            requires
                zoom <= 15,
        ;
    }
    let n = 1u32 << zoom;
    let mut v: Vec<TileCoord> = Vec::new();
    proof {
        assert(0 * n == 0) by (nonlinear_arith);
    }
    for y in 0..n
        invariant
            n == 1u32 << zoom,
            1 <= n <= 0x8000,
            v@.len() == y * n,
            forall|j: int|
                0 <= j < v@.len() ==> (#[trigger] v@[j]).x == j % (n as int) && v@[j].y == j / (
                n as int) && v@[j].zoom == zoom,
    {
        for x in 0..n
            invariant
                n == 1u32 << zoom,
                1 <= n <= 0x8000,
                y < n,
                v@.len() == y * n + x,
                forall|j: int|
                    0 <= j < v@.len() ==> (#[trigger] v@[j]).x == j % (n as int) && v@[j].y == j
                        / (n as int) && v@[j].zoom == zoom,
        {
            proof {
                vstd::arithmetic::div_mod::lemma_fundamental_div_mod_converse(
                    y * n + x,
                    n as int,
                    y as int,
                    x as int,
                );
            }
            v.push(TileCoord { x, y, zoom });
        }
        proof {
            assert((y + 1) * n == y * n + n) by (nonlinear_arith);
        }
    }
    v
}

/// A transport failure from the external tile source, surfaced to whoever
/// drives the fetch loop. The requested coordinate is dropped.
#[derive(Debug)]
pub struct FetchError {
    pub message: String,
}

/// The coordinate-to-tile map that a cache entry list denotes; a later
/// entry for the same coordinate overrides an earlier one.
pub open spec fn cache_map(entries: Seq<(TileCoord, Tile)>) -> Map<TileCoord, Tile>
    decreases entries.len(),
{
    if entries.len() == 0 {
        Map::<TileCoord, Tile>::empty()
    } else {
        cache_map(entries.drop_last()).insert(entries.last().0, entries.last().1)
    }
}

/// A coordinate is in the denoted map exactly when some entry carries it.
proof fn lemma_cache_map_dom(entries: Seq<(TileCoord, Tile)>, c: TileCoord)
    ensures
        cache_map(entries).dom().contains(c) <==> exists|i: int|
            0 <= i < entries.len() && entries[i].0 == c,
    decreases entries.len(),
{
    if entries.len() > 0 {
        lemma_cache_map_dom(entries.drop_last(), c);
        if entries.last().0 == c {
            assert(entries[entries.len() - 1].0 == c);
        } else if cache_map(entries).dom().contains(c) {
            let i = choose|i: int|
                0 <= i < entries.drop_last().len() && entries.drop_last()[i].0 == c;
            assert(entries[i].0 == c);
        } else if exists|i: int| 0 <= i < entries.len() && entries[i].0 == c {
            let i = choose|i: int| 0 <= i < entries.len() && entries[i].0 == c;
            assert(entries.drop_last()[i].0 == c);
        }
    }
}

/// With no two entries sharing a coordinate, entry `i` gives its
/// coordinate's tile in the denoted map.
proof fn lemma_cache_map_at(entries: Seq<(TileCoord, Tile)>, i: int)
    requires
        forall|p: int, q: int|
            0 <= p < q < entries.len() ==> (#[trigger] entries[p]).0 != (#[trigger] entries[q]).0,
        0 <= i < entries.len(),
    ensures
        cache_map(entries).dom().contains(entries[i].0),
        cache_map(entries)[entries[i].0] == entries[i].1,
    decreases entries.len(),
{
    if i < entries.len() - 1 {
        lemma_cache_map_at(entries.drop_last(), i);
        assert(entries.drop_last()[i] == entries[i]);
        assert(entries[i].0 != entries.last().0);
    }
}

/// Replacing the tile of entry `i` denotes an insert at its coordinate.
proof fn lemma_cache_map_update(entries: Seq<(TileCoord, Tile)>, i: int, t: Tile)
    requires
        forall|p: int, q: int|
            0 <= p < q < entries.len() ==> (#[trigger] entries[p]).0 != (#[trigger] entries[q]).0,
        0 <= i < entries.len(),
    ensures
        cache_map(entries.update(i, (entries[i].0, t))) == cache_map(entries).insert(
            entries[i].0,
            t,
        ),
    decreases entries.len(),
{
    let k = entries[i].0;
    let updated = entries.update(i, (k, t));
    if i == entries.len() - 1 {
        assert(updated.drop_last() =~= entries.drop_last());
        assert(cache_map(updated) =~= cache_map(entries).insert(k, t));
    } else {
        lemma_cache_map_update(entries.drop_last(), i, t);
        assert(entries.drop_last()[i] == entries[i]);
        assert(updated.drop_last() =~= entries.drop_last().update(i, (k, t)));
        assert(updated.last() == entries.last());
        assert(k != entries.last().0);
        assert(cache_map(updated) =~= cache_map(entries).insert(k, t));
    }
}

/// Appending an entry denotes an insert at its coordinate.
proof fn lemma_cache_map_push(entries: Seq<(TileCoord, Tile)>, c: TileCoord, t: Tile)
    ensures
        cache_map(entries.push((c, t))) == cache_map(entries).insert(c, t),
{
    assert(entries.push((c, t)).drop_last() =~= entries);
}

/// The tile queue, the tile cache, and the source they are fed from. See
/// the module description for the fetch protocol.
#[derive(Debug)]
pub struct Globe {
    pub source: WebTileSource,
    pub tile_queue: Vec<TileCoord>,
    pub tiles: Vec<(TileCoord, Tile)>,
    pub in_flight: Option<TileCoord>,
}

impl Globe {
    /// No two cache entries share a coordinate.
    pub open spec fn wf(self) -> bool {
        forall|p: int, q: int|
            0 <= p < q < self.tiles@.len() ==> (#[trigger] self.tiles@[p]).0 != (
            #[trigger] self.tiles@[q]).0
    }

    /// The cached tiles, keyed by coordinate.
    pub open spec fn cache(self) -> Map<TileCoord, Tile> {
        cache_map(self.tiles@)
    }

    /// An idle globe with an empty queue and cache, fetching through a
    /// source that authenticates with `token`.
    pub fn new(token: &str) -> (g: Globe)
        ensures
            g.wf(),
            g.source.token@ == token@,
            g.tile_queue@ == Seq::<TileCoord>::empty(),
            g.cache() == Map::<TileCoord, Tile>::empty(),
            g.in_flight is None,
    {
        Globe {
            source: WebTileSource::new(token),
            tile_queue: Vec::new(),
            tiles: Vec::new(),
            in_flight: None,
        }
    }

    /// The cache's entry list, for iterating the built tiles.
    pub fn tiles(&self) -> (r: &Vec<(TileCoord, Tile)>)
        ensures
            r@ == self.tiles@,
    {
        &self.tiles
    }

    /// Requests the tile at `(x, y)` of zoom level `z`. Duplicate requests
    /// are not deduplicated.
    pub fn queue_tile(&mut self, x: u32, y: u32, z: u32)
        ensures
            final(self).tile_queue@ == old(self).tile_queue@.push(TileCoord { x, y, zoom: z }),
            final(self).tiles@ == old(self).tiles@,
            final(self).in_flight == old(self).in_flight,
            final(self).source == old(self).source,
    {
        self.tile_queue.push(TileCoord { x, y, zoom: z });
    }

    /// Takes the coordinate to fetch next: the most recently requested one.
    /// Yields nothing, and changes nothing, while a fetch is already in
    /// flight or the queue is empty; a fetch begun here must be concluded
    /// with `complete_fetch` or `abort_fetch`.
    pub fn next_fetch(&mut self) -> (r: Option<TileCoord>)
        ensures
            final(self).tiles@ == old(self).tiles@,
            final(self).source == old(self).source,
            old(self).in_flight is Some ==> r is None && final(self).tile_queue@
                == old(self).tile_queue@ && final(self).in_flight == old(self).in_flight,
            old(self).in_flight is None && old(self).tile_queue@.len() == 0 ==> r is None
                && final(self).tile_queue@ == old(self).tile_queue@ && final(self).in_flight
                is None,
            old(self).in_flight is None && old(self).tile_queue@.len() > 0 ==> {
                &&& r == Some(old(self).tile_queue@.last())
                &&& final(self).tile_queue@ == old(self).tile_queue@.drop_last()
                &&& final(self).in_flight == r
            },
    {
        if self.in_flight.is_some() {
            return None;
        }
        match self.tile_queue.pop() {
            Some(coord) => {
                self.in_flight = Some(coord);
                Some(coord)
            },
            None => None,
        }
    }

    /// Concludes the fetch in flight with its built tile: the tile is
    /// cached under the fetched coordinate, replacing any earlier tile
    /// there, and the globe is idle again.
    pub fn complete_fetch(&mut self, tile: Tile)
        requires
            old(self).in_flight is Some,
            old(self).wf(),
        ensures
            final(self).wf(),
            final(self).in_flight is None,
            final(self).tile_queue@ == old(self).tile_queue@,
            final(self).source == old(self).source,
            final(self).cache() == old(self).cache().insert(old(self).in_flight->0, tile),
    {
        let coord = self.in_flight.unwrap();
        self.in_flight = None;
        let n = self.tiles.len();
        for i in 0..n
            invariant
                n == self.tiles@.len(),
                old(self).wf(),
                coord == old(self).in_flight->0,
                self.tiles@ == old(self).tiles@,
                self.tile_queue@ == old(self).tile_queue@,
                self.source == old(self).source,
                self.in_flight is None,
                forall|p: int| 0 <= p < i ==> (#[trigger] self.tiles@[p]).0 != coord,
        {
            if self.tiles[i].0 == coord {
                let ghost entries = self.tiles@;
                self.tiles.set(i, (coord, tile));
                proof {
                    lemma_cache_map_update(entries, i as int, tile);
                    assert(self.tiles@ =~= entries.update(i as int, (coord, tile)));
                    assert forall|p: int, q: int|
                        0 <= p < q < self.tiles@.len() implies (#[trigger] self.tiles@[p]).0 != (
                    #[trigger] self.tiles@[q]).0 by {
                        assert(entries[p].0 != entries[q].0);
                    }
                }
                return ;
            }
        }
        proof {
            lemma_cache_map_push(self.tiles@, coord, tile);
        }
        self.tiles.push((coord, tile));
    }

    /// Concludes the fetch in flight after a failure: the coordinate is
    /// dropped and the globe is idle again, with the cache untouched.
    pub fn abort_fetch(&mut self)
        requires
            old(self).in_flight is Some,
        ensures
            final(self).in_flight is None,
            final(self).tiles@ == old(self).tiles@,
            final(self).tile_queue@ == old(self).tile_queue@,
            final(self).source == old(self).source,
    {
        self.in_flight = None;
    }

    /// Reads the cached tile at `coord`, if one has been built.
    pub fn lookup(&self, coord: TileCoord) -> (r: Option<&Tile>)
        requires
            self.wf(),
        ensures
            match r {
                Some(t) => self.cache().dom().contains(coord) && *t == self.cache()[coord],
                None => !self.cache().dom().contains(coord),
            },
    {
        let n = self.tiles.len();
        for i in 0..n
            invariant
                n == self.tiles@.len(),
                self.wf(),
                forall|p: int| 0 <= p < i ==> (#[trigger] self.tiles@[p]).0 != coord,
        {
            if self.tiles[i].0 == coord {
                proof {
                    lemma_cache_map_at(self.tiles@, i as int);
                }
                return Some(&self.tiles[i].1);
            }
        }
        proof {
            lemma_cache_map_dom(self.tiles@, coord);
        }
        None
    }
}

} // verus!
