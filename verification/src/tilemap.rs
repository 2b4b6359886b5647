//! The tilemap: a coordinate-to-chunk map, the set of resident (spawned)
//! chunk coordinates, the layer configuration, an optional bounded extent,
//! and the chunk event queue.

use crate::event::ChunkEventModel;
use crate::event::Entity;
use crate::event::Events;
use crate::event::TilemapChunkEvent;
use crate::geometry::Dimension2;
use crate::geometry::GridTopology;
use crate::geometry::Point2;
use vstd::arithmetic::div_mod::lemma_fundamental_div_mod;
use vstd::arithmetic::div_mod::lemma_fundamental_div_mod_converse_div;
use vstd::prelude::*;

verus! {

/// Non-owning lookup key for a mesh buffer owned by the rendering backend.
#[derive(Clone, Copy, PartialEq, Eq, Structural, Hash, Debug)]
pub struct MeshHandle {
    pub id: u64,
}

/// Storage strategy of a tile layer; opaque to the lifecycle logic.
#[derive(Clone, Copy, PartialEq, Eq, Structural, Debug)]
pub enum LayerKind {
    Dense,
    Sparse,
}

/// One configured z-ordered layer of the tilemap.
#[derive(Clone, Copy, PartialEq, Eq, Structural, Debug)]
pub struct TileLayer {
    pub kind: LayerKind,
}

/// Render bookkeeping of one spawned layer of a chunk: the host entity, the
/// mesh handle, the world translation of the chunk origin (half-pixel units;
/// the z depth is the z-order itself), and the change-detection counters.
#[derive(Clone, Copy, PartialEq, Eq, Structural, Debug)]
pub struct LayerEntry {
    pub entity: Entity,
    pub mesh: MeshHandle,
    pub half_x: i128,
    pub half_y: i128,
    /// Monotone counter, advanced once per observed `Modified` touch.
    pub version: u64,
    /// The value of `version` when the mesh attributes were last rebuilt.
    pub synced: u64,
}

/// The sequence of render entities of a layer-entry sequence, in z order.
pub open spec fn entities_model(s: Seq<Option<LayerEntry>>) -> Seq<Entity>
    decreases s.len(),
{
    if s.len() == 0 {
        Seq::empty()
    } else {
        entities_model(s.drop_last()) + (match s.last() {
            Some(e) => seq![e.entity],
            None => Seq::empty(),
        })
    }
}

/// A fixed-size block of tiles: the unit of spawn/despawn and meshing. Tile
/// contents live in external storage; the chunk carries the per-layer render
/// bookkeeping and, per layer, whether that storage can currently produce
/// renderer-ready arrays.
pub struct Chunk {
    pub point: Point2,
    /// Per z-order: whether the external tile storage has data to mesh.
    pub tiles_present: Vec<bool>,
    /// Per z-order: the render bookkeeping of the layer, if it is spawned.
    pub layers: Vec<Option<LayerEntry>>,
}

impl Chunk {
    /// Whether at least one layer of this chunk is rendered.
    pub open spec fn has_render_entities(self) -> bool {
        exists|z: int| 0 <= z < self.layers@.len() && (#[trigger] self.layers@[z]) is Some
    }

    pub fn point(&self) -> (p: Point2)
        ensures
            p == self.point,
    {
        self.point
    }

    /// The render entity of the layer at `z_order`, if that layer is spawned.
    pub fn get_entity(&self, z_order: usize) -> (r: Option<Entity>)
        ensures
            r == (if z_order < self.layers@.len() && self.layers@[z_order as int] is Some {
                Some(self.layers@[z_order as int]->Some_0.entity)
            } else {
                None::<Entity>
            }),
    {
        if z_order < self.layers.len() {
            match &self.layers[z_order] {
                Some(entry) => Some(entry.entity),
                None => None,
            }
        } else {
            None
        }
    }

    /// All render entities of this chunk, in z order.
    pub fn get_entities(&self) -> (r: Vec<Entity>)
        ensures
            r@ == entities_model(self.layers@),
    {
        let mut r: Vec<Entity> = Vec::new();
        let mut z: usize = 0;
        while z < self.layers.len()
            invariant
                z <= self.layers@.len(),
                r@ == entities_model(self.layers@.take(z as int)),
            decreases self.layers@.len() - z,
        {
            let ghost prefix = self.layers@.take(z as int);
            match &self.layers[z] {
                Some(entry) => {
                    r.push(entry.entity);
                },
                None => {},
            }
            proof {
                assert(self.layers@.take(z + 1 as int).drop_last() =~= prefix);
                assert(self.layers@.take(z + 1 as int).last() == self.layers@[z as int]);
                match self.layers@[z as int] {
                    Some(e) => {
                        assert(r@ =~= entities_model(prefix) + seq![e.entity]);
                    },
                    None => {
                        assert(r@ =~= entities_model(prefix) + Seq::<Entity>::empty());
                    },
                }
            }
            z = z + 1;
        }
        proof {
            assert(self.layers@.take(self.layers@.len() as int) =~= self.layers@);
        }
        r
    }
}

/// The error kinds of the core. Every failure is local: it is reported and
/// the surrounding pass continues with the remaining work.
#[derive(Clone, Copy, PartialEq, Eq, Structural, Debug)]
pub enum TilemapError {
    /// A coordinate that should have a chunk entry has none.
    ChunkLookupFailed(Point2),
    /// The tile storage cannot produce renderer arrays for this layer.
    TileDataUnavailable { point: Point2, z_order: usize },
    /// A modification event references a render entry that no longer exists.
    LayerEntryMissing(Entity),
    /// An invariant violation; the current tilemap's pass is abandoned.
    StructuralInconsistency,
    /// A requested coordinate lies outside the bounded map extent.
    OutOfBounds(Point2),
}

/// The chunk event queue of a tilemap.
pub struct TilemapEvents {
    pub chunk_events: Events,
}

impl TilemapEvents {
    /// Tick boundary for the queue: rotates the two retained generations.
    pub fn update_events(&mut self)
        requires
            old(self).chunk_events.wf(),
        ensures
            final(self).chunk_events.wf(),
            final(self).chunk_events.base() == old(self).chunk_events.base() + old(
                self,
            ).chunk_events.prev_len(),
            final(self).chunk_events.log() == old(self).chunk_events.log().skip(
                old(self).chunk_events.prev_len() as int,
            ),
            final(self).chunk_events.total() == old(self).chunk_events.total(),
            final(self).chunk_events.prev_len() == old(self).chunk_events.log().len() - old(
                self,
            ).chunk_events.prev_len(),
    {
        self.chunk_events.update();
    }
}

/// Floor division of `v` by a positive divisor `d` (the `/` on `int` below
/// rounds toward negative infinity).
pub fn div_floor(v: i64, d: u32) -> (r: i64)
    requires
        d >= 1,
    ensures
        r == v as int / d as int,
        v < 0 ==> v as int <= r <= 0,
        v >= 0 ==> 0 <= r <= v as int,
{
    let du: u64 = d as u64;
    if v >= 0 {
        let q: u64 = (v as u64) / du;
        proof {
            lemma_fundamental_div_mod(v as int, d as int);
        }
        q as i64
    } else {
        let m: u64 = (-(v as i128)) as u64;
        let q: u64 = (m / du) + (if m % du == 0 {
            0
        } else {
            1
        });
        proof {
            let mi = m as int;
            let di = d as int;
            lemma_fundamental_div_mod(mi, di);
            let a = mi / di;
            let b = mi % di;
            if b == 0 {
                assert(-mi == (-a) * di + 0) by (nonlinear_arith)
                    requires
                        mi == a * di + b,
                        b == 0,
                ;
                lemma_fundamental_div_mod_converse_div(-mi, di, -a, 0);
            } else {
                assert(-mi == (-(a + 1)) * di + (di - b)) by (nonlinear_arith)
                    requires
                        mi == a * di + b,
                ;
                lemma_fundamental_div_mod_converse_div(-mi, di, -(a + 1), di - b);
            }
            assert(q == (if b == 0 {
                a
            } else {
                a + 1
            }));
            assert(q <= mi) by (nonlinear_arith)
                requires
                    mi == a * di + b,
                    0 <= b < di,
                    1 <= di,
                    1 <= mi,
                    q == (if b == 0 {
                        a
                    } else {
                        a + 1
                    }),
            ;
        }
        (-(q as i128)) as i64
    }
}

/// True when no coordinate occurs twice.
pub open spec fn distinct_points(s: Seq<Point2>) -> bool {
    forall|i: int, j: int| 0 <= i < j < s.len() ==> s[i] != s[j]
}

/// `s` with every occurrence of `p` removed, order otherwise kept.
pub open spec fn remove_all(s: Seq<Point2>, p: Point2) -> Seq<Point2>
    decreases s.len(),
{
    if s.len() == 0 {
        Seq::empty()
    } else {
        remove_all(s.drop_last(), p) + (if s.last() == p {
            Seq::empty()
        } else {
            seq![s.last()]
        })
    }
}

/// Removal keeps order, keeps distinctness, and removes exactly `p`.
pub proof fn lemma_remove_all_props(s: Seq<Point2>, p: Point2)
    ensures
        remove_all(s, p).len() <= s.len(),
        forall|q: Point2| #[trigger] remove_all(s, p).contains(q) <==> (s.contains(q) && q != p),
        distinct_points(s) ==> distinct_points(remove_all(s, p)),
    decreases s.len(),
{
    let r = remove_all(s, p);
    if s.len() == 0 {
        assert(forall|q: Point2| !(#[trigger] r.contains(q)));
        assert(forall|q: Point2| !s.contains(q));
    } else {
        let d = s.drop_last();
        let rd = remove_all(d, p);
        lemma_remove_all_props(d, p);
        assert forall|q: Point2| #[trigger] r.contains(q) implies (s.contains(q) && q != p) by {
            let k = choose|k: int| 0 <= k < r.len() && r[k] == q;
            if k < rd.len() {
                assert(rd.contains(q));
                let k2 = choose|k2: int| 0 <= k2 < d.len() && d[k2] == q;
                assert(s[k2] == q);
            } else {
                assert(q == s.last());
                assert(s[s.len() - 1] == q);
            }
        }
        assert forall|q: Point2| s.contains(q) && q != p implies #[trigger] r.contains(q) by {
            let k = choose|k: int| 0 <= k < s.len() && s[k] == q;
            if k < s.len() - 1 {
                assert(d[k] == q);
                assert(rd.contains(q));
                let k2 = choose|k2: int| 0 <= k2 < rd.len() && rd[k2] == q;
                assert(r[k2] == q);
            } else {
                assert(s.last() == q);
                assert(r[r.len() - 1] == q);
            }
        }
        if distinct_points(s) {
            assert(distinct_points(d));
            if s.last() != p {
                assert forall|i: int, j: int| 0 <= i < j < r.len() implies r[i] != r[j] by {
                    if j < rd.len() {
                    } else {
                        assert(r[j] == s.last());
                        assert(rd.contains(r[i]));
                        assert(d.contains(r[i]));
                        let k = choose|k: int| 0 <= k < d.len() && d[k] == r[i];
                        assert(s[k] == r[i]);
                        assert(s[k] != s[s.len() - 1]);
                    }
                }
            }
        }
    }
}

/// The tilemap: configuration, the coordinate-to-chunk map, the resident set,
/// the event queue, and counters minting fresh entity and mesh identities.
pub struct Tilemap {
    pub topology: GridTopology,
    /// Tile size in pixels.
    pub tile_dimensions: Dimension2,
    /// Chunk size in tiles.
    pub chunk_dimensions: Dimension2,
    /// Texture atlas tile size in pixels.
    pub texture_dimensions: Dimension2,
    /// Bounded map width in tiles; `None` means unbounded.
    pub width: Option<u32>,
    /// Bounded map height in tiles; `None` means unbounded.
    pub height: Option<u32>,
    /// Spawn radius (half-width, half-height) in chunks, when auto-spawning.
    pub auto_spawn: Option<Dimension2>,
    /// The configured z-ordered layers; absent layers are `None`.
    pub layers: Vec<Option<TileLayer>>,
    /// The coordinate-to-chunk map, keys unique.
    pub chunks: Vec<(Point2, Chunk)>,
    /// The currently materialized coordinates, no duplicates.
    pub spawned_chunks: Vec<Point2>,
    pub events: TilemapEvents,
    /// Mints fresh render-entity identities.
    pub next_entity: u64,
    /// Mints fresh mesh-handle identities.
    pub next_mesh: u64,
}

impl Tilemap {
    /// The resident coordinates, as a set.
    pub open spec fn spawned_set(self) -> Set<Point2> {
        self.spawned_chunks@.to_set()
    }

    pub open spec fn has_chunk(self, p: Point2) -> bool {
        exists|i: int| 0 <= i < self.chunks@.len() && (#[trigger] self.chunks@[i]).0 == p
    }

    pub open spec fn chunk_index_of(self, p: Point2) -> int {
        choose|i: int| 0 <= i < self.chunks@.len() && (#[trigger] self.chunks@[i]).0 == p
    }

    /// The chunk stored for `p` (meaningful only when `has_chunk(p)`).
    pub open spec fn chunk_at(self, p: Point2) -> Chunk {
        self.chunks@[self.chunk_index_of(p)].1
    }

    pub open spec fn layer_count(self) -> nat {
        self.layers@.len()
    }

    pub open spec fn wf_dims(self) -> bool {
        &&& self.tile_dimensions.width >= 1
        &&& self.tile_dimensions.height >= 1
        &&& self.chunk_dimensions.width >= 1
        &&& self.chunk_dimensions.height >= 1
    }

    /// A chunk sized to this tilemap's layer configuration.
    pub open spec fn chunk_shaped(self, c: Chunk) -> bool {
        &&& c.layers@.len() == self.layer_count()
        &&& c.tiles_present@.len() == self.layer_count()
    }

    pub open spec fn wf_chunks(self) -> bool {
        &&& forall|i: int, j: int|
            0 <= i < j < self.chunks@.len() ==> (#[trigger] self.chunks@[i]).0 != (
            #[trigger] self.chunks@[j]).0
        &&& forall|i: int|
            0 <= i < self.chunks@.len() ==> (#[trigger] self.chunks@[i]).1.point
                == self.chunks@[i].0
        &&& forall|i: int|
            0 <= i < self.chunks@.len() ==> self.chunk_shaped((#[trigger] self.chunks@[i]).1)
    }

    pub open spec fn wf_spawned(self) -> bool {
        &&& distinct_points(self.spawned_chunks@)
        &&& forall|i: int|
            0 <= i < self.spawned_chunks@.len() ==> self.has_chunk(
                #[trigger] self.spawned_chunks@[i],
            )
    }

    /// A coordinate is resident exactly when its chunk has a rendered layer.
    pub open spec fn wf_links(self) -> bool {
        forall|i: int|
            0 <= i < self.chunks@.len() ==> ((#[trigger] self.chunks@[i]).1.has_render_entities()
                <==> self.spawned_chunks@.contains(self.chunks@[i].0))
    }

    pub open spec fn wf(self) -> bool {
        &&& self.wf_dims()
        &&& self.wf_chunks()
        &&& self.wf_spawned()
        &&& self.wf_links()
        &&& self.events.chunk_events.wf()
    }

    /// Everything but the chunk map, resident set, event queue, radius and
    /// identity counters.
    pub open spec fn same_config(self, o: Tilemap) -> bool {
        &&& self.topology == o.topology
        &&& self.tile_dimensions == o.tile_dimensions
        &&& self.chunk_dimensions == o.chunk_dimensions
        &&& self.texture_dimensions == o.texture_dimensions
        &&& self.width == o.width
        &&& self.height == o.height
        &&& self.layers@ == o.layers@
    }

    /// The chunk map has the same keys and chunks for every key but `p`.
    pub open spec fn same_chunks_except(self, o: Tilemap, p: Point2) -> bool {
        &&& forall|q: Point2| #[trigger] self.has_chunk(q) <==> o.has_chunk(q)
        &&& forall|q: Point2|
            q != p && o.has_chunk(q) ==> #[trigger] self.chunk_at(q) == o.chunk_at(q)
    }

    /// Well-formedness only reads the dimensions, the chunk map, the resident
    /// list and the queue: a tilemap agreeing on those is well-formed too.
    pub proof fn lemma_wf_same_maps(self, o: Tilemap)
        requires
            self.wf(),
            o.chunks@ == self.chunks@,
            o.spawned_chunks@ == self.spawned_chunks@,
            o.layers@ == self.layers@,
            o.tile_dimensions == self.tile_dimensions,
            o.chunk_dimensions == self.chunk_dimensions,
            o.events.chunk_events.wf(),
        ensures
            o.wf(),
    {
        assert forall|k: int| 0 <= k < o.spawned_chunks@.len() implies o.has_chunk(
            #[trigger] o.spawned_chunks@[k],
        ) by {
            assert(self.has_chunk(self.spawned_chunks@[k]));
            let j = choose|j: int|
                0 <= j < self.chunks@.len() && (#[trigger] self.chunks@[j]).0
                    == self.spawned_chunks@[k];
            assert(o.chunks@[j].0 == o.spawned_chunks@[k]);
        }
        assert(o.wf_chunks());
        assert(o.wf_links());
    }

    /// Updating fields inside layer entries (counters and the like) without
    /// changing which entries exist keeps a tilemap well-formed.
    pub proof fn lemma_wf_same_shape(self, o: Tilemap)
        requires
            self.wf(),
            o.spawned_chunks@ == self.spawned_chunks@,
            o.layers@ == self.layers@,
            o.tile_dimensions == self.tile_dimensions,
            o.chunk_dimensions == self.chunk_dimensions,
            o.events.chunk_events.wf(),
            o.chunks@.len() == self.chunks@.len(),
            forall|k: int|
                0 <= k < self.chunks@.len() ==> (#[trigger] o.chunks@[k]).0 == self.chunks@[k].0
                    && o.chunks@[k].1.point == self.chunks@[k].1.point
                    && o.chunks@[k].1.tiles_present@.len()
                    == self.chunks@[k].1.tiles_present@.len() && o.chunks@[k].1.layers@.len()
                    == self.chunks@[k].1.layers@.len(),
            forall|k: int, z: int|
                0 <= k < self.chunks@.len() && 0 <= z < self.chunks@[k].1.layers@.len() ==> ((
                #[trigger] o.chunks@[k].1.layers@[z]) is Some <==> (
                #[trigger] self.chunks@[k].1.layers@[z]) is Some),
        ensures
            o.wf(),
    {
        assert forall|k: int| 0 <= k < o.spawned_chunks@.len() implies o.has_chunk(
            #[trigger] o.spawned_chunks@[k],
        ) by {
            assert(self.has_chunk(self.spawned_chunks@[k]));
            let j = choose|j: int|
                0 <= j < self.chunks@.len() && (#[trigger] self.chunks@[j]).0
                    == self.spawned_chunks@[k];
            assert(o.chunks@[j].0 == o.spawned_chunks@[k]);
        }
        assert forall|k: int| 0 <= k < o.chunks@.len() implies ((
        #[trigger] o.chunks@[k]).1.has_render_entities() <==> o.spawned_chunks@.contains(
            o.chunks@[k].0,
        )) by {
            if o.chunks@[k].1.has_render_entities() {
                let z = choose|z: int|
                    0 <= z < o.chunks@[k].1.layers@.len() && (
                    #[trigger] o.chunks@[k].1.layers@[z]) is Some;
                assert(self.chunks@[k].1.layers@[z] is Some);
                assert(self.chunks@[k].1.has_render_entities());
            }
            if self.chunks@[k].1.has_render_entities() {
                let z = choose|z: int|
                    0 <= z < self.chunks@[k].1.layers@.len() && (
                    #[trigger] self.chunks@[k].1.layers@[z]) is Some;
                assert(o.chunks@[k].1.layers@[z] is Some);
                assert(o.chunks@[k].1.has_render_entities());
            }
        }
        assert(o.wf_chunks());
    }

    /// The index holding key `p` is unique, and `chunk_at` reads it.
    pub proof fn lemma_chunk_index(self, p: Point2, i: int)
        requires
            self.wf_chunks(),
            0 <= i < self.chunks@.len(),
            self.chunks@[i].0 == p,
        ensures
            self.has_chunk(p),
            self.chunk_index_of(p) == i,
            self.chunk_at(p) == self.chunks@[i].1,
    {
        assert(self.has_chunk(p));
        let j = self.chunk_index_of(p);
        if j < i {
            assert(self.chunks@[j].0 != self.chunks@[i].0);
        } else if j > i {
            assert(self.chunks@[i].0 != self.chunks@[j].0);
        }
    }

    pub fn new(
        topology: GridTopology,
        tile_dimensions: Dimension2,
        chunk_dimensions: Dimension2,
        texture_dimensions: Dimension2,
        width: Option<u32>,
        height: Option<u32>,
        layers: Vec<Option<TileLayer>>,
    ) -> (t: Tilemap)
        requires
            tile_dimensions.width >= 1,
            tile_dimensions.height >= 1,
            chunk_dimensions.width >= 1,
            chunk_dimensions.height >= 1,
        ensures
            t.wf(),
            t.topology == topology,
            t.tile_dimensions == tile_dimensions,
            t.chunk_dimensions == chunk_dimensions,
            t.texture_dimensions == texture_dimensions,
            t.width == width,
            t.height == height,
            t.auto_spawn is None,
            t.layers@ == layers@,
            t.chunks@.len() == 0,
            t.spawned_chunks@.len() == 0,
            t.events.chunk_events.log().len() == 0,
            t.events.chunk_events.base() == 0,
            t.next_entity == 0,
            t.next_mesh == 0,
    {
        Tilemap {
            topology,
            tile_dimensions,
            chunk_dimensions,
            texture_dimensions,
            width,
            height,
            auto_spawn: None,
            layers,
            chunks: Vec::new(),
            spawned_chunks: Vec::new(),
            events: TilemapEvents { chunk_events: Events::new() },
            next_entity: 0,
            next_mesh: 0,
        }
    }

    /// Half extent, in chunks, of a bounded axis of `extent` tiles split into
    /// chunks of `chunk_dim` tiles.
    pub open spec fn half_extent(extent: u32, chunk_dim: u32) -> int {
        (extent as int / chunk_dim as int) / 2
    }

    /// Whether chunk coordinate `(x, y)` lies inside the bounded extent.
    /// Unbounded axes admit any coordinate.
    pub open spec fn in_bounds_xy(self, x: int, y: int) -> bool {
        &&& match self.width {
            Some(w) => -Self::half_extent(w, self.chunk_dimensions.width) <= x <= Self::half_extent(
                w,
                self.chunk_dimensions.width,
            ),
            None => true,
        }
        &&& match self.height {
            Some(h) => -Self::half_extent(h, self.chunk_dimensions.height) <= y
                <= Self::half_extent(h, self.chunk_dimensions.height),
            None => true,
        }
    }

    pub open spec fn in_bounds(self, p: Point2) -> bool {
        self.in_bounds_xy(p.x as int, p.y as int)
    }

    /// Bounded-extent check for a candidate chunk coordinate.
    pub fn check_bounds(&self, x: i64, y: i64) -> (r: bool)
        requires
            self.wf_dims(),
        ensures
            r == self.in_bounds_xy(x as int, y as int),
    {
        let ok_x = match self.width {
            Some(w) => {
                let m: i64 = ((w / self.chunk_dimensions.width) / 2) as i64;
                -m <= x && x <= m
            },
            None => true,
        };
        let ok_y = match self.height {
            Some(h) => {
                let m: i64 = ((h / self.chunk_dimensions.height) / 2) as i64;
                -m <= y && y <= m
            },
            None => true,
        };
        ok_x && ok_y
    }

    /// Maps a point in tile units to the chunk coordinate containing it, by
    /// floor division with the chunk dimensions; topology-independent.
    pub fn point_to_chunk_point(&self, point: (i32, i32)) -> (r: (i32, i32))
        requires
            self.wf_dims(),
        ensures
            r.0 == point.0 as int / self.chunk_dimensions.width as int,
            r.1 == point.1 as int / self.chunk_dimensions.height as int,
    {
        let cx = div_floor(point.0 as i64, self.chunk_dimensions.width);
        let cy = div_floor(point.1 as i64, self.chunk_dimensions.height);
        (cx as i32, cy as i32)
    }

    /// Position of `point` in the chunk map, if present.
    #[verifier::loop_isolation(false)]
    pub(crate) fn find_chunk_index(&self, point: Point2) -> (r: Option<usize>)
        ensures
            match r {
                Some(i) => i < self.chunks@.len() && self.chunks@[i as int].0 == point,
                None => !self.has_chunk(point),
            },
    {
        let mut i: usize = 0;
        while i < self.chunks.len()
            invariant
                i <= self.chunks@.len(),
                forall|j: int| 0 <= j < i ==> (#[trigger] self.chunks@[j]).0 != point,
            decreases self.chunks@.len() - i,
        {
            if self.chunks[i].0 == point {
                return Some(i);
            }
            i = i + 1;
        }
        None
    }

    pub fn contains_chunk(&self, point: Point2) -> (r: bool)
        ensures
            r == self.has_chunk(point),
    {
        self.find_chunk_index(point).is_some()
    }
}

/// Whether `v` holds `p`.
#[verifier::loop_isolation(false)]
pub fn point_list_contains(v: &Vec<Point2>, p: Point2) -> (r: bool)
    ensures
        r == v@.contains(p),
{
    let mut i: usize = 0;
    while i < v.len()
        invariant
            i <= v@.len(),
            forall|j: int| 0 <= j < i ==> v@[j] != p,
        decreases v@.len() - i,
    {
        if v[i] == p {
            return true;
        }
        i = i + 1;
    }
    false
}

impl Tilemap {
    /// Requests that the chunk at `point` be materialized. Inside the bounded
    /// extent this always succeeds: the chunk entry is created if missing (new
    /// entries can mesh all layers until the host says otherwise) and a
    /// `Spawned` event is published — also when the coordinate is already
    /// resident, which the event consumer treats as a no-op. Outside the
    /// extent the request is rejected and nothing changes.
    pub fn spawn_chunk(&mut self, point: Point2) -> (r: Result<(), TilemapError>)
        requires
            old(self).wf(),
            old(self).events.chunk_events.can_publish(1),
        ensures
            final(self).wf(),
            final(self).same_config(*old(self)),
            final(self).layers == old(self).layers,
            final(self).auto_spawn == old(self).auto_spawn,
            final(self).next_entity == old(self).next_entity,
            final(self).next_mesh == old(self).next_mesh,
            final(self).spawned_chunks == old(self).spawned_chunks,
            final(self).events.chunk_events.base() == old(self).events.chunk_events.base(),
            r is Ok <==> old(self).in_bounds(point),
            (if old(self).in_bounds(point) {
                &&& final(self).events.chunk_events.log() == old(
                    self,
                ).events.chunk_events.log().push(ChunkEventModel::Spawned { point })
                &&& (forall|q: Point2|
                    #[trigger] final(self).has_chunk(q) <==> old(self).has_chunk(q) || q == point)
                &&& (forall|q: Point2|
                    q != point && old(self).has_chunk(q) ==> #[trigger] final(self).chunk_at(q)
                        == old(self).chunk_at(q))
                &&& final(self).has_chunk(point)
                &&& (old(self).has_chunk(point) ==> final(self).chunks@ == old(self).chunks@)
                &&& (!old(self).has_chunk(point) ==> {
                    &&& final(self).chunk_at(point).point == point
                    &&& final(self).chunk_at(point).layers@ =~= Seq::new(
                        old(self).layer_count(),
                        |z: int| None::<LayerEntry>,
                    )
                    &&& final(self).chunk_at(point).tiles_present@ =~= Seq::new(
                        old(self).layer_count(),
                        |z: int| true,
                    )
                })
            } else {
                &&& r == Err::<(), TilemapError>(TilemapError::OutOfBounds(point))
                &&& *final(self) == *old(self)
            }),
    {
        if !self.check_bounds(point.x as i64, point.y as i64) {
            return Err(TilemapError::OutOfBounds(point));
        }
        self.events.chunk_events.publish(TilemapChunkEvent::Spawned { point });
        let found = self.find_chunk_index(point);
        if found.is_none() {
            let n = self.layers.len();
            let mut tiles_present: Vec<bool> = Vec::new();
            let mut layer_slots: Vec<Option<LayerEntry>> = Vec::new();
            let mut z: usize = 0;
            #[verifier::loop_isolation(false)]
            while z < n
                invariant
                    z <= n,
                    tiles_present@.len() == z,
                    layer_slots@.len() == z,
                    forall|k: int| 0 <= k < z ==> tiles_present@[k] == true,
                    forall|k: int| 0 <= k < z ==> layer_slots@[k] is None,
                decreases n - z,
            {
                tiles_present.push(true);
                layer_slots.push(None);
                z = z + 1;
            }
            let fresh = Chunk { point, tiles_present, layers: layer_slots };
            self.chunks.push((point, fresh));
            proof {
                let n0 = old(self).chunks@.len() as int;
                assert(self.chunks@[n0].0 == point);
                self.lemma_chunk_index(point, n0);
                assert(self.chunk_at(point).layers@ =~= Seq::new(
                    old(self).layer_count(),
                    |z: int| None::<LayerEntry>,
                ));
                assert(self.chunk_at(point).tiles_present@ =~= Seq::new(
                    old(self).layer_count(),
                    |z: int| true,
                ));
                assert(!self.chunk_at(point).has_render_entities());
                // the new coordinate is not resident: residency implies a
                // chunk entry existed before
                if self.spawned_chunks@.contains(point) {
                    let k = choose|k: int|
                        0 <= k < self.spawned_chunks@.len() && self.spawned_chunks@[k] == point;
                    assert(old(self).has_chunk(point));
                }
                assert forall|q: Point2| #[trigger] self.has_chunk(q) implies old(self).has_chunk(
                    q,
                ) || q == point by {
                    let i = choose|i: int|
                        0 <= i < self.chunks@.len() && (#[trigger] self.chunks@[i]).0 == q;
                    if i < n0 {
                        assert(old(self).chunks@[i].0 == q);
                    }
                }
                assert forall|q: Point2| old(self).has_chunk(q) implies #[trigger] self.has_chunk(
                    q,
                ) by {
                    let j = choose|j: int|
                        0 <= j < old(self).chunks@.len() && (#[trigger] old(self).chunks@[j]).0
                            == q;
                    assert(self.chunks@[j].0 == q);
                }
                assert forall|q: Point2|
                    q != point && old(self).has_chunk(q) implies #[trigger] self.chunk_at(q) == old(
                    self,
                ).chunk_at(q) by {
                    let i = choose|i: int|
                        0 <= i < old(self).chunks@.len() && (#[trigger] old(self).chunks@[i]).0
                            == q;
                    old(self).lemma_chunk_index(q, i);
                    self.lemma_chunk_index(q, i);
                }
                assert forall|a: int, b: int| 0 <= a < b < self.chunks@.len() implies (
                #[trigger] self.chunks@[a]).0 != (#[trigger] self.chunks@[b]).0 by {
                    if b == n0 && self.chunks@[a].0 == point {
                        assert(old(self).chunks@[a].0 == point);
                        assert(old(self).has_chunk(point));
                    }
                }
                assert(self.wf_chunks());
                assert forall|k: int| 0 <= k < self.spawned_chunks@.len() implies self.has_chunk(
                    #[trigger] self.spawned_chunks@[k],
                ) by {
                    assert(old(self).has_chunk(self.spawned_chunks@[k]));
                    let j = choose|j: int|
                        0 <= j < old(self).chunks@.len() && (#[trigger] old(self).chunks@[j]).0
                            == self.spawned_chunks@[k];
                    assert(self.chunks@[j].0 == self.spawned_chunks@[k]);
                }
                assert(self.wf_spawned());
                assert forall|k: int| 0 <= k < self.chunks@.len() implies ((
                #[trigger] self.chunks@[k]).1.has_render_entities()
                    <==> self.spawned_chunks@.contains(self.chunks@[k].0)) by {
                    if k < n0 {
                        assert(self.chunks@[k] == old(self).chunks@[k]);
                    } else {
                        assert(!self.spawned_chunks@.contains(point));
                    }
                }
                assert(self.wf());
            }
        } else {
            proof {
                assert(old(self).has_chunk(point));
                assert(self.chunks@ == old(self).chunks@);
                assert forall|q: Point2|
                    q != point && old(self).has_chunk(q) implies #[trigger] self.chunk_at(q) == old(
                    self,
                ).chunk_at(q) by {
                    let i = choose|i: int|
                        0 <= i < old(self).chunks@.len() && (#[trigger] old(self).chunks@[i]).0
                            == q;
                    old(self).lemma_chunk_index(q, i);
                    self.lemma_chunk_index(q, i);
                }
                let i = choose|i: int|
                    0 <= i < old(self).chunks@.len() && (#[trigger] old(self).chunks@[i]).0
                        == point;
                self.lemma_chunk_index(point, i);
                assert forall|q: Point2| #[trigger] self.has_chunk(q) implies old(self).has_chunk(
                    q,
                ) by {
                    let k = choose|k: int|
                        0 <= k < self.chunks@.len() && (#[trigger] self.chunks@[k]).0 == q;
                    assert(old(self).chunks@[k].0 == q);
                }
                assert forall|q: Point2| old(self).has_chunk(q) implies #[trigger] self.has_chunk(
                    q,
                ) by {
                    let k = choose|k: int|
                        0 <= k < old(self).chunks@.len() && (#[trigger] old(self).chunks@[k]).0
                            == q;
                    assert(self.chunks@[k].0 == q);
                }
                assert(self.wf());
            }
        }
        proof {
            if old(self).in_bounds(point) {
                assert(self.events.chunk_events.log() == old(self).events.chunk_events.log().push(
                    ChunkEventModel::Spawned { point },
                ));
                assert(forall|q: Point2|
                    #[trigger] self.has_chunk(q) <==> old(self).has_chunk(q) || q == point);
                assert(forall|q: Point2|
                    q != point && old(self).has_chunk(q) ==> #[trigger] self.chunk_at(q) == old(
                        self,
                    ).chunk_at(q));
                assert(self.has_chunk(point));
                assert(old(self).has_chunk(point) ==> self.chunks@ == old(self).chunks@);
                if !old(self).has_chunk(point) {
                    assert(self.chunk_at(point).point == point);
                    assert(self.chunk_at(point).layers@ =~= Seq::new(
                        old(self).layer_count(),
                        |z: int| None::<LayerEntry>,
                    ));
                    assert(self.chunk_at(point).tiles_present@ =~= Seq::new(
                        old(self).layer_count(),
                        |z: int| true,
                    ));
                }
            }
        }
        Ok(())
    }

    /// Despawns the chunk at `point`: every rendered layer-entry is removed,
    /// the coordinate leaves the resident set, and a `Despawned` event naming
    /// the removed entities is published. Fails (changing nothing) only when
    /// no chunk entry exists for the coordinate.
    pub fn despawn_chunk(&mut self, point: Point2) -> (r: Result<(), TilemapError>)
        requires
            old(self).wf(),
            old(self).events.chunk_events.can_publish(1),
        ensures
            final(self).wf(),
            final(self).same_config(*old(self)),
            final(self).layers == old(self).layers,
            final(self).auto_spawn == old(self).auto_spawn,
            final(self).next_entity == old(self).next_entity,
            final(self).next_mesh == old(self).next_mesh,
            final(self).events.chunk_events.base() == old(self).events.chunk_events.base(),
            r is Ok <==> old(self).has_chunk(point),
            (if old(self).has_chunk(point) {
                &&& final(self).spawned_chunks@ == remove_all(old(self).spawned_chunks@, point)
                &&& final(self).events.chunk_events.log() == old(
                    self,
                ).events.chunk_events.log().push(
                    ChunkEventModel::Despawned {
                        entities: entities_model(old(self).chunk_at(point).layers@),
                        point,
                    },
                )
                &&& final(self).same_chunks_except(*old(self), point)
                &&& final(self).chunk_at(point).point == old(self).chunk_at(point).point
                &&& final(self).chunk_at(point).tiles_present == old(self).chunk_at(
                    point,
                ).tiles_present
                &&& final(self).chunk_at(point).layers@ =~= Seq::new(
                    old(self).layer_count(),
                    |z: int| None::<LayerEntry>,
                )
            } else {
                &&& r == Err::<(), TilemapError>(TilemapError::ChunkLookupFailed(point))
                &&& *final(self) == *old(self)
            }),
    {
        let found = self.find_chunk_index(point);
        let i = match found {
            Some(i) => i,
            None => {
                return Err(TilemapError::ChunkLookupFailed(point));
            },
        };
        proof {
            self.lemma_chunk_index(point, i as int);
        }
        let entities = self.chunks[i].1.get_entities();
        let n = self.layers.len();
        let mut cleared: Vec<Option<LayerEntry>> = Vec::new();
        let mut z: usize = 0;
        #[verifier::loop_isolation(false)]
        while z < n
            invariant
                z <= n,
                cleared@.len() == z,
                forall|k: int| 0 <= k < z ==> cleared@[k] is None,
            decreases n - z,
        {
            cleared.push(None);
            z = z + 1;
        }
        let slot = &mut self.chunks[i];
        slot.1.layers = cleared;
        let mut kept: Vec<Point2> = Vec::new();
        let mut s: usize = 0;
        #[verifier::loop_isolation(false)]
        while s < self.spawned_chunks.len()
            invariant
                s <= self.spawned_chunks@.len(),
                kept@ == remove_all(self.spawned_chunks@.take(s as int), point),
            decreases self.spawned_chunks@.len() - s,
        {
            let ghost prefix = self.spawned_chunks@.take(s as int);
            let q = self.spawned_chunks[s];
            if q.x != point.x || q.y != point.y {
                kept.push(q);
            }
            proof {
                assert(self.spawned_chunks@.take(s + 1 as int).drop_last() =~= prefix);
                assert(self.spawned_chunks@.take(s + 1 as int).last() == q);
                if q == point {
                    assert(kept@ =~= remove_all(prefix, point) + Seq::<Point2>::empty());
                } else {
                    assert(kept@ =~= remove_all(prefix, point) + seq![q]);
                }
            }
            s = s + 1;
        }
        proof {
            assert(self.spawned_chunks@.take(self.spawned_chunks@.len() as int)
                =~= self.spawned_chunks@);
        }
        self.spawned_chunks = kept;
        self.events.chunk_events.publish(TilemapChunkEvent::Despawned { entities, point });
        proof {
            lemma_remove_all_props(old(self).spawned_chunks@, point);
            self.lemma_chunk_index(point, i as int);
            assert forall|q: Point2| #[trigger] self.has_chunk(q) implies old(self).has_chunk(
                q,
            ) by {
                let k = choose|k: int|
                    0 <= k < self.chunks@.len() && (#[trigger] self.chunks@[k]).0 == q;
                assert(old(self).chunks@[k].0 == q);
            }
            assert forall|q: Point2| #[trigger] old(self).has_chunk(q) implies self.has_chunk(
                q,
            ) by {
                let k = choose|k: int|
                    0 <= k < old(self).chunks@.len() && (#[trigger] old(self).chunks@[k]).0 == q;
                assert(self.chunks@[k].0 == q);
            }
            assert forall|q: Point2|
                q != point && old(self).has_chunk(q) implies #[trigger] self.chunk_at(q) == old(
                self,
            ).chunk_at(q) by {
                let k = choose|k: int|
                    0 <= k < old(self).chunks@.len() && (#[trigger] old(self).chunks@[k]).0 == q;
                old(self).lemma_chunk_index(q, k);
                self.lemma_chunk_index(q, k);
            }
            assert(!self.chunk_at(point).has_render_entities());
            // links: every chunk still matches the shrunken resident set
            assert forall|k: int| 0 <= k < self.chunks@.len() implies ((
            #[trigger] self.chunks@[k]).1.has_render_entities() <==> self.spawned_chunks@.contains(
                self.chunks@[k].0,
            )) by {
                if k == i as int {
                    assert(!self.spawned_chunks@.contains(point));
                } else {
                    assert(old(self).chunks@[k] == self.chunks@[k]);
                    assert(old(self).chunks@[k].0 != point);
                }
            }
            assert forall|k: int| 0 <= k < self.spawned_chunks@.len() implies self.has_chunk(
                #[trigger] self.spawned_chunks@[k],
            ) by {
                assert(self.spawned_chunks@.contains(self.spawned_chunks@[k]));
                assert(old(self).spawned_chunks@.contains(self.spawned_chunks@[k]));
                let m = choose|m: int|
                    0 <= m < old(self).spawned_chunks@.len() && old(self).spawned_chunks@[m]
                        == self.spawned_chunks@[k];
                assert(old(self).has_chunk(old(self).spawned_chunks@[m]));
            }
            assert(self.wf());
        }
        Ok(())
    }
}

} // verus!
