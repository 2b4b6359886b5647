//! The per-tick passes of the engine: event-queue rotation, the spawn /
//! modify / despawn event handlers, the dirty-tracking mesh synchronizer,
//! and the windowed auto-spawn around a camera.

use crate::event::ChunkEventModel;
use crate::event::Entity;
use crate::event::EventReader;
use crate::event::ModifiedEntry;
use crate::event::TilemapChunkEvent;
use crate::event::copy_entities;
use crate::event::models;
use crate::geometry::Point2;
use crate::tilemap::LayerEntry;
use crate::tilemap::distinct_points;
use crate::tilemap::lemma_remove_all_props;
use crate::tilemap::point_list_contains;
use crate::tilemap::MeshHandle;
use crate::tilemap::Tilemap;
use crate::tilemap::TilemapError;
use vstd::arithmetic::div_mod::lemma_fundamental_div_mod;
use vstd::prelude::*;

verus! {

/// The points of the `Spawned` events of a batch, in publish order.
pub open spec fn spawn_points(s: Seq<ChunkEventModel>) -> Seq<Point2>
    decreases s.len(),
{
    if s.len() == 0 {
        Seq::empty()
    } else {
        spawn_points(s.drop_last()) + (match s.last() {
            ChunkEventModel::Spawned { point } => seq![point],
            _ => Seq::empty(),
        })
    }
}

/// The touched layer-entries of the `Modified` events of a batch, flattened
/// in publish order.
pub open spec fn modified_entries(s: Seq<ChunkEventModel>) -> Seq<ModifiedEntry>
    decreases s.len(),
{
    if s.len() == 0 {
        Seq::empty()
    } else {
        modified_entries(s.drop_last()) + (match s.last() {
            ChunkEventModel::Modified { layers } => layers,
            _ => Seq::empty(),
        })
    }
}

/// The entities of the `Despawned` events of a batch, flattened in publish
/// order.
pub open spec fn despawned_entities(s: Seq<ChunkEventModel>) -> Seq<Entity>
    decreases s.len(),
{
    if s.len() == 0 {
        Seq::empty()
    } else {
        despawned_entities(s.drop_last()) + (match s.last() {
            ChunkEventModel::Despawned { entities, point } => entities,
            _ => Seq::empty(),
        })
    }
}

/// How many touches a batch of modified layer-entries holds for `e`.
pub open spec fn touch_count(entries: Seq<ModifiedEntry>, e: Entity) -> nat
    decreases entries.len(),
{
    if entries.len() == 0 {
        0
    } else {
        touch_count(entries.drop_last(), e) + (if entries.last().entity == e {
            1nat
        } else {
            0nat
        })
    }
}

/// A batch cannot touch an entity more often than its own length.
pub proof fn lemma_touch_count_le(entries: Seq<ModifiedEntry>, e: Entity)
    ensures
        touch_count(entries, e) <= entries.len(),
    decreases entries.len(),
{
    if entries.len() > 0 {
        lemma_touch_count_le(entries.drop_last(), e);
    }
}

/// Whether some spawned layer-entry of some chunk carries entity `e`.
pub open spec fn any_entry_has(chunks: Seq<(Point2, crate::tilemap::Chunk)>, e: Entity) -> bool {
    exists|i: int, z: int|
        0 <= i < chunks.len() && 0 <= z < (#[trigger] chunks[i]).1.layers@.len()
            && ((#[trigger] chunks[i].1.layers@[z]) matches Some(entry) && entry.entity == e)
}

/// The `LayerEntryMissing` reports for the touches of a batch that match no
/// spawned layer-entry, in batch order.
pub open spec fn missing_errors(
    entries: Seq<ModifiedEntry>,
    chunks: Seq<(Point2, crate::tilemap::Chunk)>,
) -> Seq<TilemapError>
    decreases entries.len(),
{
    if entries.len() == 0 {
        Seq::empty()
    } else {
        missing_errors(entries.drop_last(), chunks) + (if any_entry_has(
            chunks,
            entries.last().entity,
        ) {
            Seq::empty()
        } else {
            seq![TilemapError::LayerEntryMissing(entries.last().entity)]
        })
    }
}

/// Splits a drained batch into its spawn points, its flattened modified
/// layer-entries, and its flattened despawned entities.
#[verifier::loop_isolation(false)]
pub fn split_events(batch: &Vec<TilemapChunkEvent>) -> (r: (
    Vec<Point2>,
    Vec<ModifiedEntry>,
    Vec<Entity>,
))
    ensures
        r.0@ == spawn_points(models(batch@)),
        r.1@ == modified_entries(models(batch@)),
        r.2@ == despawned_entities(models(batch@)),
{
    let mut pts: Vec<Point2> = Vec::new();
    let mut mods: Vec<ModifiedEntry> = Vec::new();
    let mut ents: Vec<Entity> = Vec::new();
    let mut i: usize = 0;
    while i < batch.len()
        invariant
            i <= batch@.len(),
            pts@ == spawn_points(models(batch@).take(i as int)),
            mods@ == modified_entries(models(batch@).take(i as int)),
            ents@ == despawned_entities(models(batch@).take(i as int)),
        decreases batch@.len() - i,
    {
        let ghost prefix = models(batch@).take(i as int);
        proof {
            assert(models(batch@).take(i + 1 as int).drop_last() =~= prefix);
            assert(models(batch@).take(i + 1 as int).last() == batch@[i as int]@);
        }
        match &batch[i] {
            TilemapChunkEvent::Spawned { point } => {
                pts.push(*point);
                proof {
                    assert(pts@ =~= spawn_points(prefix) + seq![batch@[i as int]@->Spawned_point]);
                    assert(mods@ =~= modified_entries(prefix) + Seq::<ModifiedEntry>::empty());
                    assert(ents@ =~= despawned_entities(prefix) + Seq::<Entity>::empty());
                }
            },
            TilemapChunkEvent::Modified { layers } => {
                let mut j: usize = 0;
                while j < layers.len()
                    invariant
                        j <= layers@.len(),
                        mods@ == modified_entries(prefix) + layers@.take(j as int),
                    decreases layers@.len() - j,
                {
                    mods.push(layers[j]);
                    proof {
                        assert(modified_entries(prefix) + layers@.take(j + 1 as int)
                            =~= (modified_entries(prefix) + layers@.take(j as int)).push(
                            layers@[j as int],
                        ));
                    }
                    j = j + 1;
                }
                proof {
                    assert(layers@.take(layers@.len() as int) =~= layers@);
                    assert(pts@ =~= spawn_points(prefix) + Seq::<Point2>::empty());
                    assert(ents@ =~= despawned_entities(prefix) + Seq::<Entity>::empty());
                }
            },
            TilemapChunkEvent::Despawned { entities, point } => {
                let mut j: usize = 0;
                while j < entities.len()
                    invariant
                        j <= entities@.len(),
                        ents@ == despawned_entities(prefix) + entities@.take(j as int),
                    decreases entities@.len() - j,
                {
                    ents.push(entities[j]);
                    proof {
                        assert(despawned_entities(prefix) + entities@.take(j + 1 as int)
                            =~= (despawned_entities(prefix) + entities@.take(j as int)).push(
                            entities@[j as int],
                        ));
                    }
                    j = j + 1;
                }
                proof {
                    assert(entities@.take(entities@.len() as int) =~= entities@);
                    assert(pts@ =~= spawn_points(prefix) + Seq::<Point2>::empty());
                    assert(mods@ =~= modified_entries(prefix) + Seq::<ModifiedEntry>::empty());
                }
            },
        }
        i = i + 1;
    }
    proof {
        assert(models(batch@).take(models(batch@).len() as int) =~= models(batch@));
    }
    (pts, mods, ents)
}

/// Rotates the tilemap's event queue at a tick boundary.
pub fn tilemap_update_events(tilemap: &mut Tilemap)
    requires
        old(tilemap).wf(),
    ensures
        final(tilemap).wf(),
        *final(tilemap) == (Tilemap {
            events: final(tilemap).events,
            ..*old(tilemap)
        }),
        final(tilemap).events.chunk_events.base() == old(tilemap).events.chunk_events.base() + old(
            tilemap,
        ).events.chunk_events.prev_len(),
        final(tilemap).events.chunk_events.log() == old(tilemap).events.chunk_events.log().skip(
            old(tilemap).events.chunk_events.prev_len() as int,
        ),
        final(tilemap).events.chunk_events.total() == old(tilemap).events.chunk_events.total(),
        final(tilemap).events.chunk_events.prev_len() == old(
            tilemap,
        ).events.chunk_events.log().len() - old(tilemap).events.chunk_events.prev_len(),
    {
        tilemap.events.update_events();
        proof {
            old(tilemap).lemma_wf_same_maps(*tilemap);
        }
    }

/// Writes one layer slot of one chunk, leaving everything else in place.
fn set_layer(
    chunks: &mut Vec<(Point2, crate::tilemap::Chunk)>,
    i: usize,
    z: usize,
    v: Option<LayerEntry>,
)
    requires
        i < old(chunks)@.len(),
        z < old(chunks)@[i as int].1.layers@.len(),
    ensures
        final(chunks)@.len() == old(chunks)@.len(),
        forall|k: int|
            0 <= k < old(chunks)@.len() && k != i ==> final(chunks)@[k] == old(chunks)@[k],
        final(chunks)@[i as int].0 == old(chunks)@[i as int].0,
        final(chunks)@[i as int].1.point == old(chunks)@[i as int].1.point,
        final(chunks)@[i as int].1.tiles_present == old(chunks)@[i as int].1.tiles_present,
        final(chunks)@[i as int].1.layers@ == old(chunks)@[i as int].1.layers@.update(z as int, v),
{
    let slot = &mut chunks[i];
    let cell = &mut slot.1.layers[z];
    *cell = v;
}

/// How many of the touches in `mods` name entity `e`.
#[verifier::loop_isolation(false)]
fn count_entity(mods: &Vec<ModifiedEntry>, e: Entity) -> (c: usize)
    ensures
        c == touch_count(mods@, e),
        c <= mods@.len(),
{
    let mut c: usize = 0;
    let mut i: usize = 0;
    while i < mods.len()
        invariant
            i <= mods@.len(),
            c <= i,
            c == touch_count(mods@.take(i as int), e),
        decreases mods@.len() - i,
    {
        proof {
            assert(mods@.take(i + 1 as int).drop_last() =~= mods@.take(i as int));
            assert(mods@.take(i + 1 as int).last() == mods@[i as int]);
        }
        if mods[i].entity == e {
            c = c + 1;
        }
        i = i + 1;
    }
    proof {
        assert(mods@.take(mods@.len() as int) =~= mods@);
    }
    c
}

/// Whether any spawned layer-entry of any chunk carries entity `e`.
#[verifier::loop_isolation(false)]
fn entity_exists(chunks: &Vec<(Point2, crate::tilemap::Chunk)>, e: Entity) -> (r: bool)
    ensures
        r == any_entry_has(chunks@, e),
{
    let mut i: usize = 0;
    while i < chunks.len()
        invariant
            i <= chunks@.len(),
            forall|a: int, z: int|
                0 <= a < i && 0 <= z < (#[trigger] chunks@[a]).1.layers@.len() ==> !((
                #[trigger] chunks@[a].1.layers@[z]) matches Some(entry) && entry.entity == e),
        decreases chunks@.len() - i,
    {
        let mut z: usize = 0;
        let n = chunks[i].1.layers.len();
        while z < n
            invariant
                z <= n,
                n == chunks@[i as int].1.layers@.len(),
                i < chunks@.len(),
                forall|w: int|
                    0 <= w < z ==> !((#[trigger] chunks@[i as int].1.layers@[w]) matches Some(
                        entry,
                    ) && entry.entity == e),
            decreases n - z,
        {
            match &chunks[i].1.layers[z] {
                Some(entry) => {
                    if entry.entity.id == e.id {
                        assert(any_entry_has(chunks@, e));
                        return true;
                    }
                },
                None => {},
            }
            z = z + 1;
        }
        i = i + 1;
    }
    false
}

/// Applies a batch of modification touches: every spawned layer-entry named
/// by a touch advances its `LayerVersion` once per touch; touches that match
/// no spawned layer-entry are reported as `LayerEntryMissing` and skipped.
#[verifier::loop_isolation(false)]
pub fn process_modified(tilemap: &mut Tilemap, mods: &Vec<ModifiedEntry>) -> (errs: Vec<
    TilemapError,
>)
    requires
        old(tilemap).wf(),
        forall|i: int, z: int|
            0 <= i < old(tilemap).chunks@.len() && 0 <= z < (
            #[trigger] old(tilemap).chunks@[i]).1.layers@.len() && (
            #[trigger] old(tilemap).chunks@[i].1.layers@[z]) is Some ==> old(
                tilemap,
            ).chunks@[i].1.layers@[z]->Some_0.version + mods@.len() <= u64::MAX,
    ensures
        final(tilemap).wf(),
        *final(tilemap) == (Tilemap { chunks: final(tilemap).chunks, ..*old(tilemap) }),
        final(tilemap).chunks@.len() == old(tilemap).chunks@.len(),
        forall|k: int|
            0 <= k < old(tilemap).chunks@.len() ==> (#[trigger] final(tilemap).chunks@[k]).0
                == old(tilemap).chunks@[k].0 && final(tilemap).chunks@[k].1.point == old(
                tilemap,
            ).chunks@[k].1.point && final(tilemap).chunks@[k].1.tiles_present == old(
                tilemap,
            ).chunks@[k].1.tiles_present && final(tilemap).chunks@[k].1.layers@.len() == old(
                tilemap,
            ).chunks@[k].1.layers@.len(),
        forall|k: int, z: int|
            0 <= k < old(tilemap).chunks@.len() && 0 <= z < old(
                tilemap,
            ).chunks@[k].1.layers@.len() ==> (#[trigger] final(tilemap).chunks@[k].1.layers@[z])
                == (match old(tilemap).chunks@[k].1.layers@[z] {
                Some(e) => Some(
                    LayerEntry {
                        version: (e.version + touch_count(mods@, e.entity)) as u64,
                        ..e
                    },
                ),
                None => None,
            }),
        errs@ == missing_errors(mods@, old(tilemap).chunks@),
{
    let mut errs: Vec<TilemapError> = Vec::new();
    let mut m: usize = 0;
    while m < mods.len()
        invariant
            m <= mods@.len(),
            *tilemap == *old(tilemap),
            errs@ == missing_errors(mods@.take(m as int), old(tilemap).chunks@),
        decreases mods@.len() - m,
    {
        proof {
            assert(mods@.take(m + 1 as int).drop_last() =~= mods@.take(m as int));
            assert(mods@.take(m + 1 as int).last() == mods@[m as int]);
        }
        if !entity_exists(&tilemap.chunks, mods[m].entity) {
            errs.push(TilemapError::LayerEntryMissing(mods[m].entity));
            proof {
                assert(errs@ =~= missing_errors(mods@.take(m as int), old(tilemap).chunks@)
                    + seq![TilemapError::LayerEntryMissing(mods@[m as int].entity)]);
            }
        } else {
            proof {
                assert(errs@ =~= missing_errors(mods@.take(m as int), old(tilemap).chunks@)
                    + Seq::<TilemapError>::empty());
            }
        }
        m = m + 1;
    }
    proof {
        assert(mods@.take(mods@.len() as int) =~= mods@);
    }
    let mut i: usize = 0;
    while i < tilemap.chunks.len()
        invariant
            i <= tilemap.chunks@.len(),
            *tilemap == (Tilemap { chunks: tilemap.chunks, ..*old(tilemap) }),
            tilemap.chunks@.len() == old(tilemap).chunks@.len(),
            forall|k: int|
                i <= k < old(tilemap).chunks@.len() ==> (#[trigger] tilemap.chunks@[k]) == old(
                    tilemap,
                ).chunks@[k],
            forall|k: int|
                0 <= k < i ==> (#[trigger] tilemap.chunks@[k]).0 == old(tilemap).chunks@[k].0
                    && tilemap.chunks@[k].1.point == old(tilemap).chunks@[k].1.point
                    && tilemap.chunks@[k].1.tiles_present == old(
                    tilemap,
                ).chunks@[k].1.tiles_present && tilemap.chunks@[k].1.layers@.len() == old(
                    tilemap,
                ).chunks@[k].1.layers@.len(),
            forall|k: int, z: int|
                0 <= k < i && 0 <= z < old(tilemap).chunks@[k].1.layers@.len() ==> (
                #[trigger] tilemap.chunks@[k].1.layers@[z]) == (match old(
                    tilemap,
                ).chunks@[k].1.layers@[z] {
                    Some(e) => Some(
                        LayerEntry {
                            version: (e.version + touch_count(mods@, e.entity)) as u64,
                            ..e
                        },
                    ),
                    None => None,
                }),
        decreases tilemap.chunks@.len() - i,
    {
        let n = tilemap.chunks[i].1.layers.len();
        let mut z: usize = 0;
        while z < n
            invariant
                z <= n,
                i < tilemap.chunks@.len(),
                n == old(tilemap).chunks@[i as int].1.layers@.len(),
                tilemap.chunks@.len() == old(tilemap).chunks@.len(),
                *tilemap == (Tilemap { chunks: tilemap.chunks, ..*old(tilemap) }),
                forall|k: int|
                    i < k < old(tilemap).chunks@.len() ==> (#[trigger] tilemap.chunks@[k]) == old(
                        tilemap,
                    ).chunks@[k],
                forall|k: int|
                    0 <= k < i ==> (#[trigger] tilemap.chunks@[k]).0 == old(tilemap).chunks@[k].0
                        && tilemap.chunks@[k].1.point == old(tilemap).chunks@[k].1.point
                        && tilemap.chunks@[k].1.tiles_present == old(
                        tilemap,
                    ).chunks@[k].1.tiles_present && tilemap.chunks@[k].1.layers@.len() == old(
                        tilemap,
                    ).chunks@[k].1.layers@.len(),
                forall|k: int, w: int|
                    0 <= k < i && 0 <= w < old(tilemap).chunks@[k].1.layers@.len() ==> (
                    #[trigger] tilemap.chunks@[k].1.layers@[w]) == (match old(
                        tilemap,
                    ).chunks@[k].1.layers@[w] {
                        Some(e) => Some(
                            LayerEntry {
                                version: (e.version + touch_count(mods@, e.entity)) as u64,
                                ..e
                            },
                        ),
                        None => None,
                    }),
                (#[trigger] tilemap.chunks@[i as int]).0 == old(tilemap).chunks@[i as int].0,
                tilemap.chunks@[i as int].1.point == old(tilemap).chunks@[i as int].1.point,
                tilemap.chunks@[i as int].1.tiles_present == old(
                    tilemap,
                ).chunks@[i as int].1.tiles_present,
                tilemap.chunks@[i as int].1.layers@.len() == n,
                forall|w: int|
                    z <= w < n ==> (#[trigger] tilemap.chunks@[i as int].1.layers@[w]) == old(
                        tilemap,
                    ).chunks@[i as int].1.layers@[w],
                forall|w: int|
                    0 <= w < z ==> (#[trigger] tilemap.chunks@[i as int].1.layers@[w]) == (
                    match old(tilemap).chunks@[i as int].1.layers@[w] {
                        Some(e) => Some(
                            LayerEntry {
                                version: (e.version + touch_count(mods@, e.entity)) as u64,
                                ..e
                            },
                        ),
                        None => None,
                    }),
            decreases n - z,
        {
            let cur: Option<LayerEntry> = tilemap.chunks[i].1.layers[z];
            match cur {
                Some(e) => {
                    let cnt = count_entity(mods, e.entity);
                    let bumped = LayerEntry { version: e.version + cnt as u64, ..e };
                    set_layer(&mut tilemap.chunks, i, z, Some(bumped));
                },
                None => {},
            }
            z = z + 1;
        }
        i = i + 1;
    }
    proof {
        old(tilemap).lemma_wf_same_shape(*tilemap);
    }
    errs
}

/// Drains this consumer's unseen events and applies every `Modified` touch:
/// each named layer-entry advances its `LayerVersion` once per touch; touches
/// naming no spawned layer-entry are reported and skipped. Events of other
/// kinds are left for other consumers.
pub fn tilemap_chunk_modified(tilemap: &mut Tilemap, reader: &mut EventReader) -> (errs: Vec<
    TilemapError,
>)
    requires
        old(tilemap).wf(),
        forall|i: int, z: int|
            0 <= i < old(tilemap).chunks@.len() && 0 <= z < (
            #[trigger] old(tilemap).chunks@[i]).1.layers@.len() && (
            #[trigger] old(tilemap).chunks@[i].1.layers@[z]) is Some ==> old(
                tilemap,
            ).chunks@[i].1.layers@[z]->Some_0.version + modified_entries(
                old(tilemap).events.chunk_events.drained(old(reader).last_count as nat),
            ).len() <= u64::MAX,
    ensures
        final(tilemap).wf(),
        *final(tilemap) == (Tilemap { chunks: final(tilemap).chunks, ..*old(tilemap) }),
        final(reader).last_count == old(tilemap).events.chunk_events.total(),
        final(tilemap).chunks@.len() == old(tilemap).chunks@.len(),
        forall|k: int|
            0 <= k < old(tilemap).chunks@.len() ==> (#[trigger] final(tilemap).chunks@[k]).0
                == old(tilemap).chunks@[k].0 && final(tilemap).chunks@[k].1.point == old(
                tilemap,
            ).chunks@[k].1.point && final(tilemap).chunks@[k].1.tiles_present == old(
                tilemap,
            ).chunks@[k].1.tiles_present && final(tilemap).chunks@[k].1.layers@.len() == old(
                tilemap,
            ).chunks@[k].1.layers@.len(),
        forall|k: int, z: int|
            0 <= k < old(tilemap).chunks@.len() && 0 <= z < old(
                tilemap,
            ).chunks@[k].1.layers@.len() ==> (#[trigger] final(tilemap).chunks@[k].1.layers@[z])
                == (match old(tilemap).chunks@[k].1.layers@[z] {
                Some(e) => Some(
                    LayerEntry {
                        version: (e.version + touch_count(
                            modified_entries(
                                old(tilemap).events.chunk_events.drained(
                                    old(reader).last_count as nat,
                                ),
                            ),
                            e.entity,
                        )) as u64,
                        ..e
                    },
                ),
                None => None,
            }),
        errs@ == missing_errors(
            modified_entries(
                old(tilemap).events.chunk_events.drained(old(reader).last_count as nat),
            ),
            old(tilemap).chunks@,
        ),
{
    let batch = reader.drain(&tilemap.events.chunk_events);
    let (_pts, mods, _ents) = split_events(&batch);
    process_modified(tilemap, &mods)
}

/// A request to the host: rebuild the two renderer-facing attribute arrays
/// of this chunk layer and republish them into the named mesh buffer.
#[derive(Clone, Copy, PartialEq, Eq, Structural, Debug)]
pub struct MeshRebuild {
    pub point: Point2,
    pub z_order: usize,
    pub mesh: MeshHandle,
}

/// A layer-entry needs a rebuild when its version moved past `synced`.
pub open spec fn entry_dirty(e: LayerEntry) -> bool {
    e.version != e.synced
}

/// The rebuild requests of the first `z` layers of one chunk, in z order.
pub open spec fn chunk_rebuilds(c: crate::tilemap::Chunk, z: nat) -> Seq<MeshRebuild>
    decreases z,
{
    if z == 0 {
        Seq::empty()
    } else {
        chunk_rebuilds(c, (z - 1) as nat) + (match c.layers@[z - 1] {
            Some(e) => if entry_dirty(e) && c.tiles_present@[z - 1] {
                seq![MeshRebuild { point: c.point, z_order: (z - 1) as usize, mesh: e.mesh }]
            } else {
                Seq::empty()
            },
            None => Seq::empty(),
        })
    }
}

/// The `TileDataUnavailable` reports of the first `z` layers of one chunk.
pub open spec fn chunk_unavailable(c: crate::tilemap::Chunk, z: nat) -> Seq<TilemapError>
    decreases z,
{
    if z == 0 {
        Seq::empty()
    } else {
        chunk_unavailable(c, (z - 1) as nat) + (match c.layers@[z - 1] {
            Some(e) => if entry_dirty(e) && !c.tiles_present@[z - 1] {
                seq![TilemapError::TileDataUnavailable { point: c.point, z_order: (z - 1) as usize }]
            } else {
                Seq::empty()
            },
            None => Seq::empty(),
        })
    }
}

/// The rebuild requests of the first `i` chunks, in chunk-map order.
pub open spec fn rebuild_list(chunks: Seq<(Point2, crate::tilemap::Chunk)>, i: nat) -> Seq<
    MeshRebuild,
>
    decreases i,
{
    if i == 0 {
        Seq::empty()
    } else {
        rebuild_list(chunks, (i - 1) as nat) + chunk_rebuilds(
            chunks[i - 1].1,
            chunks[i - 1].1.layers@.len(),
        )
    }
}

/// The `TileDataUnavailable` reports of the first `i` chunks.
pub open spec fn unavailable_list(chunks: Seq<(Point2, crate::tilemap::Chunk)>, i: nat) -> Seq<
    TilemapError,
>
    decreases i,
{
    if i == 0 {
        Seq::empty()
    } else {
        unavailable_list(chunks, (i - 1) as nat) + chunk_unavailable(
            chunks[i - 1].1,
            chunks[i - 1].1.layers@.len(),
        )
    }
}

/// The dirty-tracking mesh synchronizer. Walks every spawned layer-entry;
/// entries whose version is unchanged since the last rebuild are skipped.
/// A dirty entry whose tile data is available yields one rebuild request and
/// is marked clean; one whose tile data is gone is reported and left dirty,
/// to be retried next tick.
#[verifier::loop_isolation(false)]
pub fn tilemap_chunk_update(tilemap: &mut Tilemap) -> (out: (Vec<MeshRebuild>, Vec<TilemapError>))
    requires
        old(tilemap).wf(),
    ensures
        final(tilemap).wf(),
        *final(tilemap) == (Tilemap { chunks: final(tilemap).chunks, ..*old(tilemap) }),
        final(tilemap).chunks@.len() == old(tilemap).chunks@.len(),
        forall|k: int|
            0 <= k < old(tilemap).chunks@.len() ==> (#[trigger] final(tilemap).chunks@[k]).0
                == old(tilemap).chunks@[k].0 && final(tilemap).chunks@[k].1.point == old(
                tilemap,
            ).chunks@[k].1.point && final(tilemap).chunks@[k].1.tiles_present == old(
                tilemap,
            ).chunks@[k].1.tiles_present && final(tilemap).chunks@[k].1.layers@.len() == old(
                tilemap,
            ).chunks@[k].1.layers@.len(),
        forall|k: int, z: int|
            0 <= k < old(tilemap).chunks@.len() && 0 <= z < old(
                tilemap,
            ).chunks@[k].1.layers@.len() ==> (#[trigger] final(tilemap).chunks@[k].1.layers@[z])
                == (match old(tilemap).chunks@[k].1.layers@[z] {
                Some(e) => Some(
                    LayerEntry {
                        synced: if entry_dirty(e) && old(
                            tilemap,
                        ).chunks@[k].1.tiles_present@[z] {
                            e.version
                        } else {
                            e.synced
                        },
                        ..e
                    },
                ),
                None => None,
            }),
        out.0@ == rebuild_list(old(tilemap).chunks@, old(tilemap).chunks@.len()),
        out.1@ == unavailable_list(old(tilemap).chunks@, old(tilemap).chunks@.len()),
{
    let mut rebuilds: Vec<MeshRebuild> = Vec::new();
    let mut errs: Vec<TilemapError> = Vec::new();
    let mut i: usize = 0;
    while i < tilemap.chunks.len()
        invariant
            i <= tilemap.chunks@.len(),
            *tilemap == (Tilemap { chunks: tilemap.chunks, ..*old(tilemap) }),
            tilemap.chunks@.len() == old(tilemap).chunks@.len(),
            forall|k: int|
                i <= k < old(tilemap).chunks@.len() ==> (#[trigger] tilemap.chunks@[k]) == old(
                    tilemap,
                ).chunks@[k],
            forall|k: int|
                0 <= k < i ==> (#[trigger] tilemap.chunks@[k]).0 == old(tilemap).chunks@[k].0
                    && tilemap.chunks@[k].1.point == old(tilemap).chunks@[k].1.point
                    && tilemap.chunks@[k].1.tiles_present == old(
                    tilemap,
                ).chunks@[k].1.tiles_present && tilemap.chunks@[k].1.layers@.len() == old(
                    tilemap,
                ).chunks@[k].1.layers@.len(),
            forall|k: int, z: int|
                0 <= k < i && 0 <= z < old(tilemap).chunks@[k].1.layers@.len() ==> (
                #[trigger] tilemap.chunks@[k].1.layers@[z]) == (match old(
                    tilemap,
                ).chunks@[k].1.layers@[z] {
                    Some(e) => Some(
                        LayerEntry {
                            synced: if entry_dirty(e) && old(
                                tilemap,
                            ).chunks@[k].1.tiles_present@[z] {
                                e.version
                            } else {
                                e.synced
                            },
                            ..e
                        },
                    ),
                    None => None,
                }),
            rebuilds@ == rebuild_list(old(tilemap).chunks@, i as nat),
            errs@ == unavailable_list(old(tilemap).chunks@, i as nat),
        decreases tilemap.chunks@.len() - i,
    {
        let ghost c0 = old(tilemap).chunks@[i as int].1;
        let n = tilemap.chunks[i].1.layers.len();
        proof {
            assert(n == c0.layers@.len());
            assert(c0.tiles_present@.len() == c0.layers@.len());
        }
        let mut z: usize = 0;
        while z < n
            invariant
                z <= n,
                i < tilemap.chunks@.len(),
                n == c0.layers@.len(),
                c0.tiles_present@.len() == c0.layers@.len(),
                c0 == old(tilemap).chunks@[i as int].1,
                tilemap.chunks@.len() == old(tilemap).chunks@.len(),
                *tilemap == (Tilemap { chunks: tilemap.chunks, ..*old(tilemap) }),
                forall|k: int|
                    0 <= k < old(tilemap).chunks@.len() && k != i ==> (
                    #[trigger] tilemap.chunks@[k]) == (if k < i {
                        tilemap.chunks@[k]
                    } else {
                        old(tilemap).chunks@[k]
                    }),
                forall|k: int|
                    i < k < old(tilemap).chunks@.len() ==> (#[trigger] tilemap.chunks@[k]) == old(
                        tilemap,
                    ).chunks@[k],
                forall|k: int|
                    0 <= k < i ==> (#[trigger] tilemap.chunks@[k]).0 == old(tilemap).chunks@[k].0
                        && tilemap.chunks@[k].1.point == old(tilemap).chunks@[k].1.point
                        && tilemap.chunks@[k].1.tiles_present == old(
                        tilemap,
                    ).chunks@[k].1.tiles_present && tilemap.chunks@[k].1.layers@.len() == old(
                        tilemap,
                    ).chunks@[k].1.layers@.len(),
                forall|k: int, w: int|
                    0 <= k < i && 0 <= w < old(tilemap).chunks@[k].1.layers@.len() ==> (
                    #[trigger] tilemap.chunks@[k].1.layers@[w]) == (match old(
                        tilemap,
                    ).chunks@[k].1.layers@[w] {
                        Some(e) => Some(
                            LayerEntry {
                                synced: if entry_dirty(e) && old(
                                    tilemap,
                                ).chunks@[k].1.tiles_present@[w] {
                                    e.version
                                } else {
                                    e.synced
                                },
                                ..e
                            },
                        ),
                        None => None,
                    }),
                (#[trigger] tilemap.chunks@[i as int]).0 == old(tilemap).chunks@[i as int].0,
                tilemap.chunks@[i as int].1.point == c0.point,
                tilemap.chunks@[i as int].1.tiles_present == c0.tiles_present,
                tilemap.chunks@[i as int].1.layers@.len() == n,
                forall|w: int|
                    z <= w < n ==> (#[trigger] tilemap.chunks@[i as int].1.layers@[w])
                        == c0.layers@[w],
                forall|w: int|
                    0 <= w < z ==> (#[trigger] tilemap.chunks@[i as int].1.layers@[w]) == (
                    match c0.layers@[w] {
                        Some(e) => Some(
                            LayerEntry {
                                synced: if entry_dirty(e) && c0.tiles_present@[w] {
                                    e.version
                                } else {
                                    e.synced
                                },
                                ..e
                            },
                        ),
                        None => None,
                    }),
                rebuilds@ == rebuild_list(old(tilemap).chunks@, i as nat) + chunk_rebuilds(
                    c0,
                    z as nat,
                ),
                errs@ == unavailable_list(old(tilemap).chunks@, i as nat) + chunk_unavailable(
                    c0,
                    z as nat,
                ),
            decreases n - z,
        {
            let cur: Option<LayerEntry> = tilemap.chunks[i].1.layers[z];
            let ghost old_rebuilds = rebuilds@;
            let ghost old_errs = errs@;
            match cur {
                Some(e) => {
                    if e.version != e.synced {
                        if tilemap.chunks[i].1.tiles_present[z] {
                            rebuilds.push(
                                MeshRebuild {
                                    point: tilemap.chunks[i].0,
                                    z_order: z,
                                    mesh: e.mesh,
                                },
                            );
                            let clean = LayerEntry { synced: e.version, ..e };
                            set_layer(&mut tilemap.chunks, i, z, Some(clean));
                        } else {
                            errs.push(
                                TilemapError::TileDataUnavailable {
                                    point: tilemap.chunks[i].0,
                                    z_order: z,
                                },
                            );
                        }
                    }
                },
                None => {},
            }
            proof {
                assert(chunk_rebuilds(c0, (z + 1) as nat) =~= chunk_rebuilds(c0, z as nat)
                    + (match c0.layers@[z as int] {
                    Some(e) => if entry_dirty(e) && c0.tiles_present@[z as int] {
                        seq![MeshRebuild { point: c0.point, z_order: z, mesh: e.mesh }]
                    } else {
                        Seq::empty()
                    },
                    None => Seq::empty(),
                }));
                assert(chunk_unavailable(c0, (z + 1) as nat) =~= chunk_unavailable(c0, z as nat)
                    + (match c0.layers@[z as int] {
                    Some(e) => if entry_dirty(e) && !c0.tiles_present@[z as int] {
                        seq![
                            TilemapError::TileDataUnavailable { point: c0.point, z_order: z },
                        ]
                    } else {
                        Seq::empty()
                    },
                    None => Seq::empty(),
                }));
                assert(rebuilds@ =~= rebuild_list(old(tilemap).chunks@, i as nat)
                    + chunk_rebuilds(c0, (z + 1) as nat));
                assert(errs@ =~= unavailable_list(old(tilemap).chunks@, i as nat)
                    + chunk_unavailable(c0, (z + 1) as nat));
            }
            z = z + 1;
        }
        proof {
            assert(rebuild_list(old(tilemap).chunks@, (i + 1) as nat) =~= rebuild_list(
                old(tilemap).chunks@,
                i as nat,
            ) + chunk_rebuilds(c0, c0.layers@.len()));
            assert(unavailable_list(old(tilemap).chunks@, (i + 1) as nat) =~= unavailable_list(
                old(tilemap).chunks@,
                i as nat,
            ) + chunk_unavailable(c0, c0.layers@.len()));
        }
        i = i + 1;
    }
    proof {
        old(tilemap).lemma_wf_same_shape(*tilemap);
    }
    (rebuilds, errs)
}

/// Whether the chunk at `p` has at least one layer that can be meshed: a
/// configured layer whose tile data is available.
pub open spec fn renderable(t: Tilemap, p: Point2) -> bool {
    exists|z: int|
        0 <= z < t.layers@.len() && (#[trigger] t.layers@[z]) is Some
            && t.chunk_at(p).tiles_present@[z]
}

/// Whether processing the spawn points `pts` on state `t` materializes `p`:
/// it was requested, its chunk entry exists, it is not already resident, and
/// at least one of its layers can be meshed.
pub open spec fn newly_resident(t: Tilemap, pts: Seq<Point2>, p: Point2) -> bool {
    &&& pts.contains(p)
    &&& t.has_chunk(p)
    &&& !t.spawned_chunks@.contains(p)
    &&& renderable(t, p)
}

/// A freshly materialized layer-entry: counters at zero, translation given by
/// the placement geometry, identities minted from the tilemap's counters.
pub open spec fn fresh_entry(t0: Tilemap, t1: Tilemap, p: Point2, e: LayerEntry) -> bool {
    &&& e.version == 0
    &&& e.synced == 0
    &&& e.half_x == crate::geometry::place_half_x(
        t0.topology,
        p,
        t0.tile_dimensions,
        t0.chunk_dimensions,
    )
    &&& e.half_y == crate::geometry::place_half_y(
        t0.topology,
        p,
        t0.tile_dimensions,
        t0.chunk_dimensions,
    )
    &&& t0.next_entity <= e.entity.id < t1.next_entity
    &&& t0.next_mesh <= e.mesh.id < t1.next_mesh
}

/// The layer entries of a chunk materialized from state `t0`: one fresh entry
/// per meshable layer, `None` elsewhere.
pub open spec fn spawned_chunk_layers(t0: Tilemap, t1: Tilemap, p: Point2) -> bool {
    &&& t1.chunk_at(p).point == t0.chunk_at(p).point
    &&& t1.chunk_at(p).tiles_present == t0.chunk_at(p).tiles_present
    &&& t1.chunk_at(p).layers@.len() == t0.layer_count()
    &&& forall|z: int|
        0 <= z < t0.layer_count() ==> (if t0.layers@[z] is Some
            && t0.chunk_at(p).tiles_present@[z] {
            &&& (#[trigger] t1.chunk_at(p).layers@[z]) is Some
            &&& fresh_entry(t0, t1, p, t1.chunk_at(p).layers@[z]->Some_0)
        } else {
            (#[trigger] t1.chunk_at(p).layers@[z]) is None
        })
}

/// The `ChunkLookupFailed` reports of a spawn batch: one per requested point
/// whose chunk entry is missing, in batch order.
pub open spec fn lookup_errors(t: Tilemap, pts: Seq<Point2>) -> Seq<TilemapError>
    decreases pts.len(),
{
    if pts.len() == 0 {
        Seq::empty()
    } else {
        lookup_errors(t, pts.drop_last()) + (if t.has_chunk(pts.last()) {
            Seq::empty()
        } else {
            seq![TilemapError::ChunkLookupFailed(pts.last())]
        })
    }
}

/// Consumes a batch of spawn requests, in order. A coordinate already
/// resident is skipped (spawning is idempotent); one without a chunk entry is
/// reported and skipped; otherwise every meshable layer gets a fresh render
/// entity, a fresh mesh and its placement translation, and the coordinate
/// becomes resident — provided at least one layer could be meshed.
#[verifier::loop_isolation(false)]
pub fn process_spawned_points(tilemap: &mut Tilemap, pts: &Vec<Point2>) -> (errs: Vec<
    TilemapError,
>)
    requires
        old(tilemap).wf(),
        old(tilemap).next_entity + pts@.len() * old(tilemap).layer_count() <= u64::MAX,
        old(tilemap).next_mesh + pts@.len() * old(tilemap).layer_count() <= u64::MAX,
    ensures
        final(tilemap).wf(),
        *final(tilemap) == (Tilemap {
            chunks: final(tilemap).chunks,
            spawned_chunks: final(tilemap).spawned_chunks,
            next_entity: final(tilemap).next_entity,
            next_mesh: final(tilemap).next_mesh,
            ..*old(tilemap)
        }),
        old(tilemap).next_entity <= final(tilemap).next_entity,
        old(tilemap).next_mesh <= final(tilemap).next_mesh,
        forall|q: Point2|
            #[trigger] final(tilemap).spawned_chunks@.contains(q) <==> old(
                tilemap,
            ).spawned_chunks@.contains(q) || newly_resident(*old(tilemap), pts@, q),
        forall|q: Point2|
            #[trigger] final(tilemap).has_chunk(q) <==> old(tilemap).has_chunk(q),
        forall|q: Point2|
            old(tilemap).has_chunk(q) && !newly_resident(*old(tilemap), pts@, q)
                ==> #[trigger] final(tilemap).chunk_at(q) == old(tilemap).chunk_at(q),
        forall|q: Point2|
            #[trigger] newly_resident(*old(tilemap), pts@, q) ==> spawned_chunk_layers(
                *old(tilemap),
                *final(tilemap),
                q,
            ),
        errs@ == lookup_errors(*old(tilemap), pts@),
{
    let ghost t0 = *old(tilemap);
    let mut errs: Vec<TilemapError> = Vec::new();
    let mut k: usize = 0;
    while k < pts.len()
        invariant
            k <= pts@.len(),
            tilemap.wf(),
            *tilemap == (Tilemap {
                chunks: tilemap.chunks,
                spawned_chunks: tilemap.spawned_chunks,
                next_entity: tilemap.next_entity,
                next_mesh: tilemap.next_mesh,
                ..t0
            }),
            t0.next_entity <= tilemap.next_entity,
            t0.next_mesh <= tilemap.next_mesh,
            tilemap.next_entity + (pts@.len() - k) * t0.layer_count() <= u64::MAX,
            tilemap.next_mesh + (pts@.len() - k) * t0.layer_count() <= u64::MAX,
            forall|q: Point2|
                #[trigger] tilemap.spawned_chunks@.contains(q) <==> t0.spawned_chunks@.contains(q)
                    || newly_resident(t0, pts@.take(k as int), q),
            forall|q: Point2| #[trigger] tilemap.has_chunk(q) <==> t0.has_chunk(q),
            forall|q: Point2|
                t0.has_chunk(q) && !newly_resident(t0, pts@.take(k as int), q)
                    ==> #[trigger] tilemap.chunk_at(q) == t0.chunk_at(q),
            forall|q: Point2|
                #[trigger] newly_resident(t0, pts@.take(k as int), q) ==> spawned_chunk_layers(
                    t0,
                    *tilemap,
                    q,
                ),
            errs@ == lookup_errors(t0, pts@.take(k as int)),
        decreases pts@.len() - k,
    {
        let p = pts[k];
        let ghost pre = *tilemap;
        proof {
            let tk = pts@.take(k as int);
            let tk1 = pts@.take(k + 1 as int);
            assert(tk1 =~= tk.push(p));
            assert forall|q: Point2| #[trigger] tk1.contains(q) implies (tk.contains(q) || q
                == p) by {
                let w = choose|w: int| 0 <= w < tk1.len() && tk1[w] == q;
                if w < k {
                    assert(tk[w] == q);
                }
            }
            assert forall|q: Point2| tk.contains(q) implies tk1.contains(q) by {
                let w = choose|w: int| 0 <= w < tk.len() && tk[w] == q;
                assert(tk1[w] == q);
            }
            assert(tk1.contains(p)) by {
                assert(tk1[k as int] == p);
            }
            assert(tk1.drop_last() =~= tk);
            assert(lookup_errors(t0, tk1) =~= lookup_errors(t0, tk) + (if t0.has_chunk(p) {
                Seq::<TilemapError>::empty()
            } else {
                seq![TilemapError::ChunkLookupFailed(p)]
            }));
        }
        if point_list_contains(&tilemap.spawned_chunks, p) {
            proof {
                assert forall|q: Point2| #[trigger] newly_resident(t0, pts@.take(k + 1 as int), q)
                    implies newly_resident(t0, pts@.take(k as int), q) || q == p by {}
                if newly_resident(t0, pts@.take(k + 1 as int), p) {
                    assert(!t0.spawned_chunks@.contains(p));
                    assert(newly_resident(t0, pts@.take(k as int), p));
                }
                assert((pts@.len() - (k + 1)) * t0.layer_count() <= (pts@.len() - k)
                    * t0.layer_count()) by (nonlinear_arith)
                    requires
                        k < pts@.len(),
                        t0.layer_count() >= 0,
                ;
            }
            k = k + 1;
            continue ;
        }
        let found = tilemap.find_chunk_index(p);
        let ci = match found {
            Some(ci) => ci,
            None => {
                errs.push(TilemapError::ChunkLookupFailed(p));
                proof {
                    assert(!t0.has_chunk(p));
                    assert forall|q: Point2|
                        #[trigger] newly_resident(t0, pts@.take(k + 1 as int), q) implies
                        newly_resident(t0, pts@.take(k as int), q) || q == p by {}
                    assert(!newly_resident(t0, pts@.take(k + 1 as int), p));
                assert((pts@.len() - (k + 1)) * t0.layer_count() <= (pts@.len() - k)
                    * t0.layer_count()) by (nonlinear_arith)
                    requires
                        k < pts@.len(),
                        t0.layer_count() >= 0,
                ;
                }
                k = k + 1;
                continue ;
            },
        };
        proof {
            tilemap.lemma_chunk_index(p, ci as int);
            assert(!newly_resident(t0, pts@.take(k as int), p));
            assert(tilemap.chunk_at(p) == t0.chunk_at(p));
            assert(tilemap.chunks@[ci as int].1 == t0.chunk_at(p));
        }
        let n = tilemap.layers.len();
        let ghost ne0 = tilemap.next_entity;
        let ghost nm0 = tilemap.next_mesh;
        proof {
            assert((pts@.len() - k) * t0.layer_count() >= t0.layer_count()) by (nonlinear_arith)
                requires
                    k < pts@.len(),
                    t0.layer_count() >= 0,
            ;
        }
        let mut new_layers: Vec<Option<LayerEntry>> = Vec::new();
        let mut created: usize = 0;
        let mut z: usize = 0;
        while z < n
            invariant
                z <= n,
                ci < tilemap.chunks@.len(),
                tilemap.chunks@[ci as int].0 == p,
                n == t0.layer_count(),
                *tilemap == (Tilemap {
                    next_entity: tilemap.next_entity,
                    next_mesh: tilemap.next_mesh,
                    ..pre
                }),
                tilemap.chunks@[ci as int].1 == t0.chunk_at(p),
                t0.chunk_at(p).tiles_present@.len() == n,
                new_layers@.len() == z,
                created <= z,
                ne0 == pre.next_entity,
                nm0 == pre.next_mesh,
                tilemap.next_entity == ne0 + created,
                tilemap.next_mesh == nm0 + created,
                ne0 + n <= u64::MAX,
                nm0 + n <= u64::MAX,
                created > 0 <==> exists|w: int|
                    0 <= w < z && (#[trigger] t0.layers@[w]) is Some && t0.chunk_at(
                        p,
                    ).tiles_present@[w],
                forall|w: int|
                    0 <= w < z ==> (if t0.layers@[w] is Some && t0.chunk_at(p).tiles_present@[w] {
                        &&& (#[trigger] new_layers@[w]) is Some
                        &&& new_layers@[w]->Some_0.version == 0
                        &&& new_layers@[w]->Some_0.synced == 0
                        &&& new_layers@[w]->Some_0.half_x == crate::geometry::place_half_x(
                            t0.topology,
                            p,
                            t0.tile_dimensions,
                            t0.chunk_dimensions,
                        )
                        &&& new_layers@[w]->Some_0.half_y == crate::geometry::place_half_y(
                            t0.topology,
                            p,
                            t0.tile_dimensions,
                            t0.chunk_dimensions,
                        )
                        &&& ne0 <= new_layers@[w]->Some_0.entity.id < tilemap.next_entity
                        &&& nm0 <= new_layers@[w]->Some_0.mesh.id < tilemap.next_mesh
                    } else {
                        (#[trigger] new_layers@[w]) is None
                    }),
            decreases n - z,
        {
            let layer_present = tilemap.layers[z].is_some();
            let tiles_ok = tilemap.chunks[ci].1.tiles_present[z];
            if layer_present && tiles_ok {
                let eid = tilemap.next_entity;
                let mid = tilemap.next_mesh;
                tilemap.next_entity = eid + 1;
                tilemap.next_mesh = mid + 1;
                let place = crate::geometry::placement(
                    tilemap.topology,
                    p,
                    tilemap.tile_dimensions,
                    tilemap.chunk_dimensions,
                );
                new_layers.push(
                    Some(
                        LayerEntry {
                            entity: Entity { id: eid },
                            mesh: MeshHandle { id: mid },
                            half_x: place.half_x,
                            half_y: place.half_y,
                            version: 0,
                            synced: 0,
                        },
                    ),
                );
                created = created + 1;
            } else {
                new_layers.push(None);
            }
            z = z + 1;
        }
        if created > 0 {
            let slot = &mut tilemap.chunks[ci];
            slot.1.layers = new_layers;
            tilemap.spawned_chunks.push(p);
            proof {
                let t1 = *tilemap;
                assert(renderable(t0, p));
                assert(!t0.spawned_chunks@.contains(p));
                assert(newly_resident(t0, pts@.take(k + 1 as int), p));
                assert forall|q: Point2| #[trigger] t1.spawned_chunks@.contains(q) implies (
                pre.spawned_chunks@.contains(q) || q == p) by {
                    let w = choose|w: int|
                        0 <= w < t1.spawned_chunks@.len() && t1.spawned_chunks@[w] == q;
                    if w < pre.spawned_chunks@.len() {
                        assert(pre.spawned_chunks@[w] == q);
                    }
                }
                assert forall|q: Point2| pre.spawned_chunks@.contains(q) implies
                    t1.spawned_chunks@.contains(q) by {
                    let w = choose|w: int|
                        0 <= w < pre.spawned_chunks@.len() && pre.spawned_chunks@[w] == q;
                    assert(t1.spawned_chunks@[w] == q);
                }
                assert(t1.spawned_chunks@[pre.spawned_chunks@.len() as int] == p);
                assert(t1.spawned_chunks@.contains(p));
                // keys are untouched by replacing one chunk's layers
                assert forall|q: Point2| #[trigger] t1.has_chunk(q) implies t0.has_chunk(q) by {
                    let j = choose|j: int|
                        0 <= j < t1.chunks@.len() && (#[trigger] t1.chunks@[j]).0 == q;
                    if j == ci as int {
                        assert(pre.chunks@[j].0 == q);
                    } else {
                        assert(pre.chunks@[j].0 == q);
                    }
                    assert(pre.has_chunk(q));
                }
                assert forall|q: Point2| #[trigger] t0.has_chunk(q) implies t1.has_chunk(q) by {
                    assert(pre.has_chunk(q));
                    let j = choose|j: int|
                        0 <= j < pre.chunks@.len() && (#[trigger] pre.chunks@[j]).0 == q;
                    assert(t1.chunks@[j].0 == q);
                }
                // well-formedness of the updated state
                assert(t1.wf_chunks());
                assert(distinct_points(t1.spawned_chunks@)) by {
                    assert forall|a: int, b: int|
                        0 <= a < b < t1.spawned_chunks@.len() implies t1.spawned_chunks@[a]
                        != t1.spawned_chunks@[b] by {
                        if b == pre.spawned_chunks@.len() {
                            assert(pre.spawned_chunks@[a] == t1.spawned_chunks@[a]);
                            if t1.spawned_chunks@[a] == p {
                                assert(pre.spawned_chunks@.contains(p));
                            }
                        }
                    }
                }
                assert forall|w: int| 0 <= w < t1.spawned_chunks@.len() implies t1.has_chunk(
                    #[trigger] t1.spawned_chunks@[w],
                ) by {
                    assert(t1.spawned_chunks@.contains(t1.spawned_chunks@[w]));
                    if t1.spawned_chunks@[w] == p {
                    } else {
                        assert(pre.spawned_chunks@.contains(t1.spawned_chunks@[w]));
                        assert(t0.spawned_chunks@.contains(t1.spawned_chunks@[w])
                            || newly_resident(t0, pts@.take(k as int), t1.spawned_chunks@[w]));
                        assert(t0.has_chunk(t1.spawned_chunks@[w]));
                    }
                }
                let ghost wit = choose|w: int|
                    0 <= w < n && (#[trigger] t0.layers@[w]) is Some && t0.chunk_at(
                        p,
                    ).tiles_present@[w];
                assert(t1.chunks@[ci as int].1.layers@[wit] is Some);
                assert(t1.chunks@[ci as int].1.has_render_entities());
                assert forall|j: int| 0 <= j < t1.chunks@.len() implies ((
                #[trigger] t1.chunks@[j]).1.has_render_entities()
                    <==> t1.spawned_chunks@.contains(t1.chunks@[j].0)) by {
                    if j == ci as int {
                    } else {
                        assert(t1.chunks@[j] == pre.chunks@[j]);
                        assert(pre.chunks@[j].0 != p);
                        if t1.spawned_chunks@.contains(t1.chunks@[j].0) {
                            assert(pre.spawned_chunks@.contains(t1.chunks@[j].0));
                        }
                        if pre.spawned_chunks@.contains(t1.chunks@[j].0) {
                            assert(t1.spawned_chunks@.contains(t1.chunks@[j].0));
                        }
                    }
                }
                assert(t1.wf());
                // the materialized chunk matches the spawn description
                t1.lemma_chunk_index(p, ci as int);
                assert(spawned_chunk_layers(t0, t1, p));
                // chunks of other coordinates kept their value
                assert forall|q: Point2| q != p && t0.has_chunk(q) implies #[trigger] t1.chunk_at(
                    q,
                ) == pre.chunk_at(q) by {
                    assert(pre.has_chunk(q));
                    let j = choose|j: int|
                        0 <= j < pre.chunks@.len() && (#[trigger] pre.chunks@[j]).0 == q;
                    assert(j != ci as int);
                    pre.lemma_chunk_index(q, j);
                    t1.lemma_chunk_index(q, j);
                }
                assert forall|q: Point2| #[trigger] newly_resident(t0, pts@.take(k + 1 as int), q)
                    implies spawned_chunk_layers(t0, t1, q) by {
                    if q == p {
                    } else {
                        assert(newly_resident(t0, pts@.take(k as int), q));
                        assert(spawned_chunk_layers(t0, pre, q));
                        assert(t1.chunk_at(q) == pre.chunk_at(q));
                    }
                }
                assert forall|q: Point2| #[trigger] newly_resident(t0, pts@.take(k as int), q)
                    implies newly_resident(t0, pts@.take(k + 1 as int), q) by {}
                // counter headroom for the remaining points
                assert(tilemap.next_entity + (pts@.len() - (k + 1)) * t0.layer_count()
                    <= u64::MAX) by (nonlinear_arith)
                    requires
                        tilemap.next_entity == ne0 + created,
                        created <= t0.layer_count(),
                        ne0 + (pts@.len() - k) * t0.layer_count() <= u64::MAX,
                        k < pts@.len(),
                ;
                assert(tilemap.next_mesh + (pts@.len() - (k + 1)) * t0.layer_count()
                    <= u64::MAX) by (nonlinear_arith)
                    requires
                        tilemap.next_mesh == nm0 + created,
                        created <= t0.layer_count(),
                        nm0 + (pts@.len() - k) * t0.layer_count() <= u64::MAX,
                        k < pts@.len(),
                ;
            }
        } else {
            proof {
                assert(!renderable(t0, p));
                assert(!newly_resident(t0, pts@.take(k + 1 as int), p));
                assert forall|q: Point2| #[trigger] newly_resident(t0, pts@.take(k + 1 as int), q)
                    implies newly_resident(t0, pts@.take(k as int), q) by {}
                assert((pts@.len() - (k + 1)) * t0.layer_count() <= (pts@.len() - k)
                    * t0.layer_count()) by (nonlinear_arith)
                    requires
                        k < pts@.len(),
                        t0.layer_count() >= 0,
                ;
            }
        }
        k = k + 1;
    }
    proof {
        assert(pts@.take(pts@.len() as int) =~= pts@);
    }
    errs
}

/// Drains this consumer's unseen events and materializes every `Spawned`
/// coordinate as `process_spawned_points` describes; other event kinds are
/// left for other consumers.
pub fn tilemap_chunk_spawned(tilemap: &mut Tilemap, reader: &mut EventReader) -> (errs: Vec<
    TilemapError,
>)
    requires
        old(tilemap).wf(),
        old(tilemap).next_entity + spawn_points(
            old(tilemap).events.chunk_events.drained(old(reader).last_count as nat),
        ).len() * old(tilemap).layer_count() <= u64::MAX,
        old(tilemap).next_mesh + spawn_points(
            old(tilemap).events.chunk_events.drained(old(reader).last_count as nat),
        ).len() * old(tilemap).layer_count() <= u64::MAX,
    ensures
        final(tilemap).wf(),
        *final(tilemap) == (Tilemap {
            chunks: final(tilemap).chunks,
            spawned_chunks: final(tilemap).spawned_chunks,
            next_entity: final(tilemap).next_entity,
            next_mesh: final(tilemap).next_mesh,
            ..*old(tilemap)
        }),
        final(reader).last_count == old(tilemap).events.chunk_events.total(),
        forall|q: Point2|
            #[trigger] final(tilemap).spawned_chunks@.contains(q) <==> old(
                tilemap,
            ).spawned_chunks@.contains(q) || newly_resident(
                *old(tilemap),
                spawn_points(
                    old(tilemap).events.chunk_events.drained(old(reader).last_count as nat),
                ),
                q,
            ),
        forall|q: Point2| #[trigger] final(tilemap).has_chunk(q) <==> old(tilemap).has_chunk(q),
        forall|q: Point2|
            old(tilemap).has_chunk(q) && !newly_resident(
                *old(tilemap),
                spawn_points(
                    old(tilemap).events.chunk_events.drained(old(reader).last_count as nat),
                ),
                q,
            ) ==> #[trigger] final(tilemap).chunk_at(q) == old(tilemap).chunk_at(q),
        forall|q: Point2|
            #[trigger] newly_resident(
                *old(tilemap),
                spawn_points(
                    old(tilemap).events.chunk_events.drained(old(reader).last_count as nat),
                ),
                q,
            ) ==> spawned_chunk_layers(*old(tilemap), *final(tilemap), q),
        errs@ == lookup_errors(
            *old(tilemap),
            spawn_points(old(tilemap).events.chunk_events.drained(old(reader).last_count as nat)),
        ),
{
    let batch = reader.drain(&tilemap.events.chunk_events);
    let (pts, _mods, _ents) = split_events(&batch);
    process_spawned_points(tilemap, &pts)
}

/// How many `Spawned` events for `p` a batch holds.
pub open spec fn count_spawned_at(s: Seq<ChunkEventModel>, p: Point2) -> nat
    decreases s.len(),
{
    if s.len() == 0 {
        0
    } else {
        count_spawned_at(s.drop_last(), p) + (if s.last() matches ChunkEventModel::Spawned {
            point,
        } && point == p {
            1nat
        } else {
            0nat
        })
    }
}

/// How many `Despawned` events for `p` a batch holds.
pub open spec fn count_despawned_at(s: Seq<ChunkEventModel>, p: Point2) -> nat
    decreases s.len(),
{
    if s.len() == 0 {
        0
    } else {
        count_despawned_at(s.drop_last(), p) + (
        if s.last() matches ChunkEventModel::Despawned { entities, point } && point == p {
            1nat
        } else {
            0nat
        })
    }
}

/// Pushing one event extends the per-point counts by at most one.
proof fn lemma_count_push(s: Seq<ChunkEventModel>, e: ChunkEventModel, p: Point2)
    ensures
        count_spawned_at(s.push(e), p) == count_spawned_at(s, p) + (
        if e matches ChunkEventModel::Spawned { point } && point == p {
            1nat
        } else {
            0nat
        }),
        count_despawned_at(s.push(e), p) == count_despawned_at(s, p) + (
        if e matches ChunkEventModel::Despawned { entities, point } && point == p {
            1nat
        } else {
            0nat
        }),
{
    assert(s.push(e).drop_last() =~= s);
    assert(s.push(e).last() == e);
}

/// The rectangular spawn window: chunk coordinates within `dims` (half-width,
/// half-height) of the chunk containing the camera's tile position, clipped
/// to the bounded extent.
pub open spec fn window_contains(
    t: Tilemap,
    camera_x: int,
    camera_y: int,
    dims: crate::geometry::Dimension2,
    q: Point2,
) -> bool {
    let cx = camera_x / t.chunk_dimensions.width as int;
    let cy = camera_y / t.chunk_dimensions.height as int;
    &&& cx - dims.width <= q.x <= cx + dims.width
    &&& cy - dims.height <= q.y <= cy + dims.height
    &&& t.in_bounds(q)
}

/// Every layer slot of the sequence is empty.
pub open spec fn all_clear(s: Seq<Option<LayerEntry>>, n: nat) -> bool {
    s.len() == n && forall|z: int| 0 <= z < s.len() ==> (#[trigger] s[z]) is None
}

/// Every layer of the sequence has tile data available.
pub open spec fn all_tiles(s: Seq<bool>, n: nat) -> bool {
    s.len() == n && forall|z: int| 0 <= z < s.len() ==> #[trigger] s[z]
}

/// The part of the spawn window already enumerated after finishing every row
/// strictly below offset `dy`.
pub open spec fn rows_done(t: Tilemap, cx: int, cy: int, rw: int, rh: int, dy: int, q: Point2) -> bool {
    &&& cx - rw <= q.x <= cx + rw
    &&& cy - rh <= q.y < cy + dy
    &&& t.in_bounds(q)
}

/// The part of the spawn window already enumerated inside row `dy` before
/// column offset `dx`, together with every finished row.
pub open spec fn cells_done(
    t: Tilemap,
    cx: int,
    cy: int,
    rw: int,
    rh: int,
    dy: int,
    dx: int,
    q: Point2,
) -> bool {
    ||| rows_done(t, cx, cy, rw, rh, dy, q)
    ||| (q.y == cy + dy && cx - rw <= q.x < cx + dx && t.in_bounds(q))
}

/// Copies a vector of coordinates element by element.
fn copy_points(v: &Vec<Point2>) -> (r: Vec<Point2>)
    ensures
        r@ == v@,
{
    let mut r: Vec<Point2> = Vec::new();
    let mut i: usize = 0;
    while i < v.len()
        invariant
            i <= v.len(),
            r@ == v@.take(i as int),
        decreases v.len() - i,
    {
        r.push(v[i]);
        proof {
            assert(v@.take(i + 1 as int) =~= v@.take(i as int).push(v@[i as int]));
        }
        i = i + 1;
    }
    proof {
        assert(v@.take(v@.len() as int) =~= v@);
    }
    r
}

pub open spec fn auto_spawn_pre(
    t0: Tilemap,
    camera_x: int,
    camera_y: int,
    spawn_dimensions: crate::geometry::Dimension2,
) -> bool {
    &&& (camera_x / t0.chunk_dimensions.width as int - spawn_dimensions.width
            >= i32::MIN)
    &&& (camera_x / t0.chunk_dimensions.width as int + spawn_dimensions.width
            <= i32::MAX)
    &&& (camera_y / t0.chunk_dimensions.height as int - spawn_dimensions.height
            >= i32::MIN)
    &&& (camera_y / t0.chunk_dimensions.height as int + spawn_dimensions.height
            <= i32::MAX)
    &&& t0.events.chunk_events.can_publish(
        ((2 * spawn_dimensions.width + 1) * (2 * spawn_dimensions.height + 1)
            + t0.spawned_chunks@.len()) as nat,
    )
}

pub open spec fn auto_spawn_post(
    t0: Tilemap,
    t1: Tilemap,
    camera_x: int,
    camera_y: int,
    spawn_dimensions: crate::geometry::Dimension2,
) -> bool {
    &&& (t1 == (Tilemap {
            chunks: t1.chunks,
            spawned_chunks: t1.spawned_chunks,
            events: t1.events,
            ..t0
        }))
    &&& (forall|q: Point2|
            #[trigger] t1.spawned_chunks@.contains(q) <==> t0.spawned_chunks@.contains(q) && window_contains(
                t0,
                camera_x,
                camera_y,
                spawn_dimensions,
                q,
            ))
    &&& (forall|q: Point2|
            #[trigger] t1.has_chunk(q) <==> t0.has_chunk(q)
                || window_contains(
                t0,
                camera_x,
                camera_y,
                spawn_dimensions,
                q,
            ))
    &&& (forall|q: Point2|
            t0.has_chunk(q) && !(t0.spawned_chunks@.contains(q)
                && !window_contains(
                t0,
                camera_x,
                camera_y,
                spawn_dimensions,
                q,
            )) ==> #[trigger] t1.chunk_at(q) == t0.chunk_at(q))
    &&& (forall|q: Point2|
            t0.has_chunk(q) && t0.spawned_chunks@.contains(q)
                && !window_contains(
                t0,
                camera_x,
                camera_y,
                spawn_dimensions,
                q,
            ) ==> {
                &&& (#[trigger] t1.chunk_at(q)).point == t0.chunk_at(q).point
                &&& t1.chunk_at(q).tiles_present == t0.chunk_at(
                    q,
                ).tiles_present
                &&& all_clear(t1.chunk_at(q).layers@, t0.layer_count())
            })
    &&& (forall|q: Point2|
            !t0.has_chunk(q) && window_contains(
                t0,
                camera_x,
                camera_y,
                spawn_dimensions,
                q,
            ) ==> {
                &&& (#[trigger] t1.chunk_at(q)).point == q
                &&& all_tiles(
                    t1.chunk_at(q).tiles_present@,
                    t0.layer_count(),
                )
                &&& all_clear(t1.chunk_at(q).layers@, t0.layer_count())
            })
    &&& (t1.events.chunk_events.base() == t0.events.chunk_events.base())
    &&& (t1.events.chunk_events.log().len() >= t0.events.chunk_events.log().len())
    &&& t1.events.chunk_events.log().take(t0.events.chunk_events.log().len() as int)
        == t0.events.chunk_events.log()
    &&& (forall|q: Point2|
            #[trigger] count_spawned_at(
                t1.events.chunk_events.log().skip(
                    t0.events.chunk_events.log().len() as int,
                ),
                q,
            ) == (if window_contains(
                t0,
                camera_x,
                camera_y,
                spawn_dimensions,
                q,
            ) {
                1nat
            } else {
                0nat
            }))
    &&& (forall|q: Point2|
            #[trigger] count_despawned_at(
                t1.events.chunk_events.log().skip(
                    t0.events.chunk_events.log().len() as int,
                ),
                q,
            ) == (if t0.spawned_chunks@.contains(q) && !window_contains(
                t0,
                camera_x,
                camera_y,
                spawn_dimensions,
                q,
            ) {
                1nat
            } else {
                0nat
            }))
}

/// Recomputes the window of resident chunks around a camera: every chunk
/// coordinate within `spawn_dimensions` (half-width, half-height) of the
/// chunk containing the camera's tile position, clipped to the bounded
/// extent, is requested to spawn (a `Spawned` event each, exactly once);
/// every coordinate resident before the pass but outside the new window is
/// despawned (a `Despawned` event each, exactly once). Spawn requests come
/// before despawns, and every enumerated coordinate is processed.
#[verifier::loop_isolation(false)]
pub fn auto_spawn(
    tilemap: &mut Tilemap,
    camera_x: i32,
    camera_y: i32,
    spawn_dimensions: crate::geometry::Dimension2,
)
    requires
        old(tilemap).wf(),
        auto_spawn_pre(*old(tilemap), camera_x as int, camera_y as int, spawn_dimensions),
    ensures
        final(tilemap).wf(),
        auto_spawn_post(
            *old(tilemap),
            *final(tilemap),
            camera_x as int,
            camera_y as int,
            spawn_dimensions,
        ),
{
    let ghost t0 = *old(tilemap);
    let ghost cxi = camera_x as int / t0.chunk_dimensions.width as int;
    let ghost cyi = camera_y as int / t0.chunk_dimensions.height as int;
    let ghost rwi = spawn_dimensions.width as int;
    let ghost rhi = spawn_dimensions.height as int;
    let ghost oldlen = t0.events.chunk_events.log().len() as int;
    let ghost t0total = t0.events.chunk_events.total();
    let (pcx, pcy) = tilemap.point_to_chunk_point((camera_x, camera_y));
    let cxl: i64 = pcx as i64;
    let cyl: i64 = pcy as i64;
    let rw: i64 = spawn_dimensions.width as i64;
    let rh: i64 = spawn_dimensions.height as i64;
    let mut new_spawned: Vec<Point2> = Vec::new();
    let mut dy: i64 = -rh;
    while dy <= rh
        invariant
            -rh <= dy <= rh + 1,
            tilemap.wf(),
            *tilemap == (Tilemap { chunks: tilemap.chunks, events: tilemap.events, ..t0 }),
            tilemap.events.chunk_events.base() == t0.events.chunk_events.base(),
            tilemap.events.chunk_events.log().len() >= oldlen,
            tilemap.events.chunk_events.log().take(oldlen) == t0.events.chunk_events.log(),
            tilemap.events.chunk_events.total() <= t0total + (dy as int + rh as int) * (2 * rwi + 1),
            forall|q: Point2|
                #[trigger] new_spawned@.contains(q) <==> rows_done(t0, cxi, cyi, rwi, rhi, dy as int, q),
            forall|q: Point2|
                #[trigger] count_spawned_at(
                    tilemap.events.chunk_events.log().skip(oldlen),
                    q,
                ) == (if rows_done(t0, cxi, cyi, rwi, rhi, dy as int, q) {
                    1nat
                } else {
                    0nat
                }),
            forall|q: Point2|
                #[trigger] count_despawned_at(tilemap.events.chunk_events.log().skip(oldlen), q)
                    == 0,
            forall|q: Point2|
                #[trigger] tilemap.has_chunk(q) <==> t0.has_chunk(q) || rows_done(
                    t0,
                    cxi,
                    cyi,
                    rwi,
                    rhi,
                    dy as int,
                    q,
                ),
            forall|q: Point2|
                t0.has_chunk(q) ==> #[trigger] tilemap.chunk_at(q) == t0.chunk_at(q),
            forall|q: Point2|
                !t0.has_chunk(q) && rows_done(t0, cxi, cyi, rwi, rhi, dy as int, q) ==> {
                    &&& (#[trigger] tilemap.chunk_at(q)).point == q
                    &&& all_tiles(tilemap.chunk_at(q).tiles_present@, t0.layer_count())
                    &&& all_clear(tilemap.chunk_at(q).layers@, t0.layer_count())
                },
        decreases rh + 1 - dy,
    {
        let mut dx: i64 = -rw;
        while dx <= rw
            invariant
                -rh <= dy <= rh,
                -rw <= dx <= rw + 1,
                tilemap.wf(),
                *tilemap == (Tilemap { chunks: tilemap.chunks, events: tilemap.events, ..t0 }),
                tilemap.events.chunk_events.base() == t0.events.chunk_events.base(),
                tilemap.events.chunk_events.log().len() >= oldlen,
                tilemap.events.chunk_events.log().take(oldlen) == t0.events.chunk_events.log(),
                tilemap.events.chunk_events.total() <= t0total + (dy as int + rh as int) * (2 * rwi + 1) + (dx as int + rwi),
                forall|q: Point2|
                    #[trigger] new_spawned@.contains(q) <==> cells_done(
                        t0,
                        cxi,
                        cyi,
                        rwi,
                        rhi,
                        dy as int,
                        dx as int,
                        q,
                    ),
                forall|q: Point2|
                    #[trigger] count_spawned_at(
                        tilemap.events.chunk_events.log().skip(oldlen),
                        q,
                    ) == (if cells_done(t0, cxi, cyi, rwi, rhi, dy as int, dx as int, q) {
                        1nat
                    } else {
                        0nat
                    }),
                forall|q: Point2|
                    #[trigger] count_despawned_at(
                        tilemap.events.chunk_events.log().skip(oldlen),
                        q,
                    ) == 0,
                forall|q: Point2|
                    #[trigger] tilemap.has_chunk(q) <==> t0.has_chunk(q) || cells_done(
                        t0,
                        cxi,
                        cyi,
                        rwi,
                        rhi,
                        dy as int,
                        dx as int,
                        q,
                    ),
                forall|q: Point2|
                    t0.has_chunk(q) ==> #[trigger] tilemap.chunk_at(q) == t0.chunk_at(q),
                forall|q: Point2|
                    !t0.has_chunk(q) && cells_done(t0, cxi, cyi, rwi, rhi, dy as int, dx as int, q) ==> {
                        &&& (#[trigger] tilemap.chunk_at(q)).point == q
                        &&& all_tiles(tilemap.chunk_at(q).tiles_present@, t0.layer_count())
                        &&& all_clear(tilemap.chunk_at(q).layers@, t0.layer_count())
                    },
            decreases rw + 1 - dx,
        {
            let qx: i64 = cxl + dx;
            let qy: i64 = cyl + dy;
            let ghost pre = *tilemap;
            proof {
                assert((dy as int + rh as int) * (2 * rwi + 1) + (dx as int + rwi) + 1 <= (2 * rwi + 1) * (2
                    * rhi + 1) + t0.spawned_chunks@.len()) by (nonlinear_arith)
                    requires
                        -rh <= dy <= rh,
                        -rw <= dx <= rw,
                        rwi == rw as int,
                        rhi == rh as int,
                        rw >= 0,
                        rh >= 0,
                ;
            }
            let ok = tilemap.check_bounds(qx, qy);
            if ok {
                let p = Point2::new(qx as i32, qy as i32);
                let ghost ns0 = new_spawned@;
                let _ = tilemap.spawn_chunk(p);
                new_spawned.push(p);
                proof {
                    let lg0 = pre.events.chunk_events.log();
                    let lg1 = tilemap.events.chunk_events.log();
                    let ev = ChunkEventModel::Spawned { point: p };
                    assert(lg1 == lg0.push(ev));
                    assert(lg1.take(oldlen) =~= lg0.take(oldlen));
                    assert(lg1.skip(oldlen) =~= lg0.skip(oldlen).push(ev));
                    assert forall|q: Point2|
                        #[trigger] count_spawned_at(lg1.skip(oldlen), q) == (if cells_done(
                            t0,
                            cxi,
                            cyi,
                            rwi,
                            rhi,
                            dy as int,
                            dx as int + 1,
                            q,
                        ) {
                            1nat
                        } else {
                            0nat
                        }) by {
                        lemma_count_push(lg0.skip(oldlen), ev, q);
                        if q == p {
                            assert(!cells_done(t0, cxi, cyi, rwi, rhi, dy as int, dx as int, p));
                            assert(cells_done(t0, cxi, cyi, rwi, rhi, dy as int, dx as int + 1, p));
                        } else {
                            assert(cells_done(t0, cxi, cyi, rwi, rhi, dy as int, dx as int + 1, q)
                                <==> cells_done(t0, cxi, cyi, rwi, rhi, dy as int, dx as int, q));
                        }
                    }
                    assert forall|q: Point2|
                        #[trigger] count_despawned_at(lg1.skip(oldlen), q) == 0 by {
                        lemma_count_push(lg0.skip(oldlen), ev, q);
                    }
                    assert(new_spawned@ =~= ns0.push(p));
                    assert forall|q: Point2| #[trigger] new_spawned@.contains(q) implies
                        cells_done(t0, cxi, cyi, rwi, rhi, dy as int, dx as int + 1, q) by {
                        let w = choose|w: int|
                            0 <= w < new_spawned@.len() && new_spawned@[w] == q;
                        if w < ns0.len() {
                            assert(ns0[w] == q);
                            assert(ns0.contains(q));
                            assert(cells_done(t0, cxi, cyi, rwi, rhi, dy as int, dx as int, q));
                        } else {
                            assert(q == p);
                        }
                    }
                    assert forall|q: Point2|
                        cells_done(t0, cxi, cyi, rwi, rhi, dy as int, dx as int + 1, q) implies
                        #[trigger] new_spawned@.contains(q) by {
                        if cells_done(t0, cxi, cyi, rwi, rhi, dy as int, dx as int, q) {
                            assert(ns0.contains(q));
                            let w = choose|w: int| 0 <= w < ns0.len() && ns0[w] == q;
                            assert(new_spawned@[w] == q);
                        } else {
                            assert(q == p);
                            assert(new_spawned@[new_spawned@.len() - 1] == q);
                        }
                    }
                    assert forall|q: Point2| t0.has_chunk(q) implies #[trigger] tilemap.chunk_at(
                        q,
                    ) == t0.chunk_at(q) by {
                        assert(pre.has_chunk(q));
                        if q == p {
                            assert(tilemap.chunks@ == pre.chunks@);
                            let j = choose|j: int|
                                0 <= j < pre.chunks@.len() && (#[trigger] pre.chunks@[j]).0 == q;
                            pre.lemma_chunk_index(q, j);
                            tilemap.lemma_chunk_index(q, j);
                        } else {
                            assert(tilemap.chunk_at(q) == pre.chunk_at(q));
                        }
                    }
                    assert forall|q: Point2|
                        !t0.has_chunk(q) && cells_done(
                            t0,
                            cxi,
                            cyi,
                            rwi,
                            rhi,
                            dy as int,
                            dx as int + 1,
                            q,
                        ) implies {
                        &&& (#[trigger] tilemap.chunk_at(q)).point == q
                        &&& all_tiles(tilemap.chunk_at(q).tiles_present@, t0.layer_count())
                        &&& all_clear(tilemap.chunk_at(q).layers@, t0.layer_count())
                    } by {
                        if q == p {
                            if pre.has_chunk(p) {
                                assert(cells_done(t0, cxi, cyi, rwi, rhi, dy as int, dx as int, p));
                                assert(false);
                            }
                        } else {
                            assert(cells_done(t0, cxi, cyi, rwi, rhi, dy as int, dx as int, q));
                            assert(tilemap.chunk_at(q) == pre.chunk_at(q));
                        }
                    }
                }
            } else {
                proof {
                    assert forall|q: Point2|
                        cells_done(t0, cxi, cyi, rwi, rhi, dy as int, dx as int + 1, q) implies cells_done(
                        t0,
                        cxi,
                        cyi,
                        rwi,
                        rhi,
                        dy as int,
                        dx as int,
                        q,
                    ) by {
                        if !cells_done(t0, cxi, cyi, rwi, rhi, dy as int, dx as int, q) {
                            assert(q.x == qx && q.y == qy);
                            assert(!t0.in_bounds(q));
                        }
                    }
                }
            }
            dx = dx + 1;
        }
        proof {
            assert(forall|q: Point2|
                #![trigger cells_done(t0, cxi, cyi, rwi, rhi, dy as int, rwi + 1, q)]
                cells_done(t0, cxi, cyi, rwi, rhi, dy as int, rwi + 1, q) <==> rows_done(
                    t0,
                    cxi,
                    cyi,
                    rwi,
                    rhi,
                    dy as int + 1,
                    q,
                ));
            assert((dy as int + rh as int) * (2 * rwi + 1) + (rwi + 1 + rwi) <= (dy as int + 1
                + rh as int) * (2 * rwi + 1)) by (nonlinear_arith)
                requires
                    rwi == rw as int,
                    rw >= 0,
            ;
        }
        dy = dy + 1;
    }
    proof {
        assert(forall|q: Point2|
            #![trigger rows_done(t0, cxi, cyi, rwi, rhi, rh as int + 1, q)]
            rows_done(t0, cxi, cyi, rwi, rhi, rh as int + 1, q) <==> window_contains(
                t0,
                camera_x as int,
                camera_y as int,
                spawn_dimensions,
                q,
            ));
        assert(((2 * rhi) + 1) * (2 * rwi + 1) == (2 * rwi + 1) * (2 * rhi + 1))
            by (nonlinear_arith);
        assert(tilemap.events.chunk_events.total() <= t0total + (2 * rwi + 1) * (2 * rhi + 1))
            by (nonlinear_arith)
            requires
                tilemap.events.chunk_events.total() <= t0total + (rh as int + 1 + rh as int) * (2
                    * rwi + 1),
                rhi == rh as int,
                rwi == rw as int,
                rw >= 0,
                rh >= 0,
        ;
    }
    let snapshot = copy_points(&tilemap.spawned_chunks);
    let mut s: usize = 0;
    while s < snapshot.len()
        invariant
            s <= snapshot@.len(),
            snapshot@ == t0.spawned_chunks@,
            tilemap.wf(),
            *tilemap == (Tilemap {
                chunks: tilemap.chunks,
                spawned_chunks: tilemap.spawned_chunks,
                events: tilemap.events,
                ..t0
            }),
            tilemap.events.chunk_events.base() == t0.events.chunk_events.base(),
            tilemap.events.chunk_events.log().len() >= oldlen,
            tilemap.events.chunk_events.log().take(oldlen) == t0.events.chunk_events.log(),
            tilemap.events.chunk_events.total() <= t0total + (2 * rwi + 1) * (2 * rhi + 1) + s,
            forall|q: Point2|
                #[trigger] new_spawned@.contains(q) <==> window_contains(
                    t0,
                    camera_x as int,
                    camera_y as int,
                    spawn_dimensions,
                    q,
                ),
            forall|q: Point2|
                #[trigger] tilemap.spawned_chunks@.contains(q) <==> t0.spawned_chunks@.contains(q)
                    && (window_contains(t0, camera_x as int, camera_y as int, spawn_dimensions, q)
                    || !snapshot@.take(s as int).contains(q)),
            forall|q: Point2|
                #[trigger] count_spawned_at(
                    tilemap.events.chunk_events.log().skip(oldlen),
                    q,
                ) == (if window_contains(
                    t0,
                    camera_x as int,
                    camera_y as int,
                    spawn_dimensions,
                    q,
                ) {
                    1nat
                } else {
                    0nat
                }),
            forall|q: Point2|
                #[trigger] count_despawned_at(
                    tilemap.events.chunk_events.log().skip(oldlen),
                    q,
                ) == (if t0.spawned_chunks@.contains(q) && !window_contains(
                    t0,
                    camera_x as int,
                    camera_y as int,
                    spawn_dimensions,
                    q,
                ) && snapshot@.take(s as int).contains(q) {
                    1nat
                } else {
                    0nat
                }),
            forall|q: Point2|
                #[trigger] tilemap.has_chunk(q) <==> t0.has_chunk(q) || window_contains(
                    t0,
                    camera_x as int,
                    camera_y as int,
                    spawn_dimensions,
                    q,
                ),
            forall|q: Point2|
                t0.has_chunk(q) && !(t0.spawned_chunks@.contains(q) && !window_contains(
                    t0,
                    camera_x as int,
                    camera_y as int,
                    spawn_dimensions,
                    q,
                ) && snapshot@.take(s as int).contains(q)) ==> #[trigger] tilemap.chunk_at(q)
                    == t0.chunk_at(q),
            forall|q: Point2|
                t0.has_chunk(q) && t0.spawned_chunks@.contains(q) && !window_contains(
                    t0,
                    camera_x as int,
                    camera_y as int,
                    spawn_dimensions,
                    q,
                ) && snapshot@.take(s as int).contains(q) ==> {
                    &&& (#[trigger] tilemap.chunk_at(q)).point == t0.chunk_at(q).point
                    &&& tilemap.chunk_at(q).tiles_present == t0.chunk_at(q).tiles_present
                    &&& all_clear(tilemap.chunk_at(q).layers@, t0.layer_count())
                },
            forall|q: Point2|
                !t0.has_chunk(q) && window_contains(
                    t0,
                    camera_x as int,
                    camera_y as int,
                    spawn_dimensions,
                    q,
                ) ==> {
                    &&& (#[trigger] tilemap.chunk_at(q)).point == q
                    &&& all_tiles(tilemap.chunk_at(q).tiles_present@, t0.layer_count())
                    &&& all_clear(tilemap.chunk_at(q).layers@, t0.layer_count())
                },
        decreases snapshot@.len() - s,
    {
        let q = snapshot[s];
        let ghost pre = *tilemap;
        let ghost tks = snapshot@.take(s as int);
        let ghost tks1 = snapshot@.take(s + 1 as int);
        proof {
            assert(tks1 =~= tks.push(q));
            assert forall|r: Point2| #[trigger] tks1.contains(r) implies (tks.contains(r) || r
                == q) by {
                let w = choose|w: int| 0 <= w < tks1.len() && tks1[w] == r;
                if w < s {
                    assert(tks[w] == r);
                }
            }
            assert forall|r: Point2| tks.contains(r) implies tks1.contains(r) by {
                let w = choose|w: int| 0 <= w < tks.len() && tks[w] == r;
                assert(tks1[w] == r);
            }
            assert(tks1.contains(q)) by {
                assert(tks1[s as int] == q);
            }
            assert(t0.spawned_chunks@.contains(q)) by {
                assert(t0.spawned_chunks@[s as int] == q);
            }
            assert(!tks.contains(q)) by {
                if tks.contains(q) {
                    let w = choose|w: int| 0 <= w < tks.len() && tks[w] == q;
                    assert(t0.spawned_chunks@[w] == t0.spawned_chunks@[s as int]);
                }
            }
        }
        if !point_list_contains(&new_spawned, q) {
            let _ = tilemap.despawn_chunk(q);
            proof {
                let lg0 = pre.events.chunk_events.log();
                let lg1 = tilemap.events.chunk_events.log();
                let ev = ChunkEventModel::Despawned {
                    entities: crate::tilemap::entities_model(pre.chunk_at(q).layers@),
                    point: q,
                };
                assert(lg1 == lg0.push(ev));
                assert(lg1.take(oldlen) =~= lg0.take(oldlen));
                assert(lg1.skip(oldlen) =~= lg0.skip(oldlen).push(ev));
                lemma_remove_all_props(pre.spawned_chunks@, q);
                assert forall|r: Point2| #[trigger] count_spawned_at(lg1.skip(oldlen), r) == (
                if window_contains(t0, camera_x as int, camera_y as int, spawn_dimensions, r) {
                    1nat
                } else {
                    0nat
                }) by {
                    lemma_count_push(lg0.skip(oldlen), ev, r);
                }
                assert forall|r: Point2| #[trigger] count_despawned_at(lg1.skip(oldlen), r) == (
                if t0.spawned_chunks@.contains(r) && !window_contains(
                    t0,
                    camera_x as int,
                    camera_y as int,
                    spawn_dimensions,
                    r,
                ) && tks1.contains(r) {
                    1nat
                } else {
                    0nat
                }) by {
                    lemma_count_push(lg0.skip(oldlen), ev, r);
                }
                assert forall|r: Point2|
                    t0.has_chunk(r) && !(t0.spawned_chunks@.contains(r) && !window_contains(
                        t0,
                        camera_x as int,
                        camera_y as int,
                        spawn_dimensions,
                        r,
                    ) && tks1.contains(r)) implies #[trigger] tilemap.chunk_at(r) == t0.chunk_at(
                    r,
                ) by {
                    assert(r != q);
                    assert(tilemap.chunk_at(r) == pre.chunk_at(r));
                }
                assert(all_clear(tilemap.chunk_at(q).layers@, t0.layer_count()));
                assert forall|r: Point2|
                    t0.has_chunk(r) && t0.spawned_chunks@.contains(r) && !window_contains(
                        t0,
                        camera_x as int,
                        camera_y as int,
                        spawn_dimensions,
                        r,
                    ) && tks1.contains(r) implies {
                    &&& (#[trigger] tilemap.chunk_at(r)).point == t0.chunk_at(r).point
                    &&& tilemap.chunk_at(r).tiles_present == t0.chunk_at(r).tiles_present
                    &&& all_clear(tilemap.chunk_at(r).layers@, t0.layer_count())
                } by {
                    if r == q {
                        assert(pre.chunk_at(q).point == t0.chunk_at(q).point);
                        assert(pre.chunk_at(q).tiles_present == t0.chunk_at(q).tiles_present);
                    } else {
                        assert(tks.contains(r));
                        assert(tilemap.chunk_at(r) == pre.chunk_at(r));
                    }
                }
                assert forall|r: Point2|
                    !t0.has_chunk(r) && window_contains(
                        t0,
                        camera_x as int,
                        camera_y as int,
                        spawn_dimensions,
                        r,
                    ) implies {
                    &&& (#[trigger] tilemap.chunk_at(r)).point == r
                    &&& all_tiles(tilemap.chunk_at(r).tiles_present@, t0.layer_count())
                    &&& all_clear(tilemap.chunk_at(r).layers@, t0.layer_count())
                } by {
                    assert(r != q);
                    assert(tilemap.chunk_at(r) == pre.chunk_at(r));
                }
            }
        } else {
            proof {
                assert(window_contains(t0, camera_x as int, camera_y as int, spawn_dimensions, q));
            }
        }
        s = s + 1;
    }
    proof {
        assert(snapshot@.take(snapshot@.len() as int) =~= snapshot@);
        assert(tilemap.events.chunk_events.log().take(oldlen) == t0.events.chunk_events.log());
    }
}

/// Chunk maps carrying the same entities report the same missing touches.
proof fn lemma_missing_errors_same(
    entries: Seq<ModifiedEntry>,
    a: Seq<(Point2, crate::tilemap::Chunk)>,
    b: Seq<(Point2, crate::tilemap::Chunk)>,
)
    requires
        forall|e: Entity| #[trigger] any_entry_has(a, e) <==> any_entry_has(b, e),
    ensures
        missing_errors(entries, a) == missing_errors(entries, b),
    decreases entries.len(),
{
    if entries.len() > 0 {
        lemma_missing_errors_same(entries.drop_last(), a, b);
        assert(missing_errors(entries, a) =~= missing_errors(entries, b));
    } else {
        assert(missing_errors(entries, a) =~= missing_errors(entries, b));
    }
}

/// The event handling pass of the tilemap, in order of operation: spawned
/// coordinates are materialized, modification touches advance layer
/// versions, and the entities of despawned chunks are returned for the host
/// to destroy. The pass returns those entities together with every local
/// error it reported.
pub fn tilemap_events(tilemap: &mut Tilemap, reader: &mut EventReader) -> (out: (
    Vec<Entity>,
    Vec<TilemapError>,
))
    requires
        old(tilemap).wf(),
        old(tilemap).next_entity + spawn_points(
            old(tilemap).events.chunk_events.drained(old(reader).last_count as nat),
        ).len() * old(tilemap).layer_count() <= u64::MAX,
        old(tilemap).next_mesh + spawn_points(
            old(tilemap).events.chunk_events.drained(old(reader).last_count as nat),
        ).len() * old(tilemap).layer_count() <= u64::MAX,
        forall|i: int, z: int|
            0 <= i < old(tilemap).chunks@.len() && 0 <= z < (
            #[trigger] old(tilemap).chunks@[i]).1.layers@.len() && (
            #[trigger] old(tilemap).chunks@[i].1.layers@[z]) is Some ==> old(
                tilemap,
            ).chunks@[i].1.layers@[z]->Some_0.version + modified_entries(
                old(tilemap).events.chunk_events.drained(old(reader).last_count as nat),
            ).len() <= u64::MAX,
    ensures
        final(tilemap).wf(),
        *final(tilemap) == (Tilemap {
            chunks: final(tilemap).chunks,
            spawned_chunks: final(tilemap).spawned_chunks,
            next_entity: final(tilemap).next_entity,
            next_mesh: final(tilemap).next_mesh,
            ..*old(tilemap)
        }),
        final(reader).last_count == old(tilemap).events.chunk_events.total(),
        forall|q: Point2|
            #[trigger] final(tilemap).spawned_chunks@.contains(q) <==> old(
                tilemap,
            ).spawned_chunks@.contains(q) || newly_resident(
                *old(tilemap),
                spawn_points(
                    old(tilemap).events.chunk_events.drained(old(reader).last_count as nat),
                ),
                q,
            ),
        forall|q: Point2| #[trigger] final(tilemap).has_chunk(q) <==> old(tilemap).has_chunk(q),
        out.0@ == despawned_entities(
            old(tilemap).events.chunk_events.drained(old(reader).last_count as nat),
        ),
        out.1@ == lookup_errors(
            *old(tilemap),
            spawn_points(old(tilemap).events.chunk_events.drained(old(reader).last_count as nat)),
        ) + missing_errors(
            modified_entries(
                old(tilemap).events.chunk_events.drained(old(reader).last_count as nat),
            ),
            final(tilemap).chunks@,
        ),
        forall|q: Point2, z: int|
            old(tilemap).has_chunk(q) && !newly_resident(
                *old(tilemap),
                spawn_points(
                    old(tilemap).events.chunk_events.drained(old(reader).last_count as nat),
                ),
                q,
            ) && 0 <= z < old(tilemap).chunk_at(q).layers@.len() ==> (
            #[trigger] final(tilemap).chunk_at(q).layers@[z]) == (match old(tilemap).chunk_at(
                q,
            ).layers@[z] {
                Some(e) => Some(
                    LayerEntry {
                        version: (e.version + touch_count(
                            modified_entries(
                                old(tilemap).events.chunk_events.drained(
                                    old(reader).last_count as nat,
                                ),
                            ),
                            e.entity,
                        )) as u64,
                        ..e
                    },
                ),
                None => None,
            }),
        forall|q: Point2|
            #[trigger] newly_resident(
                *old(tilemap),
                spawn_points(
                    old(tilemap).events.chunk_events.drained(old(reader).last_count as nat),
                ),
                q,
            ) ==> {
                &&& final(tilemap).chunk_at(q).layers@.len() == old(tilemap).layer_count()
                &&& forall|z: int|
                    0 <= z < old(tilemap).layer_count() ==> (if old(tilemap).layers@[z] is Some
                        && old(tilemap).chunk_at(q).tiles_present@[z] {
                        &&& (#[trigger] final(tilemap).chunk_at(q).layers@[z]) is Some
                        &&& final(tilemap).chunk_at(q).layers@[z]->Some_0.synced == 0
                        &&& final(tilemap).chunk_at(q).layers@[z]->Some_0.version == touch_count(
                            modified_entries(
                                old(tilemap).events.chunk_events.drained(
                                    old(reader).last_count as nat,
                                ),
                            ),
                            final(tilemap).chunk_at(q).layers@[z]->Some_0.entity,
                        )
                        &&& final(tilemap).chunk_at(q).layers@[z]->Some_0.half_x
                            == crate::geometry::place_half_x(
                            old(tilemap).topology,
                            q,
                            old(tilemap).tile_dimensions,
                            old(tilemap).chunk_dimensions,
                        )
                        &&& final(tilemap).chunk_at(q).layers@[z]->Some_0.half_y
                            == crate::geometry::place_half_y(
                            old(tilemap).topology,
                            q,
                            old(tilemap).tile_dimensions,
                            old(tilemap).chunk_dimensions,
                        )
                        &&& final(tilemap).chunk_at(q).layers@[z]->Some_0.entity.id >= old(
                            tilemap,
                        ).next_entity
                    } else {
                        (#[trigger] final(tilemap).chunk_at(q).layers@[z]) is None
                    })
            },
{
    let ghost t0 = *old(tilemap);
    let ghost drained = t0.events.chunk_events.drained(old(reader).last_count as nat);
    let batch = reader.drain(&tilemap.events.chunk_events);
    let (pts, mods, ents) = split_events(&batch);
    let mods_count: usize = mods.len();
    proof {
        assert(mods@.len() == mods_count);
    }
    let mut errs = process_spawned_points(tilemap, &pts);
    let ghost t1 = *tilemap;
    proof {
        assert(models(batch@) == drained);
        assert(mods@.len() == modified_entries(drained).len());
        assert forall|i: int, z: int|
            0 <= i < t1.chunks@.len() && 0 <= z < (#[trigger] t1.chunks@[i]).1.layers@.len() && (
            #[trigger] t1.chunks@[i].1.layers@[z]) is Some implies
            t1.chunks@[i].1.layers@[z]->Some_0.version + mods@.len() <= u64::MAX by {
            let q = t1.chunks@[i].0;
            t1.lemma_chunk_index(q, i);
            if newly_resident(t0, pts@, q) {
                assert(spawned_chunk_layers(t0, t1, q));
                assert(mods@.len() <= usize::MAX);
                if t0.layers@[z] is Some && t0.chunk_at(q).tiles_present@[z] {
                    assert(t1.chunk_at(q).layers@[z]->Some_0.version == 0);
                } else {
                    assert(t1.chunk_at(q).layers@[z] is None);
                }
            } else {
                assert(t0.has_chunk(q));
                assert(t1.chunk_at(q) == t0.chunk_at(q));
                let j = choose|j: int|
                    0 <= j < t0.chunks@.len() && (#[trigger] t0.chunks@[j]).0 == q;
                t0.lemma_chunk_index(q, j);
                assert(t0.chunks@[j].1.layers@[z] is Some);
            }
        }
    }
    let mut mod_errs = process_modified(tilemap, &mods);
    let to_destroy = copy_entities(&ents);
    errs.append(&mut mod_errs);
    proof {
        let t2 = *tilemap;
        // entities are untouched by version bumps, so the missing reports of
        // the intermediate state are those of the final state
        assert forall|e: Entity| #[trigger] any_entry_has(t1.chunks@, e) <==> any_entry_has(
            t2.chunks@,
            e,
        ) by {
            if any_entry_has(t1.chunks@, e) {
                let (i, z) = choose|i: int, z: int|
                    0 <= i < t1.chunks@.len() && 0 <= z < (#[trigger] t1.chunks@[i]).1.layers@.len()
                        && ((#[trigger] t1.chunks@[i].1.layers@[z]) matches Some(entry)
                        && entry.entity == e);
                assert(t2.chunks@[i].1.layers@[z]->Some_0.entity == e);
            }
            if any_entry_has(t2.chunks@, e) {
                let (i, z) = choose|i: int, z: int|
                    0 <= i < t2.chunks@.len() && 0 <= z < (#[trigger] t2.chunks@[i]).1.layers@.len()
                        && ((#[trigger] t2.chunks@[i].1.layers@[z]) matches Some(entry)
                        && entry.entity == e);
                assert(t1.chunks@[i].1.layers@[z]->Some_0.entity == e);
            }
        }
        lemma_missing_errors_same(mods@, t1.chunks@, t2.chunks@);
        // residency and keys pass through the bump pass untouched
        assert forall|q: Point2| #[trigger] t2.has_chunk(q) <==> t1.has_chunk(q) by {
            if t2.has_chunk(q) {
                let j = choose|j: int|
                    0 <= j < t2.chunks@.len() && (#[trigger] t2.chunks@[j]).0 == q;
                assert(t1.chunks@[j].0 == q);
            }
            if t1.has_chunk(q) {
                let j = choose|j: int|
                    0 <= j < t1.chunks@.len() && (#[trigger] t1.chunks@[j]).0 == q;
                assert(t2.chunks@[j].0 == q);
            }
        }
        // per-entry description of the final chunks, relative to the start
        assert forall|q: Point2, z: int|
            t0.has_chunk(q) && !newly_resident(t0, spawn_points(drained), q) && 0 <= z
                < t0.chunk_at(q).layers@.len() implies (#[trigger] t2.chunk_at(q).layers@[z]) == (
        match t0.chunk_at(q).layers@[z] {
            Some(e) => Some(
                LayerEntry {
                    version: (e.version + touch_count(modified_entries(drained), e.entity)) as u64,
                    ..e
                },
            ),
            None => None,
        }) by {
            assert(t1.chunk_at(q) == t0.chunk_at(q));
            assert(t1.has_chunk(q));
            let j = choose|j: int| 0 <= j < t1.chunks@.len() && (#[trigger] t1.chunks@[j]).0 == q;
            t1.lemma_chunk_index(q, j);
            t2.lemma_chunk_index(q, j);
            assert(t2.chunks@[j].1.layers@[z] == (match t1.chunks@[j].1.layers@[z] {
                Some(e) => Some(
                    LayerEntry {
                        version: (e.version + touch_count(mods@, e.entity)) as u64,
                        ..e
                    },
                ),
                None => None,
            }));
            if t1.chunks@[j].1.layers@[z] is Some {
                lemma_touch_count_le(mods@, t1.chunks@[j].1.layers@[z]->Some_0.entity);
            }
        }
        assert forall|q: Point2| #[trigger] newly_resident(t0, spawn_points(drained), q) implies {
            &&& t2.chunk_at(q).layers@.len() == t0.layer_count()
            &&& forall|z: int|
                0 <= z < t0.layer_count() ==> (if t0.layers@[z] is Some && t0.chunk_at(
                    q,
                ).tiles_present@[z] {
                    &&& (#[trigger] t2.chunk_at(q).layers@[z]) is Some
                    &&& t2.chunk_at(q).layers@[z]->Some_0.synced == 0
                    &&& t2.chunk_at(q).layers@[z]->Some_0.version == touch_count(
                        modified_entries(drained),
                        t2.chunk_at(q).layers@[z]->Some_0.entity,
                    )
                    &&& t2.chunk_at(q).layers@[z]->Some_0.half_x == crate::geometry::place_half_x(
                        t0.topology,
                        q,
                        t0.tile_dimensions,
                        t0.chunk_dimensions,
                    )
                    &&& t2.chunk_at(q).layers@[z]->Some_0.half_y == crate::geometry::place_half_y(
                        t0.topology,
                        q,
                        t0.tile_dimensions,
                        t0.chunk_dimensions,
                    )
                    &&& t0.next_entity <= t2.chunk_at(q).layers@[z]->Some_0.entity.id
                } else {
                    (#[trigger] t2.chunk_at(q).layers@[z]) is None
                })
        } by {
            assert(spawned_chunk_layers(t0, t1, q));
            assert(t1.has_chunk(q));
            let j = choose|j: int| 0 <= j < t1.chunks@.len() && (#[trigger] t1.chunks@[j]).0 == q;
            t1.lemma_chunk_index(q, j);
            t2.lemma_chunk_index(q, j);
            assert forall|z: int| 0 <= z < t0.layer_count() implies (if t0.layers@[z] is Some
                && t0.chunk_at(q).tiles_present@[z] {
                &&& (#[trigger] t2.chunk_at(q).layers@[z]) is Some
                &&& t2.chunk_at(q).layers@[z]->Some_0.synced == 0
                &&& t2.chunk_at(q).layers@[z]->Some_0.version == touch_count(
                    modified_entries(drained),
                    t2.chunk_at(q).layers@[z]->Some_0.entity,
                )
                &&& t2.chunk_at(q).layers@[z]->Some_0.half_x == crate::geometry::place_half_x(
                    t0.topology,
                    q,
                    t0.tile_dimensions,
                    t0.chunk_dimensions,
                )
                &&& t2.chunk_at(q).layers@[z]->Some_0.half_y == crate::geometry::place_half_y(
                    t0.topology,
                    q,
                    t0.tile_dimensions,
                    t0.chunk_dimensions,
                )
                &&& t0.next_entity <= t2.chunk_at(q).layers@[z]->Some_0.entity.id
            } else {
                (#[trigger] t2.chunk_at(q).layers@[z]) is None
            }) by {
                assert(t2.chunks@[j].1.layers@[z] == (match t1.chunks@[j].1.layers@[z] {
                    Some(e) => Some(
                        LayerEntry {
                            version: (e.version + touch_count(mods@, e.entity)) as u64,
                            ..e
                        },
                    ),
                    None => None,
                }));
                if t1.chunk_at(q).layers@[z] is Some {
                    assert(t1.chunk_at(q).layers@[z]->Some_0.version == 0);
                    lemma_touch_count_le(mods@, t1.chunk_at(q).layers@[z]->Some_0.entity);
                    assert(mods@ == modified_entries(drained));
                }
            }
        }
    }
    (to_destroy, errs)
}

/// The spawn radius derived from a viewport size: the number of chunks that
/// covers the viewport on each axis (rounded up), plus one.
pub open spec fn auto_radius(t: Tilemap, window: crate::geometry::Dimension2) -> crate::geometry::Dimension2 {
    let cpw = t.chunk_dimensions.width as int * t.tile_dimensions.width as int;
    let cph = t.chunk_dimensions.height as int * t.tile_dimensions.height as int;
    crate::geometry::Dimension2 {
        width: ((window.width as int + cpw - 1) / cpw + 1) as u32,
        height: ((window.height as int + cph - 1) / cph + 1) as u32,
    }
}

/// A rounded-up quotient does not exceed the dividend's numerator part.
proof fn lemma_ceil_le(w: int, c: int)
    requires
        w >= 0,
        c >= 1,
    ensures
        0 <= (w + c - 1) / c <= w,
{
    lemma_fundamental_div_mod(w + c - 1, c);
    let q = (w + c - 1) / c;
    let r = (w + c - 1) % c;
    assert(0 <= q <= w) by (nonlinear_arith)
        requires
            w + c - 1 == c * q + r,
            0 <= r < c,
            c >= 1,
            w >= 0,
    ;
}

/// On a viewport resize: recompute the spawn radius so the window covers the
/// viewport with one chunk of slack per axis, remember it on the tilemap, and
/// immediately re-run the window recompute for the tracked camera.
pub fn tilemap_chunk_auto_radius(
    tilemap: &mut Tilemap,
    window: crate::geometry::Dimension2,
    camera_x: i32,
    camera_y: i32,
)
    requires
        old(tilemap).wf(),
        window.width < u32::MAX,
        window.height < u32::MAX,
        auto_spawn_pre(
            *old(tilemap),
            camera_x as int,
            camera_y as int,
            auto_radius(*old(tilemap), window),
        ),
    ensures
        final(tilemap).wf(),
        final(tilemap).auto_spawn == Some(auto_radius(*old(tilemap), window)),
        auto_spawn_post(
            Tilemap { auto_spawn: Some(auto_radius(*old(tilemap), window)), ..*old(tilemap) },
            *final(tilemap),
            camera_x as int,
            camera_y as int,
            auto_radius(*old(tilemap), window),
        ),
{
    let cw: u64 = tilemap.chunk_dimensions.width as u64;
    let ch: u64 = tilemap.chunk_dimensions.height as u64;
    let tw: u64 = tilemap.tile_dimensions.width as u64;
    let th: u64 = tilemap.tile_dimensions.height as u64;
    proof {
        assert(cw * tw <= 0xffff_ffff * 0xffff_ffff && ch * th <= 0xffff_ffff * 0xffff_ffff)
            by (nonlinear_arith)
            requires
                0 <= cw <= 0xffff_ffff,
                0 <= tw <= 0xffff_ffff,
                0 <= ch <= 0xffff_ffff,
                0 <= th <= 0xffff_ffff,
        ;
        assert(cw * tw >= 1 && ch * th >= 1) by (nonlinear_arith)
            requires
                cw >= 1,
                tw >= 1,
                ch >= 1,
                th >= 1,
        ;
        lemma_ceil_le(window.width as int, (cw * tw) as int);
        lemma_ceil_le(window.height as int, (ch * th) as int);
    }
    let cpw: u64 = cw * tw;
    let cph: u64 = ch * th;
    let wide: u64 = (window.width as u64 + (cpw - 1)) / cpw + 1;
    let high: u64 = (window.height as u64 + (cph - 1)) / cph + 1;
    let dims = crate::geometry::Dimension2 { width: wide as u32, height: high as u32 };
    proof {
        assert(dims == auto_radius(*old(tilemap), window));
    }
    tilemap.auto_spawn = Some(dims);
    proof {
        old(tilemap).lemma_wf_same_maps(*tilemap);
    }
    auto_spawn(tilemap, camera_x, camera_y, dims);
}

/// Spawns and despawns chunks around the camera's position using the radius
/// remembered on the tilemap; a tilemap without one is left untouched.
pub fn tilemap_chunk_auto_spawn(tilemap: &mut Tilemap, camera_x: i32, camera_y: i32)
    requires
        old(tilemap).wf(),
        old(tilemap).auto_spawn matches Some(d) ==> auto_spawn_pre(
            *old(tilemap),
            camera_x as int,
            camera_y as int,
            d,
        ),
    ensures
        final(tilemap).wf(),
        old(tilemap).auto_spawn is None ==> *final(tilemap) == *old(tilemap),
        old(tilemap).auto_spawn matches Some(d) ==> auto_spawn_post(
            *old(tilemap),
            *final(tilemap),
            camera_x as int,
            camera_y as int,
            d,
        ),
{
    let dims = match tilemap.auto_spawn {
        Some(dims) => dims,
        None => {
            return ;
        },
    };
    auto_spawn(tilemap, camera_x, camera_y, dims);
}

/// Spawning the same coordinate twice in the same tick is a no-op the second
/// time: a batch with the request repeated materializes exactly what the
/// batch with a single request does.
pub proof fn lemma_spawn_idempotent(t: Tilemap, pts: Seq<Point2>, p: Point2, q: Point2)
    ensures
        newly_resident(t, pts.push(p).push(p), q) <==> newly_resident(t, pts.push(p), q),
{
    let one = pts.push(p);
    let two = one.push(p);
    assert forall|r: Point2| #[trigger] two.contains(r) implies one.contains(r) by {
        let w = choose|w: int| 0 <= w < two.len() && two[w] == r;
        if w < one.len() {
            assert(one[w] == r);
        } else {
            assert(r == p);
            assert(one[one.len() - 1] == p);
        }
    }
    assert forall|r: Point2| #[trigger] one.contains(r) implies two.contains(r) by {
        let w = choose|w: int| 0 <= w < one.len() && one[w] == r;
        assert(two[w] == r);
    }
}

/// How many rebuild requests of a pass name the layer `z` of the chunk at
/// `p`.
pub open spec fn count_rebuilds(s: Seq<MeshRebuild>, p: Point2, z: usize) -> nat
    decreases s.len(),
{
    if s.len() == 0 {
        0
    } else {
        count_rebuilds(s.drop_last(), p, z) + (if s.last().point == p && s.last().z_order == z {
            1nat
        } else {
            0nat
        })
    }
}

proof fn lemma_count_rebuilds_add(a: Seq<MeshRebuild>, b: Seq<MeshRebuild>, p: Point2, z: usize)
    ensures
        count_rebuilds(a + b, p, z) == count_rebuilds(a, p, z) + count_rebuilds(b, p, z),
    decreases b.len(),
{
    if b.len() == 0 {
        assert(a + b =~= a);
    } else {
        lemma_count_rebuilds_add(a, b.drop_last(), p, z);
        assert((a + b).drop_last() =~= a + b.drop_last());
        assert((a + b).last() == b.last());
    }
}

proof fn lemma_chunk_rebuilds_count(c: crate::tilemap::Chunk, n: nat, p: Point2, z: usize)
    requires
        n <= c.layers@.len(),
        c.layers@.len() <= usize::MAX,
    ensures
        p != c.point ==> count_rebuilds(chunk_rebuilds(c, n), p, z) == 0,
        p == c.point && z >= n ==> count_rebuilds(chunk_rebuilds(c, n), p, z) == 0,
        p == c.point && z < n ==> count_rebuilds(chunk_rebuilds(c, n), p, z) == (
        match c.layers@[z as int] {
            Some(e) => if entry_dirty(e) && c.tiles_present@[z as int] {
                1nat
            } else {
                0nat
            },
            None => 0nat,
        }),
    decreases n,
{
    if n > 0 {
        lemma_chunk_rebuilds_count(c, (n - 1) as nat, p, z);
        let tail = (match c.layers@[n - 1] {
            Some(e) => if entry_dirty(e) && c.tiles_present@[n - 1] {
                seq![MeshRebuild { point: c.point, z_order: (n - 1) as usize, mesh: e.mesh }]
            } else {
                Seq::empty()
            },
            None => Seq::<MeshRebuild>::empty(),
        });
        lemma_count_rebuilds_add(chunk_rebuilds(c, (n - 1) as nat), tail, p, z);
        assert(chunk_rebuilds(c, n) == chunk_rebuilds(c, (n - 1) as nat) + tail);
        assert(count_rebuilds(Seq::<MeshRebuild>::empty(), p, z) == 0);
        if tail.len() > 0 {
            assert(tail.drop_last() =~= Seq::<MeshRebuild>::empty());
            assert(count_rebuilds(tail, p, z) == (if tail.last().point == p && tail.last().z_order
                == z {
                1nat
            } else {
                0nat
            }));
        } else {
            assert(tail =~= Seq::<MeshRebuild>::empty());
            assert(count_rebuilds(tail, p, z) == 0);
        }
    }
}

/// Dirty tracking of the mesh synchronizer, counted per layer-entry: an
/// entry whose version still equals its synced mark is never rebuilt by the
/// pass; a dirty entry whose tile data is available is rebuilt exactly once.
pub proof fn lemma_dirty_tracking(
    chunks: Seq<(Point2, crate::tilemap::Chunk)>,
    m: nat,
    i: int,
    z: usize,
)
    requires
        m <= chunks.len(),
        forall|a: int, b: int|
            0 <= a < b < chunks.len() ==> (#[trigger] chunks[a]).0 != (#[trigger] chunks[b]).0,
        forall|a: int| 0 <= a < chunks.len() ==> (#[trigger] chunks[a]).1.point == chunks[a].0,
        forall|a: int|
            0 <= a < chunks.len() ==> (#[trigger] chunks[a]).1.layers@.len() <= usize::MAX,
        0 <= i < chunks.len(),
        z < chunks[i].1.layers@.len(),
    ensures
        count_rebuilds(rebuild_list(chunks, m), chunks[i].0, z) == (if i < m {
            match chunks[i].1.layers@[z as int] {
                Some(e) => if entry_dirty(e) && chunks[i].1.tiles_present@[z as int] {
                    1nat
                } else {
                    0nat
                },
                None => 0nat,
            }
        } else {
            0nat
        }),
    decreases m,
{
    if m > 0 {
        lemma_dirty_tracking(chunks, (m - 1) as nat, i, z);
        lemma_count_rebuilds_add(
            rebuild_list(chunks, (m - 1) as nat),
            chunk_rebuilds(chunks[m - 1].1, chunks[m - 1].1.layers@.len()),
            chunks[i].0,
            z,
        );
        lemma_chunk_rebuilds_count(
            chunks[m - 1].1,
            chunks[m - 1].1.layers@.len(),
            chunks[i].0,
            z,
        );
        if i != m - 1 {
            assert(chunks[i].0 != chunks[m - 1].0);
        }
    }
}

} // verus!
