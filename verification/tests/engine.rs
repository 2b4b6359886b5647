use tilemap_engine::event::Entity;
use tilemap_engine::event::Events;
use tilemap_engine::event::ModifiedEntry;
use tilemap_engine::event::TilemapChunkEvent;
use tilemap_engine::geometry::Dimension2;
use tilemap_engine::geometry::GridTopology;
use tilemap_engine::geometry::Point2;
use tilemap_engine::geometry::placement;
use tilemap_engine::system::auto_spawn;
use tilemap_engine::system::tilemap_chunk_auto_radius;
use tilemap_engine::system::tilemap_chunk_modified;
use tilemap_engine::system::tilemap_chunk_update;
use tilemap_engine::system::tilemap_events;
use tilemap_engine::system::tilemap_update_events;
use tilemap_engine::tilemap::TileLayer;
use tilemap_engine::tilemap::LayerKind;
use tilemap_engine::tilemap::Tilemap;
use tilemap_engine::tilemap::TilemapError;

fn basic_map(width: Option<u32>, height: Option<u32>) -> Tilemap {
    Tilemap::new(
        GridTopology::Square,
        Dimension2::new(16, 16),
        Dimension2::new(4, 4),
        Dimension2::new(32, 32),
        width,
        height,
        vec![Some(TileLayer { kind: LayerKind::Dense })],
    )
}

fn spawned_points(map: &Tilemap) -> Vec<(i32, i32)> {
    let mut pts: Vec<(i32, i32)> = map.spawned_chunks.iter().map(|p| (p.x, p.y)).collect();
    pts.sort();
    pts
}

#[test]
fn window_is_three_by_three_block() {
    let mut map = basic_map(None, None);
    auto_spawn(&mut map, 0, 0, Dimension2::new(1, 1));
    let mut reader = map.events.chunk_events.get_reader();
    let batch = reader.drain(&map.events.chunk_events);
    let mut pts: Vec<(i32, i32)> = Vec::new();
    for ev in batch {
        match ev {
            TilemapChunkEvent::Spawned { point } => pts.push((point.x, point.y)),
            _ => panic!("only spawn events expected"),
        }
    }
    pts.sort();
    let mut expected: Vec<(i32, i32)> = Vec::new();
    for x in -1..=1 {
        for y in -1..=1 {
            expected.push((x, y));
        }
    }
    expected.sort();
    assert_eq!(pts, expected);
}

#[test]
fn window_materializes_after_event_pass() {
    let mut map = basic_map(None, None);
    auto_spawn(&mut map, 0, 0, Dimension2::new(1, 1));
    let mut reader = map.events.chunk_events.get_reader();
    let (destroyed, errs) = tilemap_events(&mut map, &mut reader);
    assert!(destroyed.is_empty());
    assert!(errs.is_empty());
    assert_eq!(map.spawned_chunks.len(), 9);
    assert!(map.contains_chunk(Point2::new(1, 1)));
    // one render entity per chunk layer was minted
    assert_eq!(map.next_entity, 9);
}

#[test]
fn bounded_map_clips_requests() {
    // width 40 tiles, chunks 10 tiles wide: |chunk.x| <= (40 / 10) / 2 = 2
    let mut map = Tilemap::new(
        GridTopology::Square,
        Dimension2::new(16, 16),
        Dimension2::new(10, 10),
        Dimension2::new(32, 32),
        Some(40),
        None,
        vec![Some(TileLayer { kind: LayerKind::Dense })],
    );
    assert_eq!(
        map.spawn_chunk(Point2::new(5, 0)),
        Err(TilemapError::OutOfBounds(Point2::new(5, 0)))
    );
    assert_eq!(map.spawn_chunk(Point2::new(2, 0)), Ok(()));
    assert_eq!(map.spawn_chunk(Point2::new(-2, 0)), Ok(()));
    assert_eq!(
        map.spawn_chunk(Point2::new(3, 0)),
        Err(TilemapError::OutOfBounds(Point2::new(3, 0)))
    );
}

#[test]
fn bounded_window_is_clipped() {
    let mut map = Tilemap::new(
        GridTopology::Square,
        Dimension2::new(16, 16),
        Dimension2::new(10, 10),
        Dimension2::new(32, 32),
        Some(40),
        None,
        vec![Some(TileLayer { kind: LayerKind::Dense })],
    );
    auto_spawn(&mut map, 0, 0, Dimension2::new(4, 0));
    let mut reader = map.events.chunk_events.get_reader();
    let (_, errs) = tilemap_events(&mut map, &mut reader);
    assert!(errs.is_empty());
    // x ranges over -2..=2 only, y fixed at 0
    assert_eq!(
        spawned_points(&map),
        vec![(-2, 0), (-1, 0), (0, 0), (1, 0), (2, 0)]
    );
}

#[test]
fn square_placement_round_trip() {
    let t = placement(
        GridTopology::Square,
        Point2::new(2, 3),
        Dimension2::new(16, 16),
        Dimension2::new(8, 8),
    );
    // world translation (256, 384), stored in half-pixel units
    assert_eq!(t.half_x, 2 * 256);
    assert_eq!(t.half_y, 2 * 384);
    assert_eq!(t.half_x as f32 / 2.0, 256.0);
    assert_eq!(t.half_y as f32 / 2.0, 384.0);
}

#[test]
fn hex_x_row_bleed() {
    // HexX: one step along x shifts the y-translation by half a chunk of
    // pixels: 0.5 * chunk.width * tile.height = 64 world units here
    let tile = Dimension2::new(16, 16);
    let chunk = Dimension2::new(8, 8);
    let a = placement(GridTopology::HexX, Point2::new(1, 5), tile, chunk);
    let b = placement(GridTopology::HexX, Point2::new(2, 5), tile, chunk);
    assert_eq!(b.half_y - a.half_y, 8 * 16);
    assert_eq!((b.half_y - a.half_y) as f32 / 2.0, 64.0);
    // and the x-translation of HexX does not depend on y at all
    let c = placement(GridTopology::HexX, Point2::new(1, 6), tile, chunk);
    assert_eq!(c.half_x, a.half_x);
}

#[test]
fn hex_y_column_bleed() {
    // HexY: one step along y shifts the x-translation by
    // 0.5 * chunk.height * tile.width = 64 world units here
    let tile = Dimension2::new(16, 16);
    let chunk = Dimension2::new(8, 8);
    let a = placement(GridTopology::HexY, Point2::new(4, 1), tile, chunk);
    let b = placement(GridTopology::HexY, Point2::new(4, 2), tile, chunk);
    assert_eq!(b.half_x - a.half_x, 8 * 16);
}

#[test]
fn hex_stagger_truncates_after_multiplying() {
    // column stagger: floor(chunk.x * tile_width * 0.75) * chunk_width
    let t = placement(
        GridTopology::HexEvenCols,
        Point2::new(3, 0),
        Dimension2::new(10, 10),
        Dimension2::new(4, 4),
    );
    // floor(3 * 10 * 0.75) = 22, times 4 chunk columns, in half-pixels
    assert_eq!(t.half_x, 2 * 22 * 4);
    // negative coordinates round toward negative infinity
    let n = placement(
        GridTopology::HexEvenCols,
        Point2::new(-3, 0),
        Dimension2::new(10, 10),
        Dimension2::new(4, 4),
    );
    assert_eq!(n.half_x, 2 * -23 * 4);
}

#[test]
fn spawning_twice_is_idempotent() {
    let mut map = basic_map(None, None);
    assert_eq!(map.spawn_chunk(Point2::new(0, 0)), Ok(()));
    assert_eq!(map.spawn_chunk(Point2::new(0, 0)), Ok(()));
    let mut reader = map.events.chunk_events.get_reader();
    let (_, errs) = tilemap_events(&mut map, &mut reader);
    assert!(errs.is_empty());
    assert_eq!(map.spawned_chunks.len(), 1);
    // the second request minted nothing: one layer, one entity
    assert_eq!(map.next_entity, 1);
    assert_eq!(map.next_mesh, 1);
}

#[test]
fn despawn_removes_resident_chunks_once() {
    let mut map = basic_map(None, None);
    auto_spawn(&mut map, 0, 0, Dimension2::new(1, 1));
    let mut reader = map.events.chunk_events.get_reader();
    tilemap_events(&mut map, &mut reader);
    assert_eq!(map.spawned_chunks.len(), 9);
    // shift the window one chunk to the right (camera in tile units)
    auto_spawn(&mut map, 4, 0, Dimension2::new(1, 1));
    // an independent consumer may inspect the same events (fan-out)
    let mut peek = map.events.chunk_events.get_reader();
    let batch = peek.drain(&map.events.chunk_events);
    let mut despawned: Vec<(i32, i32)> = Vec::new();
    for ev in &batch {
        if let TilemapChunkEvent::Despawned { entities, point } = ev {
            assert_eq!(entities.len(), 1);
            despawned.push((point.x, point.y));
        }
    }
    despawned.sort();
    // the column at x == -1 left the window: despawned exactly once each
    assert_eq!(despawned, vec![(-1, -1), (-1, 0), (-1, 1)]);
    let pts = spawned_points(&map);
    assert_eq!(pts.len(), 6);
    assert!(!pts.contains(&(-1, 0)));
    let (destroyed, _) = tilemap_events(&mut map, &mut reader);
    assert_eq!(destroyed.len(), 3);
    assert_eq!(map.spawned_chunks.len(), 9);
}

#[test]
fn event_fan_out_to_independent_consumers() {
    let mut q = Events::new();
    q.publish(TilemapChunkEvent::Spawned { point: Point2::new(1, 2) });
    q.publish(TilemapChunkEvent::Spawned { point: Point2::new(3, 4) });
    q.publish(TilemapChunkEvent::Despawned { entities: vec![Entity { id: 7 }], point: Point2::new(1, 2) });
    let mut r1 = q.get_reader();
    let mut r2 = q.get_reader();
    let seen1 = r1.drain(&q);
    let seen2 = r2.drain(&q);
    assert_eq!(seen1.len(), 3);
    assert_eq!(seen2.len(), 3);
    for (a, b) in seen1.iter().zip(seen2.iter()) {
        match (a, b) {
            (
                TilemapChunkEvent::Spawned { point: pa },
                TilemapChunkEvent::Spawned { point: pb },
            ) => assert_eq!(pa, pb),
            (
                TilemapChunkEvent::Despawned { entities: ea, point: pa },
                TilemapChunkEvent::Despawned { entities: eb, point: pb },
            ) => {
                assert_eq!(ea, eb);
                assert_eq!(pa, pb);
            }
            _ => panic!("consumers saw different events"),
        }
    }
    // a second drain of the same consumer yields nothing new
    assert!(r1.drain(&q).is_empty());
}

#[test]
fn queue_retains_two_generations() {
    let mut q = Events::new();
    q.publish(TilemapChunkEvent::Spawned { point: Point2::new(0, 0) });
    q.update();
    q.publish(TilemapChunkEvent::Spawned { point: Point2::new(1, 0) });
    // a fresh consumer still observes the previous tick's event
    let mut r = q.get_reader();
    assert_eq!(r.drain(&q).len(), 2);
    q.update();
    let mut late = q.get_reader();
    assert_eq!(late.drain(&q).len(), 1);
    q.update();
    let mut very_late = q.get_reader();
    assert!(very_late.drain(&q).is_empty());
}

#[test]
fn dirty_tracking_rebuilds_touched_layer_once() {
    let mut map = basic_map(None, None);
    map.spawn_chunk(Point2::new(0, 0)).unwrap();
    let mut reader = map.events.chunk_events.get_reader();
    tilemap_events(&mut map, &mut reader);
    // freshly spawned entries are clean: nothing to rebuild
    let (rebuilds, errs) = tilemap_chunk_update(&mut map);
    assert!(rebuilds.is_empty());
    assert!(errs.is_empty());
    // touch the layer-entry once
    let entity = map.chunks[0].1.get_entity(0).unwrap();
    map.events.chunk_events.publish(TilemapChunkEvent::Modified {
        layers: vec![ModifiedEntry { z_order: 0, entity }],
    });
    let errs = tilemap_chunk_modified(&mut map, &mut reader);
    assert!(errs.is_empty());
    let (rebuilds, _) = tilemap_chunk_update(&mut map);
    assert_eq!(rebuilds.len(), 1);
    assert_eq!(rebuilds[0].point, Point2::new(0, 0));
    assert_eq!(rebuilds[0].z_order, 0);
    // and only once: the next pass finds it clean again
    let (again, _) = tilemap_chunk_update(&mut map);
    assert!(again.is_empty());
}

#[test]
fn untouched_layer_never_rebuilds() {
    let mut map = basic_map(None, None);
    map.spawn_chunk(Point2::new(0, 0)).unwrap();
    map.spawn_chunk(Point2::new(1, 0)).unwrap();
    let mut reader = map.events.chunk_events.get_reader();
    tilemap_events(&mut map, &mut reader);
    let touched = map.chunks[0].1.get_entity(0).unwrap();
    for _ in 0..5 {
        map.events.chunk_events.publish(TilemapChunkEvent::Modified {
            layers: vec![ModifiedEntry { z_order: 0, entity: touched }],
        });
        tilemap_chunk_modified(&mut map, &mut reader);
        let (rebuilds, _) = tilemap_chunk_update(&mut map);
        for r in &rebuilds {
            assert_eq!(r.point, Point2::new(0, 0));
        }
        tilemap_update_events(&mut map);
    }
}

#[test]
fn modified_event_for_unknown_entity_is_reported() {
    let mut map = basic_map(None, None);
    map.events.chunk_events.publish(TilemapChunkEvent::Modified {
        layers: vec![ModifiedEntry { z_order: 0, entity: Entity { id: 999 } }],
    });
    let mut reader = map.events.chunk_events.get_reader();
    let errs = tilemap_chunk_modified(&mut map, &mut reader);
    assert_eq!(errs, vec![TilemapError::LayerEntryMissing(Entity { id: 999 })]);
}

#[test]
fn despawning_unknown_chunk_fails() {
    let mut map = basic_map(None, None);
    assert_eq!(
        map.despawn_chunk(Point2::new(9, 9)),
        Err(TilemapError::ChunkLookupFailed(Point2::new(9, 9)))
    );
}

#[test]
fn missing_tile_data_is_reported_and_retried() {
    let mut map = basic_map(None, None);
    map.spawn_chunk(Point2::new(0, 0)).unwrap();
    let mut reader = map.events.chunk_events.get_reader();
    tilemap_events(&mut map, &mut reader);
    let entity = map.chunks[0].1.get_entity(0).unwrap();
    // the host reports that the tile storage lost this layer's data
    map.chunks[0].1.tiles_present[0] = false;
    map.events.chunk_events.publish(TilemapChunkEvent::Modified {
        layers: vec![ModifiedEntry { z_order: 0, entity }],
    });
    tilemap_chunk_modified(&mut map, &mut reader);
    let (rebuilds, errs) = tilemap_chunk_update(&mut map);
    assert!(rebuilds.is_empty());
    assert_eq!(
        errs,
        vec![TilemapError::TileDataUnavailable { point: Point2::new(0, 0), z_order: 0 }]
    );
    // data returns: the entry is still dirty and is rebuilt now
    map.chunks[0].1.tiles_present[0] = true;
    let (rebuilds, errs) = tilemap_chunk_update(&mut map);
    assert_eq!(rebuilds.len(), 1);
    assert!(errs.is_empty());
}

#[test]
fn viewport_resize_recomputes_radius() {
    let mut map = basic_map(None, None);
    // chunk pixel size is 4 * 16 = 64 per axis
    tilemap_chunk_auto_radius(&mut map, Dimension2::new(100, 80), 0, 0);
    assert_eq!(map.auto_spawn, Some(Dimension2::new(3, 3)));
    let mut reader = map.events.chunk_events.get_reader();
    tilemap_events(&mut map, &mut reader);
    assert_eq!(map.spawned_chunks.len(), 49);
}

#[test]
fn spawn_event_for_missing_chunk_is_reported() {
    let mut map = basic_map(None, None);
    // a spawn notification for a coordinate nobody created
    map.events.chunk_events.publish(TilemapChunkEvent::Spawned { point: Point2::new(7, 7) });
    let mut reader = map.events.chunk_events.get_reader();
    let (_, errs) = tilemap_events(&mut map, &mut reader);
    assert_eq!(errs, vec![TilemapError::ChunkLookupFailed(Point2::new(7, 7))]);
    assert!(map.spawned_chunks.is_empty());
}
