use voxel_terrain::block::{Block, BlockId, BlockRegistry, Cube, Face, MeshData, TileTextureId};
use voxel_terrain::chunk::Chunk;
use voxel_terrain::generation::{generate_chunk, DensityField, WorldGen};
use voxel_terrain::util::{chebyshev, ChunkPos, Direction};
use voxel_terrain::world::{ChunkState, VoxelWorld};

fn full_cube(texture: usize) -> Cube {
    let face = |d: Direction| Face {
        texture: TileTextureId(texture),
        cull: Some(d),
    };
    Cube {
        min: [0, 0, 0],
        max: [16, 16, 16],
        faces: [
            face(Direction::NegX),
            face(Direction::NegY),
            face(Direction::NegZ),
            face(Direction::PosX),
            face(Direction::PosY),
            face(Direction::PosZ),
        ],
    }
}

/// Air, stone, dirt and grass: the ids the generator writes.
fn world_registry() -> BlockRegistry {
    let solid = |t: usize| Block { opaque: true, cubes: vec![full_cube(t)] };
    BlockRegistry::new(vec![
        Block { opaque: false, cubes: Vec::new() },
        solid(0),
        solid(1),
        solid(2),
    ])
}

fn pos(x: i32, y: i32, z: i32) -> ChunkPos {
    ChunkPos::new(x, y, z)
}

/// A deterministic stand-in for the continuous density field: solid
/// below world height three, air above.
fn flat_density(p: ChunkPos, gen: &WorldGen) -> Option<DensityField> {
    let margin = gen.dirt_height;
    let height = 32 + margin;
    let mut solid = Vec::with_capacity(1024 * height);
    for x in 0..32usize {
        let _ = x;
        for z in 0..32usize {
            let _ = z;
            for y in 0..height {
                let gy = 32 * (p.y as i64) + y as i64;
                solid.push(gy < 3);
            }
        }
    }
    Some(DensityField::new(solid, margin))
}

fn generate_at(p: ChunkPos, gen: &WorldGen) -> Chunk {
    generate_chunk(p, gen, flat_density(p, gen).as_ref())
}

/// Drive the scheduler synchronously until no work is left, meshing one
/// chunk per tick as the real driver would.
fn drain(world: &mut VoxelWorld, center: ChunkPos, vd: u32, registry: &BlockRegistry, gen: &WorldGen) {
    loop {
        let started = world.tick_enqueue(center, vd);
        for p in &started {
            let chunk = generate_at(*p, gen);
            let epoch = world.epoch();
            assert!(world.on_generated(*p, epoch, chunk));
        }
        let mut meshed = false;
        if let Some(job) = world.tick_mesh(center, vd, registry) {
            let chunk = world
                .lookup(job.pos)
                .and_then(|e| e.chunk.clone())
                .expect("meshing without density data");
            let mesh = chunk.mesh(&job.borders, registry);
            assert!(world.on_meshed(job.pos, job.epoch, mesh));
            meshed = true;
        }
        world.evict(center, vd);
        if started.is_empty() && !meshed {
            break;
        }
    }
}

#[test]
fn dependency_closure() {
    let registry = world_registry();
    let gen = WorldGen::default();
    let mut world = VoxelWorld::new(registry.len());
    let center = pos(0, 0, 0);

    let started = world.tick_enqueue(center, 0);
    // One shell of margin around the view radius of zero.
    assert_eq!(started.len(), 27);
    assert_eq!(world.len(), 27);
    assert_eq!(started[0], center);

    let epoch = world.epoch();
    let chunk = generate_at(center, &gen);
    assert!(world.on_generated(center, epoch, chunk));
    {
        let e = world.lookup(center).unwrap();
        // All six neighbors still lack density data.
        assert_eq!(e.state, ChunkState::DensityReady);
        assert_eq!(e.missing_neighbors, 6);
    }

    // The center must not become mesh-eligible before the last of its
    // six face neighbors reports density data.
    let dirs = Direction::all();
    for (k, d) in dirs.into_iter().enumerate() {
        let npos = center.step(d);
        let chunk = generate_at(npos, &gen);
        assert!(world.on_generated(npos, epoch, chunk));
        let e = world.lookup(center).unwrap();
        if k < 5 {
            assert_eq!(e.state, ChunkState::DensityReady);
            assert_eq!(e.missing_neighbors, 5 - k);
        } else {
            assert_eq!(e.state, ChunkState::MeshPending);
            assert_eq!(e.missing_neighbors, 0);
        }
    }

    // A corner neighbor of the center is still waiting for most of its
    // own neighbors.
    let corner = pos(1, 1, 1);
    let chunk = generate_at(corner, &gen);
    assert!(world.on_generated(corner, epoch, chunk));
    let e = world.lookup(corner).unwrap();
    assert_eq!(e.state, ChunkState::DensityReady);
    assert!(e.missing_neighbors > 0);
}

#[test]
fn stale_results_discarded() {
    let registry = world_registry();
    let gen = WorldGen::default();
    let mut world = VoxelWorld::new(registry.len());
    let center = pos(0, 0, 0);

    let started = world.tick_enqueue(center, 0);
    assert!(!started.is_empty());
    let epoch = world.epoch();

    // Wrong epoch: dropped.
    let chunk = generate_at(center, &gen);
    assert!(!world.on_generated(center, epoch + 1, chunk));
    assert_eq!(world.lookup(center).unwrap().state, ChunkState::Generating);

    // No entry at the coordinate: dropped.
    let chunk = generate_at(pos(9, 9, 9), &gen);
    assert!(!world.on_generated(pos(9, 9, 9), epoch, chunk));

    // Result for an entry that is not meshing: dropped.
    assert!(!world.on_meshed(center, epoch, MeshData::new()));

    // After a regenerate, results from the old epoch are dropped even
    // though an entry exists again at the same coordinate.
    world.clear();
    assert_eq!(world.len(), 0);
    world.tick_enqueue(center, 0);
    let chunk = generate_at(center, &gen);
    assert!(!world.on_generated(center, epoch, chunk));
    assert_eq!(world.lookup(center).unwrap().state, ChunkState::Generating);
}

#[test]
fn eviction_idempotent() {
    let registry = world_registry();
    let gen = WorldGen::default();
    let mut world = VoxelWorld::new(registry.len());
    let near = pos(0, 0, 0);
    drain(&mut world, near, 1, &registry, &gen);
    assert_eq!(world.len(), 125);

    // The observer moves far away: everything is out of range.
    let far = pos(100, 0, 0);
    let removed = world.evict(far, 1);
    assert_eq!(removed.len(), 125);
    assert_eq!(world.len(), 0);

    // Evicting the same coordinates a second time removes nothing and
    // does not panic.
    let removed_again = world.evict(far, 1);
    assert_eq!(removed_again.len(), 0);
    assert_eq!(world.len(), 0);

    // An in-range eviction pass is idempotent too.
    drain(&mut world, far, 1, &registry, &gen);
    let removed = world.evict(far, 1);
    assert_eq!(removed.len(), 0);
    let removed = world.evict(far, 1);
    assert_eq!(removed.len(), 0);
}

#[test]
fn eviction_keeps_margin_for_unmeshed() {
    let registry = world_registry();
    let gen = WorldGen::default();
    let mut world = VoxelWorld::new(registry.len());
    let center = pos(0, 0, 0);
    drain(&mut world, center, 1, &registry, &gen);

    // Visible entries are kept only within the view distance, the
    // density-only margin one shell further.
    for i in 0..world.len() {
        let e = world.entry(i);
        let dist = chebyshev(e.pos, center);
        if e.state == ChunkState::Visible {
            assert!(dist <= 1);
        } else {
            assert!(dist <= 2);
        }
    }

    // Moving the observer by one chunk evicts the trailing shell.
    let moved = pos(1, 0, 0);
    let removed = world.evict(moved, 1);
    assert!(!removed.is_empty());
    for p in &removed {
        assert!(chebyshev(*p, moved) > 1);
    }
}

#[test]
fn end_to_end() {
    let registry = world_registry();
    let gen = WorldGen::default();
    let mut world = VoxelWorld::new(registry.len());
    let center = pos(0, 0, 0);

    drain(&mut world, center, 1, &registry, &gen);

    // All 5x5x5 coordinates of the margin exist; the 3x3x3 view block
    // is visible.
    assert_eq!(world.len(), 125);
    let mut visible = 0;
    for x in -1..=1 {
        for y in -1..=1 {
            for z in -1..=1 {
                let e = world.lookup(pos(x, y, z)).expect("missing entry");
                assert_eq!(e.state, ChunkState::Visible);
                let mesh = e.geometry.as_ref().expect("missing geometry");
                if y == 0 {
                    // The ground slab crosses these chunks: the
                    // solid/air boundary must produce geometry.
                    assert!(!mesh.quads.is_empty());
                } else {
                    // Fully buried (y = -1) or pure air (y = 1): no
                    // visible face anywhere.
                    assert!(mesh.quads.is_empty());
                }
                visible += 1;
            }
        }
    }
    assert_eq!(visible, 27);

    // Entries in the margin shell were generated but never meshed.
    let margin = world.lookup(pos(2, 0, 0)).expect("missing margin entry");
    assert!(margin.state != ChunkState::Visible);
    assert!(margin.geometry.is_none());
}

#[test]
fn enqueue_orders_by_shell() {
    let mut world = VoxelWorld::new(4);
    let center = pos(3, -2, 5);
    let started = world.tick_enqueue(center, 2);
    assert_eq!(started.len(), 7 * 7 * 7);
    let mut last = 0;
    for p in &started {
        let d = chebyshev(*p, center);
        assert!(d >= last, "shell order broken");
        last = d;
    }
    assert_eq!(chebyshev(started[0], center), 0);
    assert_eq!(chebyshev(*started.last().unwrap(), center), 3);
}

#[test]
fn regenerate() {
    let registry = world_registry();
    let gen = WorldGen::default();
    let mut world = VoxelWorld::new(registry.len());
    let center = pos(0, 0, 0);

    drain(&mut world, center, 1, &registry, &gen);
    let epoch_before = world.epoch();
    let mut first: Vec<(ChunkPos, MeshData)> = Vec::new();
    for x in -1..=1 {
        for y in -1..=1 {
            for z in -1..=1 {
                let e = world.lookup(pos(x, y, z)).unwrap();
                first.push((pos(x, y, z), e.geometry.clone().unwrap()));
            }
        }
    }

    // The regenerate signal empties the map immediately and moves to
    // the next epoch.
    world.clear();
    assert_eq!(world.len(), 0);
    assert_eq!(world.epoch(), epoch_before + 1);

    // Repopulating with unchanged parameters reproduces the exact same
    // geometry.
    drain(&mut world, center, 1, &registry, &gen);
    for (p, mesh) in &first {
        let e = world.lookup(*p).unwrap();
        assert_eq!(e.geometry.as_ref().unwrap(), mesh);
    }
}

#[test]
fn world_positions() {
    assert_eq!(VoxelWorld::world_pos(pos(2, -1, 0)), (64, -32, 0));
    assert_eq!(chebyshev(pos(3, 1, -4), pos(0, 0, 0)), 4);
    assert_eq!(chebyshev(pos(1, 1, 1), pos(1, 1, 1)), 0);
}
