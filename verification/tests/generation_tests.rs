use voxel_terrain::block::BlockId;
use voxel_terrain::generation::{generate_chunk, DensityField, WorldGen, AIR, DIRT, GRASS, STONE};
use voxel_terrain::util::ChunkPos;

fn pos(x: i32, y: i32, z: i32) -> ChunkPos {
    ChunkPos::new(x, y, z)
}

/// Build a density field from a predicate over local coordinates; `y`
/// reaches `margin` cells above the chunk.
fn density_from(margin: usize, solid: impl Fn(usize, usize, usize) -> bool) -> DensityField {
    let height = 32 + margin;
    let mut samples = Vec::with_capacity(1024 * height);
    for x in 0..32 {
        for z in 0..32 {
            for y in 0..height {
                samples.push(solid(x, y, z));
            }
        }
    }
    DensityField::new(samples, margin)
}

#[test]
fn defaults() {
    let gen = WorldGen::default();
    assert_eq!(gen.height_min, -128);
    assert_eq!(gen.height_max, 128);
    assert_eq!(gen.dirt_height, 2);
    assert_eq!(gen.dirt_min, -64);
    assert_eq!(gen.dirt_max, 64);
}

#[test]
fn uniform_shortcuts() {
    let gen = WorldGen::default();

    // Chunks entirely above the height range are pure air, entirely
    // below it pure stone; neither needs any density samples.
    let air = generate_chunk(pos(0, 5, 0), &gen, None);
    let stone = generate_chunk(pos(0, -6, 0), &gen, None);
    for x in 0..32 {
        for y in 0..32 {
            for z in 0..32 {
                assert_eq!(air.get(x, y, z), BlockId(AIR));
                assert_eq!(stone.get(x, y, z), BlockId(STONE));
            }
        }
    }

    // One chunk closer to the band, density is consulted.
    let d = density_from(gen.dirt_height, |_, _, _| false);
    let edge = generate_chunk(pos(0, 4, 0), &gen, Some(&d));
    assert_eq!(edge.get(0, 0, 0), BlockId(AIR));
}

#[test]
fn layering() {
    let gen = WorldGen::default();
    // Chunk at height zero: global heights equal local ones, inside the
    // dirt band. Four columns with different overburden:
    //   x = 0: ground ends at y = 10 (air above): grass on top.
    //   x = 1: one solid cell above y = 10, air at y = 12: dirt.
    //   x = 2: solid for the whole scan height: stone despite the band.
    //   x = 3: nothing solid at all: air.
    let d = density_from(gen.dirt_height, |x, y, _| match x {
        0 => y <= 10,
        1 => y <= 11,
        2 => true,
        _ => false,
    });
    let chunk = generate_chunk(pos(0, 0, 0), &gen, Some(&d));

    assert_eq!(chunk.get(0, 10, 0), BlockId(GRASS));
    assert_eq!(chunk.get(0, 9, 0), BlockId(DIRT));
    assert_eq!(chunk.get(0, 8, 0), BlockId(STONE));

    assert_eq!(chunk.get(1, 11, 0), BlockId(GRASS));
    assert_eq!(chunk.get(1, 10, 0), BlockId(DIRT));
    assert_eq!(chunk.get(1, 9, 0), BlockId(STONE));

    assert_eq!(chunk.get(2, 10, 0), BlockId(STONE));
    assert_eq!(chunk.get(2, 31, 0), BlockId(STONE));

    assert_eq!(chunk.get(3, 10, 0), BlockId(AIR));
}

#[test]
fn layering_outside_dirt_band() {
    let gen = WorldGen::default();
    // Chunk at height 64..96: above the dirt band, so even cells right
    // under open air stay stone.
    let d = density_from(gen.dirt_height, |_, y, _| y <= 10);
    let chunk = generate_chunk(pos(0, 2, 0), &gen, Some(&d));
    assert_eq!(chunk.get(5, 10, 5), BlockId(STONE));
    assert_eq!(chunk.get(5, 9, 5), BlockId(STONE));
    assert_eq!(chunk.get(5, 11, 5), BlockId(AIR));
}

#[test]
fn layering_uses_margin_above_chunk() {
    let gen = WorldGen::default();
    // Solid everywhere except one opening just above the chunk top,
    // inside the margin: the top cell becomes dirt (the opening is two
    // cells up), not grass and not stone.
    let d = density_from(gen.dirt_height, |x, y, z| !(x == 7 && z == 7 && y == 33));
    let chunk = generate_chunk(pos(0, 0, 0), &gen, Some(&d));
    assert_eq!(chunk.get(7, 31, 7), BlockId(DIRT));
    // A column without the opening stays stone.
    assert_eq!(chunk.get(8, 31, 8), BlockId(STONE));
}

#[test]
fn dirt_band_boundaries() {
    let gen = WorldGen::default();
    // Ground with open air above every cell; the chunk spans global
    // heights 32..64, so the band edge at 64 is just above it.
    let d = density_from(gen.dirt_height, |_, y, _| y <= 30);
    let chunk = generate_chunk(pos(0, 1, 0), &gen, Some(&d));
    // Global height 62 (local 30) is inside the band: grass.
    assert_eq!(chunk.get(0, 30, 0), BlockId(GRASS));

    // The same shape one chunk higher sits entirely at or above the
    // band's exclusive upper end: all stone.
    let chunk = generate_chunk(pos(0, 2, 0), &gen, Some(&d));
    assert_eq!(chunk.get(0, 30, 0), BlockId(STONE));
}
