use voxel_terrain::block::{Block, BlockId, BlockRegistry, Cube, Face, TileTextureId};
use voxel_terrain::chunk::{Border, Chunk};
use voxel_terrain::util::Direction;

fn empty_block() -> Block {
    Block { opaque: false, cubes: Vec::new() }
}

fn full_cube(texture: usize) -> Cube {
    let face = |d: Direction| Face {
        texture: TileTextureId(texture),
        cull: Some(d),
    };
    Cube {
        min: [0, 0, 0],
        max: [16, 16, 16],
        faces: [
            face(Direction::NegX),
            face(Direction::NegY),
            face(Direction::NegZ),
            face(Direction::PosX),
            face(Direction::PosY),
            face(Direction::PosZ),
        ],
    }
}

fn solid_block(texture: usize) -> Block {
    Block { opaque: true, cubes: vec![full_cube(texture)] }
}

/// A block with geometry that does not occlude its neighbors.
fn glass_block(texture: usize) -> Block {
    Block { opaque: false, cubes: vec![full_cube(texture)] }
}

fn two_block_registry() -> BlockRegistry {
    BlockRegistry::new(vec![empty_block(), solid_block(0)])
}

fn zero_borders() -> [Border; 6] {
    [
        Border::new(),
        Border::new(),
        Border::new(),
        Border::new(),
        Border::new(),
        Border::new(),
    ]
}

#[test]
fn border() {
    let registry = two_block_registry();

    let mut chunk = Chunk::new(BlockId(0));
    let pos = [
        (0usize, 1usize, 2usize),
        (3, 0, 4),
        (5, 6, 0),
        (31, 31 - 7, 31 - 8),
        (31 - 9, 31, 31 - 10),
        (31 - 11, 31 - 12, 31),
    ];

    for p in &pos {
        chunk.set(p.0, p.1, p.2, BlockId(1));
    }

    for d in Direction::all() {
        let border = chunk.border(d, &registry);
        let p = pos[d.index()];
        let p2 = Chunk::to_surface(d, p.0, p.1, p.2);

        for y in 0..32usize {
            for x in 0..32usize {
                assert!(
                    border.occupied(x, y) == ((x, y) == p2),
                    "invalid {x} {y}"
                );
            }
        }
    }
}

#[test]
fn rotation() {
    // The canonical rotation maps the border plane onto each face; the
    // surface coordinate (4, 2) lands on these face cells.
    assert_eq!(Chunk::from_surface(Direction::NegZ, 4, 2), (4, 2, 0));
    assert_eq!(Chunk::from_surface(Direction::NegX, 4, 2), (0, 2, 31 - 4));
    assert_eq!(Chunk::from_surface(Direction::PosX, 4, 2), (31, 2, 4));
    assert_eq!(Chunk::from_surface(Direction::PosZ, 4, 2), (31 - 4, 2, 31));
    assert_eq!(Chunk::from_surface(Direction::NegY, 4, 2), (4, 0, 31 - 2));
    assert_eq!(Chunk::from_surface(Direction::PosY, 4, 2), (4, 31, 2));

    // Mapping onto the face and back returns the original coordinate.
    for d in Direction::all() {
        for y in 0..32usize {
            for x in 0..32usize {
                let (px, py, pz) = Chunk::from_surface(d, x, y);
                assert_eq!(Chunk::to_surface(d, px, py, pz), (x, y));
            }
        }
    }

    // The inverse direction points exactly the other way.
    for d in Direction::all() {
        assert_eq!(d.inverse().inverse(), d);
        let (x, y, z) = d.offset();
        let (ix, iy, iz) = d.inverse().offset();
        assert_eq!((x + ix, y + iy, z + iz), (0, 0, 0));
    }
}

#[test]
fn direction_from_offset() {
    assert_eq!(Direction::from_offset(-1, 0, 0), Some(Direction::NegX));
    assert_eq!(Direction::from_offset(0, -2, 0), Some(Direction::NegY));
    assert_eq!(Direction::from_offset(0, 0, -1), Some(Direction::NegZ));
    assert_eq!(Direction::from_offset(1, 0, 0), Some(Direction::PosX));
    assert_eq!(Direction::from_offset(0, 3, 0), Some(Direction::PosY));
    assert_eq!(Direction::from_offset(0, 0, 1), Some(Direction::PosZ));
    assert_eq!(Direction::from_offset(0, 0, 0), None);
    // The negative axes win over the positive ones.
    assert_eq!(Direction::from_offset(-1, 1, 1), Some(Direction::NegX));
    assert_eq!(Direction::from_offset(1, -1, 0), Some(Direction::NegY));
}

#[test]
fn full_occlusion_elides_cell() {
    let registry = two_block_registry();
    let mut chunk = Chunk::new(BlockId(0));

    // A center cell surrounded on all six sides by opaque blocks.
    chunk.set(5, 5, 5, BlockId(1));
    chunk.set(4, 5, 5, BlockId(1));
    chunk.set(6, 5, 5, BlockId(1));
    chunk.set(5, 4, 5, BlockId(1));
    chunk.set(5, 6, 5, BlockId(1));
    chunk.set(5, 5, 4, BlockId(1));
    chunk.set(5, 5, 6, BlockId(1));

    let borders = zero_borders();
    let mesh = chunk.mesh(&borders, &registry);

    // Each of the six outer blocks shows five faces (the one toward the
    // center is culled); the fully occluded center shows none.
    assert_eq!(mesh.quads.len(), 30);

    // No quad lies on the boundary of the hidden center cell.
    for q in &mesh.quads {
        let inside = [q.v0, q.v1, q.v2, q.v3].iter().all(|v| {
            (80..=96).contains(&v.x) && (80..=96).contains(&v.y) && (80..=96).contains(&v.z)
        });
        assert!(!inside, "geometry emitted for the occluded center cell");
    }
}

#[test]
fn no_occlusion_no_border() {
    // Non-opaque geometry everywhere: meshing against all-zero borders
    // must cull nothing, exactly as if the chunk stood alone.
    let registry = BlockRegistry::new(vec![empty_block(), glass_block(3)]);
    let mut chunk = Chunk::new(BlockId(0));
    chunk.set(0, 0, 0, BlockId(1));
    chunk.set(0, 1, 0, BlockId(1));
    chunk.set(31, 31, 31, BlockId(1));

    let borders = zero_borders();
    let mesh = chunk.mesh(&borders, &registry);
    assert_eq!(mesh.quads.len(), 3 * 6);

    // The cell at the origin produces the block's own standalone mesh.
    let standalone = registry.get(BlockId(1)).mesh();
    assert_eq!(&mesh.quads[..6], &standalone.quads[..]);
}

#[test]
fn boundary_culling_via_border() {
    let registry = two_block_registry();

    // A neighbor chunk whose whole NegX face is opaque...
    let neighbor = Chunk::new(BlockId(1));
    let against = neighbor.border(Direction::NegX, &registry);

    // ...culls the PosX faces of blocks flush against that face.
    let mut chunk = Chunk::new(BlockId(0));
    chunk.set(31, 7, 9, BlockId(1));

    let mut borders = zero_borders();
    borders[Direction::PosX.index()] = against;
    let culled = chunk.mesh(&borders, &registry);
    assert_eq!(culled.quads.len(), 5);
    assert!(culled.quads.iter().all(|q| q.dir != Direction::PosX));

    // Against empty borders the same block shows all six faces.
    let open = chunk.mesh(&zero_borders(), &registry);
    assert_eq!(open.quads.len(), 6);
}

#[test]
fn quad_vertices_and_indices() {
    let mut blocks = vec![empty_block()];
    blocks.push(Block { opaque: true, cubes: vec![full_cube(2)] });
    let registry = BlockRegistry::new(blocks);

    let mut chunk = Chunk::new(BlockId(0));
    chunk.set(1, 2, 3, BlockId(1));
    let mesh = chunk.mesh(&zero_borders(), &registry);
    assert_eq!(mesh.quads.len(), 6);

    // The NegZ face of a full cube at cell (1, 2, 3), in sixteenths.
    let q = mesh
        .quads
        .iter()
        .find(|q| q.dir == Direction::NegZ)
        .expect("missing -z face");
    assert_eq!((q.v0.x, q.v0.y, q.v0.z), (16, 32, 48));
    assert_eq!((q.v1.x, q.v1.y, q.v1.z), (16, 48, 48));
    assert_eq!((q.v2.x, q.v2.y, q.v2.z), (32, 48, 48));
    assert_eq!((q.v3.x, q.v3.y, q.v3.z), (32, 32, 48));
    assert_eq!(q.texture, TileTextureId(2));

    // Triangulation is a fixed two-triangle fan per quad.
    let indices = mesh.triangle_indices();
    assert_eq!(indices.len(), 6 * 6);
    assert_eq!(&indices[..12], &[0, 1, 2, 0, 2, 3, 4, 5, 6, 4, 6, 7]);
}

#[test]
fn block_mesh_emits_every_face() {
    let block = solid_block(1);
    let mesh = block.mesh();
    assert_eq!(mesh.quads.len(), 6);
    for (k, d) in Direction::all().into_iter().enumerate() {
        assert_eq!(mesh.quads[k].dir, d);
    }
}

#[test]
fn partial_cube_scales_vertices() {
    // A slab one quarter of a cell tall.
    let mut cube = full_cube(0);
    cube.max = [16, 4, 16];
    let registry = BlockRegistry::new(vec![
        empty_block(),
        Block { opaque: false, cubes: vec![cube] },
    ]);
    let mut chunk = Chunk::new(BlockId(0));
    chunk.set(0, 0, 0, BlockId(1));
    let mesh = chunk.mesh(&zero_borders(), &registry);
    let top = mesh
        .quads
        .iter()
        .find(|q| q.dir == Direction::PosY)
        .expect("missing +y face");
    for v in [top.v0, top.v1, top.v2, top.v3] {
        assert_eq!(v.y, 4);
    }
}
