use vstd::prelude::*;

use crate::util::Direction;

verus! {

/// Number of fractional subdivisions of one block cell along each axis:
/// cube corners are given in sixteenths of a cell.
pub const CUBE_MAX: u16 = 16;

/// Id of a block appearance: an index into the block registry.
#[derive(Debug, Clone, Copy, PartialEq, Eq, Hash, Structural)]
pub struct BlockId(pub u16);

/// Id of a tile in the texture atlas; the atlas itself is composed by an
/// external collaborator, the meshing code only carries the id through.
#[derive(Debug, Clone, Copy, PartialEq, Eq, Structural)]
pub struct TileTextureId(pub usize);

/// One face of a cube: its texture, and the direction whose occupied
/// neighbor makes the face invisible (if any).
#[derive(Debug, Clone, Copy, PartialEq, Eq)]
pub struct Face {
    pub texture: TileTextureId,
    /// If the block one step in this direction is opaque, the face is
    /// omitted from the mesh.
    pub cull: Option<Direction>,
}

/// An axis-aligned sub-box of a block, with corners in sixteenths of a
/// cell and one face definition per direction (indexed canonically).
#[derive(Debug, Clone, PartialEq)]
pub struct Cube {
    pub min: [u16; 3],
    pub max: [u16; 3],
    pub faces: [Face; 6],
}

impl Cube {
    /// Corners are ordered and stay inside the cell's subdivision range.
    pub open spec fn wf(self) -> bool {
        &&& self.min[0] <= self.max[0] <= 16
        &&& self.min[1] <= self.max[1] <= 16
        &&& self.min[2] <= self.max[2] <= 16
    }
}

/// Appearance of one block: whether it occludes its neighbors, and the
/// cubes that make up its mesh.
#[derive(Debug, Clone, PartialEq)]
pub struct Block {
    /// If this block fills its cell, adjacent faces may be culled.
    pub opaque: bool,
    pub cubes: Vec<Cube>,
}

impl Block {
    pub open spec fn wf(self) -> bool {
        forall|i: int| 0 <= i < self.cubes@.len() ==> (#[trigger] self.cubes@[i]).wf()
    }

    /// The complete mesh of this block alone: no neighbor is occupied,
    /// so every face of every cube is emitted, at the cell origin.
    pub fn mesh(&self) -> (m: MeshData)
        requires
            self.wf(),
        ensures
            m.quads@ == block_quads(0, 0, 0, *self, seq![false, false, false, false, false, false]),
    {
        let mut quads: Vec<Quad> = Vec::new();
        let occupied: [bool; 6] = [false, false, false, false, false, false];
        assert(occupied@ =~= seq![false, false, false, false, false, false]);
        let mut i: usize = 0;
        while i < self.cubes.len()
            invariant
                i <= self.cubes.len(),
                quads@ == block_quads_upto(0, 0, 0, self.cubes@, occupied@, i as int),
            decreases self.cubes.len() - i,
        {
            self.cubes[i].mesh(0, 0, 0, occupied, &mut quads);
            i = i + 1;
        }
        MeshData { quads }
    }
}

/// The registry of block appearances: `BlockId(i)` resolves to the entry
/// at index `i`. Built once before any terrain work and read-only after.
#[derive(Debug, Clone)]
pub struct BlockRegistry {
    pub blocks: Vec<Block>,
}

impl BlockRegistry {
    pub open spec fn wf(self) -> bool {
        forall|i: int| 0 <= i < self.blocks@.len() ==> (#[trigger] self.blocks@[i]).wf()
    }

    /// Whether `id` resolves to an opaque block.
    pub open spec fn opaque_spec(self, id: BlockId) -> bool {
        self.blocks@[id.0 as int].opaque
    }

    pub fn new(blocks: Vec<Block>) -> (r: BlockRegistry)
        ensures
            r.blocks == blocks,
    {
        BlockRegistry { blocks }
    }

    pub fn len(&self) -> (r: usize)
        ensures
            r == self.blocks@.len(),
    {
        self.blocks.len()
    }

    /// Resolve a block id; an unknown id is a configuration error and is
    /// excluded up front.
    pub fn get(&self, id: BlockId) -> (r: &Block)
        requires
            (id.0 as int) < self.blocks@.len(),
        ensures
            *r == self.blocks@[id.0 as int],
    {
        &self.blocks[id.0 as usize]
    }

    pub fn opaque(&self, id: BlockId) -> (r: bool)
        requires
            (id.0 as int) < self.blocks@.len(),
        ensures
            r == self.opaque_spec(id),
    {
        self.blocks[id.0 as usize].opaque
    }
}

/// A vertex of the chunk mesh, in sixteenths of a cell (so a whole chunk
/// spans 0..=512 on each axis).
#[derive(Debug, Clone, Copy, PartialEq, Eq, Structural)]
pub struct Vertex {
    pub x: u16,
    pub y: u16,
    pub z: u16,
}

/// One rectangular face of the mesh: four corners wound consistently,
/// the shared normal direction, and the texture of the face.
#[derive(Debug, Clone, Copy, PartialEq, Eq, Structural)]
pub struct Quad {
    pub dir: Direction,
    pub texture: TileTextureId,
    pub v0: Vertex,
    pub v1: Vertex,
    pub v2: Vertex,
    pub v3: Vertex,
}

/// Surface geometry as a list of quads; triangulation is a fixed fan of
/// two triangles per quad with a fixed winding.
#[derive(Debug, Clone, PartialEq)]
pub struct MeshData {
    pub quads: Vec<Quad>,
}

impl MeshData {
    pub fn new() -> (m: MeshData)
        ensures
            m.quads@.len() == 0,
    {
        MeshData { quads: Vec::new() }
    }

    /// The triangle index list: quad `k` becomes the fan
    /// `[4k, 4k+1, 4k+2, 4k, 4k+2, 4k+3]` over its four vertices.
    pub fn triangle_indices(&self) -> (r: Vec<u32>)
        requires
            self.quads@.len() <= 0x3fff_ffff,
        ensures
            r@.len() == 6 * self.quads@.len(),
            forall|k: int| 0 <= k < self.quads@.len() ==> {
                &&& #[trigger] r@[6 * k] == 4 * k
                &&& r@[6 * k + 1] == 4 * k + 1
                &&& r@[6 * k + 2] == 4 * k + 2
                &&& r@[6 * k + 3] == 4 * k
                &&& r@[6 * k + 4] == 4 * k + 2
                &&& r@[6 * k + 5] == 4 * k + 3
            },
    {
        let mut r: Vec<u32> = Vec::new();
        let mut k: usize = 0;
        while k < self.quads.len()
            invariant
                k <= self.quads@.len(),
                self.quads@.len() <= 0x3fff_ffff,
                r@.len() == 6 * k,
                forall|j: int| 0 <= j < k ==> {
                    &&& #[trigger] r@[6 * j] == 4 * j
                    &&& r@[6 * j + 1] == 4 * j + 1
                    &&& r@[6 * j + 2] == 4 * j + 2
                    &&& r@[6 * j + 3] == 4 * j
                    &&& r@[6 * j + 4] == 4 * j + 2
                    &&& r@[6 * j + 5] == 4 * j + 3
                },
            decreases self.quads@.len() - k,
        {
            let base: u32 = 4 * (k as u32);
            let ghost r0 = r@;
            r.push(base);
            r.push(base + 1);
            r.push(base + 2);
            r.push(base);
            r.push(base + 2);
            r.push(base + 3);
            proof {
                assert forall|j: int| 0 <= j < k + 1 implies {
                    &&& #[trigger] r@[6 * j] == 4 * j
                    &&& r@[6 * j + 1] == 4 * j + 1
                    &&& r@[6 * j + 2] == 4 * j + 2
                    &&& r@[6 * j + 3] == 4 * j
                    &&& r@[6 * j + 4] == 4 * j + 2
                    &&& r@[6 * j + 5] == 4 * j + 3
                } by {
                    if j < k {
                        assert(r@[6 * j] == r0[6 * j]);
                        assert(r@[6 * j + 1] == r0[6 * j + 1]);
                        assert(r@[6 * j + 2] == r0[6 * j + 2]);
                        assert(r@[6 * j + 3] == r0[6 * j + 3]);
                        assert(r@[6 * j + 4] == r0[6 * j + 4]);
                        assert(r@[6 * j + 5] == r0[6 * j + 5]);
                    } else {
                        assert(r@[6 * j] == 4 * j);
                        assert(r@[6 * j + 1] == 4 * j + 1);
                        assert(r@[6 * j + 2] == 4 * j + 2);
                        assert(r@[6 * j + 3] == 4 * j);
                        assert(r@[6 * j + 4] == 4 * j + 2);
                        assert(r@[6 * j + 5] == 4 * j + 3);
                    }
                }
            }
            k = k + 1;
        }
        r
    }
}

/// Which extreme corner (false: `min`, true: `max`) the `k`-th vertex of a
/// face in direction `d` takes on each axis. This is the canonical face
/// template (four corners, wound consistently) rotated into direction `d`;
/// the same rotation convention underlies the chunk border surface
/// parameterization.
pub open spec fn corner_sel(d: Direction, k: int) -> (bool, bool, bool) {
    match d {
        Direction::NegX => {
            if k == 0 { (false, false, true) }
            else if k == 1 { (false, true, true) }
            else if k == 2 { (false, true, false) }
            else { (false, false, false) }
        },
        Direction::NegY => {
            if k == 0 { (false, false, true) }
            else if k == 1 { (false, false, false) }
            else if k == 2 { (true, false, false) }
            else { (true, false, true) }
        },
        Direction::NegZ => {
            if k == 0 { (false, false, false) }
            else if k == 1 { (false, true, false) }
            else if k == 2 { (true, true, false) }
            else { (true, false, false) }
        },
        Direction::PosX => {
            if k == 0 { (true, false, false) }
            else if k == 1 { (true, true, false) }
            else if k == 2 { (true, true, true) }
            else { (true, false, true) }
        },
        Direction::PosY => {
            if k == 0 { (false, true, false) }
            else if k == 1 { (false, true, true) }
            else if k == 2 { (true, true, true) }
            else { (true, true, false) }
        },
        Direction::PosZ => {
            if k == 0 { (true, false, true) }
            else if k == 1 { (true, true, true) }
            else if k == 2 { (false, true, true) }
            else { (false, false, true) }
        },
    }
}

pub open spec fn sel_coord(sel: bool, lo: u16, hi: u16) -> int {
    if sel {
        hi as int
    } else {
        lo as int
    }
}

/// The `k`-th vertex of the face of `cube` in direction `d`, for the cube
/// placed at cell `(cx, cy, cz)`: sixteen units per cell, plus the chosen
/// extreme corner of the cube on each axis.
pub open spec fn face_vertex(cx: int, cy: int, cz: int, cube: Cube, d: Direction, k: int) -> Vertex {
    let (sx, sy, sz) = corner_sel(d, k);
    Vertex {
        x: (16 * cx + sel_coord(sx, cube.min[0], cube.max[0])) as u16,
        y: (16 * cy + sel_coord(sy, cube.min[1], cube.max[1])) as u16,
        z: (16 * cz + sel_coord(sz, cube.min[2], cube.max[2])) as u16,
    }
}

/// The quad emitted for the face of `cube` in direction `d` at cell
/// `(cx, cy, cz)`.
pub open spec fn face_quad(cx: int, cy: int, cz: int, cube: Cube, d: Direction) -> Quad {
    Quad {
        dir: d,
        texture: cube.faces[d.index_spec()].texture,
        v0: face_vertex(cx, cy, cz, cube, d, 0),
        v1: face_vertex(cx, cy, cz, cube, d, 1),
        v2: face_vertex(cx, cy, cz, cube, d, 2),
        v3: face_vertex(cx, cy, cz, cube, d, 3),
    }
}

/// A face is kept unless its cull direction points at an occupied
/// neighbor. A face with no cull direction is always kept.
pub open spec fn face_kept(f: Face, d: Direction, occ_d: bool) -> bool {
    !(f.cull == Some(d) && occ_d)
}

/// The quads contributed by one face of a cube: one quad if kept, none if
/// culled.
pub open spec fn face_quads_opt(cx: int, cy: int, cz: int, cube: Cube, d: Direction, occ: Seq<bool>) -> Seq<Quad> {
    if face_kept(cube.faces[d.index_spec()], d, occ[d.index_spec()]) {
        seq![face_quad(cx, cy, cz, cube, d)]
    } else {
        Seq::empty()
    }
}

/// The quads of one cube at a cell, in canonical direction order.
pub open spec fn cube_quads(cx: int, cy: int, cz: int, cube: Cube, occ: Seq<bool>) -> Seq<Quad> {
    face_quads_opt(cx, cy, cz, cube, Direction::NegX, occ)
        + face_quads_opt(cx, cy, cz, cube, Direction::NegY, occ)
        + face_quads_opt(cx, cy, cz, cube, Direction::NegZ, occ)
        + face_quads_opt(cx, cy, cz, cube, Direction::PosX, occ)
        + face_quads_opt(cx, cy, cz, cube, Direction::PosY, occ)
        + face_quads_opt(cx, cy, cz, cube, Direction::PosZ, occ)
}

/// The quads of the first `n` cubes of a block, in order.
pub open spec fn block_quads_upto(cx: int, cy: int, cz: int, cubes: Seq<Cube>, occ: Seq<bool>, n: int) -> Seq<Quad>
    decreases n,
{
    if n <= 0 {
        Seq::empty()
    } else {
        block_quads_upto(cx, cy, cz, cubes, occ, n - 1) + cube_quads(cx, cy, cz, cubes[n - 1], occ)
    }
}

/// All quads of a block at a cell, given the occupancy of the six
/// neighboring cells.
pub open spec fn block_quads(cx: int, cy: int, cz: int, block: Block, occ: Seq<bool>) -> Seq<Quad> {
    block_quads_upto(cx, cy, cz, block.cubes@, occ, block.cubes@.len() as int)
}

/// Exact culling test for one face.
fn face_culled(f: &Face, d: Direction, occ_d: bool) -> (r: bool)
    ensures
        r == !face_kept(*f, d, occ_d),
{
    occ_d && match f.cull {
        Some(c) => c == d,
        None => false,
    }
}

/// Build the vertex for one corner selector.
fn make_vertex(cx: usize, cy: usize, cz: usize, cube: &Cube, sx: bool, sy: bool, sz: bool) -> (v: Vertex)
    requires
        cx < 32,
        cy < 32,
        cz < 32,
        cube.wf(),
    ensures
        v.x == 16 * cx + sel_coord(sx, cube.min[0], cube.max[0]),
        v.y == 16 * cy + sel_coord(sy, cube.min[1], cube.max[1]),
        v.z == 16 * cz + sel_coord(sz, cube.min[2], cube.max[2]),
{
    let bx: u16 = 16 * (cx as u16);
    let by: u16 = 16 * (cy as u16);
    let bz: u16 = 16 * (cz as u16);
    Vertex {
        x: bx + if sx { cube.max[0] } else { cube.min[0] },
        y: by + if sy { cube.max[1] } else { cube.min[1] },
        z: bz + if sz { cube.max[2] } else { cube.min[2] },
    }
}

/// Build the quad for one face of a cube at a cell.
fn make_face_quad(cx: usize, cy: usize, cz: usize, cube: &Cube, d: Direction) -> (q: Quad)
    requires
        cx < 32,
        cy < 32,
        cz < 32,
        cube.wf(),
    ensures
        q == face_quad(cx as int, cy as int, cz as int, *cube, d),
{
    let fi: usize = d.index();
    match d {
        Direction::NegX => Quad {
            dir: d,
            texture: cube.faces[fi].texture,
            v0: make_vertex(cx, cy, cz, cube, false, false, true),
            v1: make_vertex(cx, cy, cz, cube, false, true, true),
            v2: make_vertex(cx, cy, cz, cube, false, true, false),
            v3: make_vertex(cx, cy, cz, cube, false, false, false),
        },
        Direction::NegY => Quad {
            dir: d,
            texture: cube.faces[fi].texture,
            v0: make_vertex(cx, cy, cz, cube, false, false, true),
            v1: make_vertex(cx, cy, cz, cube, false, false, false),
            v2: make_vertex(cx, cy, cz, cube, true, false, false),
            v3: make_vertex(cx, cy, cz, cube, true, false, true),
        },
        Direction::NegZ => Quad {
            dir: d,
            texture: cube.faces[fi].texture,
            v0: make_vertex(cx, cy, cz, cube, false, false, false),
            v1: make_vertex(cx, cy, cz, cube, false, true, false),
            v2: make_vertex(cx, cy, cz, cube, true, true, false),
            v3: make_vertex(cx, cy, cz, cube, true, false, false),
        },
        Direction::PosX => Quad {
            dir: d,
            texture: cube.faces[fi].texture,
            v0: make_vertex(cx, cy, cz, cube, true, false, false),
            v1: make_vertex(cx, cy, cz, cube, true, true, false),
            v2: make_vertex(cx, cy, cz, cube, true, true, true),
            v3: make_vertex(cx, cy, cz, cube, true, false, true),
        },
        Direction::PosY => Quad {
            dir: d,
            texture: cube.faces[fi].texture,
            v0: make_vertex(cx, cy, cz, cube, false, true, false),
            v1: make_vertex(cx, cy, cz, cube, false, true, true),
            v2: make_vertex(cx, cy, cz, cube, true, true, true),
            v3: make_vertex(cx, cy, cz, cube, true, true, false),
        },
        Direction::PosZ => Quad {
            dir: d,
            texture: cube.faces[fi].texture,
            v0: make_vertex(cx, cy, cz, cube, true, false, true),
            v1: make_vertex(cx, cy, cz, cube, true, true, true),
            v2: make_vertex(cx, cy, cz, cube, false, true, true),
            v3: make_vertex(cx, cy, cz, cube, false, false, true),
        },
    }
}

impl Cube {
    /// Append the quads of this cube at cell `(cx, cy, cz)` to `out`,
    /// omitting every face whose cull direction points at an occupied
    /// neighbor.
    #[verifier::rlimit(60)]
    pub fn mesh(&self, cx: usize, cy: usize, cz: usize, occupied: [bool; 6], out: &mut Vec<Quad>)
        requires
            cx < 32,
            cy < 32,
            cz < 32,
            self.wf(),
        ensures
            final(out)@ == old(out)@ + cube_quads(cx as int, cy as int, cz as int, *self, occupied@),
    {
        let ghost base = out@;
        let ghost occ = occupied@;
        let ghost x = cx as int;
        let ghost y = cy as int;
        let ghost z = cz as int;

        if !face_culled(&self.faces[0], Direction::NegX, occupied[0]) {
            out.push(make_face_quad(cx, cy, cz, self, Direction::NegX));
        }
        assert(out@ =~= base + face_quads_opt(x, y, z, *self, Direction::NegX, occ));
        let ghost base1 = out@;
        if !face_culled(&self.faces[1], Direction::NegY, occupied[1]) {
            out.push(make_face_quad(cx, cy, cz, self, Direction::NegY));
        }
        assert(out@ =~= base1 + face_quads_opt(x, y, z, *self, Direction::NegY, occ));
        let ghost base2 = out@;
        if !face_culled(&self.faces[2], Direction::NegZ, occupied[2]) {
            out.push(make_face_quad(cx, cy, cz, self, Direction::NegZ));
        }
        assert(out@ =~= base2 + face_quads_opt(x, y, z, *self, Direction::NegZ, occ));
        let ghost base3 = out@;
        if !face_culled(&self.faces[3], Direction::PosX, occupied[3]) {
            out.push(make_face_quad(cx, cy, cz, self, Direction::PosX));
        }
        assert(out@ =~= base3 + face_quads_opt(x, y, z, *self, Direction::PosX, occ));
        let ghost base4 = out@;
        if !face_culled(&self.faces[4], Direction::PosY, occupied[4]) {
            out.push(make_face_quad(cx, cy, cz, self, Direction::PosY));
        }
        assert(out@ =~= base4 + face_quads_opt(x, y, z, *self, Direction::PosY, occ));
        let ghost base5 = out@;
        if !face_culled(&self.faces[5], Direction::PosZ, occupied[5]) {
            out.push(make_face_quad(cx, cy, cz, self, Direction::PosZ));
        }
        assert(out@ =~= base5 + face_quads_opt(x, y, z, *self, Direction::PosZ, occ));
        assert(out@ =~= base + cube_quads(x, y, z, *self, occ));
    }
}

} // verus!
