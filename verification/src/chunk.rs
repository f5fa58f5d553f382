use vstd::prelude::*;

use crate::block::{block_quads, block_quads_upto, BlockId, BlockRegistry, MeshData, Quad};
use crate::util::Direction;

verus! {

/// Side length of a chunk, in cells.
pub const CHUNK_SIZE: usize = 32;

/// Number of cells in a chunk.
pub const CHUNK_VOLUME: usize = 32 * 32 * 32;

/// A cubic grid of block ids of side `CHUNK_SIZE`. Written only during
/// generation; read-only once it reaches the scheduler.
#[derive(Debug, Clone, PartialEq)]
pub struct Chunk {
    /// Cell (x, y, z) lives at index `x * 1024 + z * 32 + y`.
    blocks: Vec<BlockId>,
}

impl View for Chunk {
    type V = Seq<BlockId>;

    closed spec fn view(&self) -> Seq<BlockId> {
        self.blocks@
    }
}

impl Chunk {
    pub open spec fn wf(self) -> bool {
        self@.len() == 32768
    }

    /// The block id at cell (x, y, z).
    pub open spec fn block_at(self, x: int, y: int, z: int) -> BlockId {
        self@[x * 1024 + z * 32 + y]
    }

    /// Every cell's id resolves in a registry of `n` blocks.
    pub open spec fn compat(self, n: int) -> bool {
        forall|i: int| 0 <= i < self@.len() ==> (#[trigger] self@[i]).0 < n
    }

    /// A chunk uniformly filled with one block.
    pub fn new(block: BlockId) -> (c: Chunk)
        ensures
            c.wf(),
            forall|i: int| 0 <= i < 32768 ==> c@[i] == block,
    {
        let mut blocks: Vec<BlockId> = Vec::new();
        let mut i: usize = 0;
        while i < CHUNK_VOLUME
            invariant
                i <= 32768,
                blocks@.len() == i,
                forall|j: int| 0 <= j < i ==> blocks@[j] == block,
            decreases 32768 - i,
        {
            blocks.push(block);
            i = i + 1;
        }
        Chunk { blocks }
    }

    /// Bounds-checked cell read.
    pub fn get(&self, x: usize, y: usize, z: usize) -> (r: BlockId)
        requires
            self.wf(),
            x < 32,
            y < 32,
            z < 32,
        ensures
            r == self.block_at(x as int, y as int, z as int),
    {
        self.blocks[x * 1024 + z * 32 + y]
    }

    /// Bounds-checked cell write.
    pub fn set(&mut self, x: usize, y: usize, z: usize, block: BlockId)
        requires
            old(self).wf(),
            x < 32,
            y < 32,
            z < 32,
        ensures
            final(self).wf(),
            final(self)@ == old(self)@.update(x * 1024 + z * 32 + y, block),
            final(self).block_at(x as int, y as int, z as int) == block,
    {
        let i: usize = x * 1024 + z * 32 + y;
        self.blocks.set(i, block);
    }
}

/// Distinct cells have distinct storage indexes.
pub proof fn lemma_cell_index_injective(x1: int, y1: int, z1: int, x2: int, y2: int, z2: int)
    requires
        0 <= x1 < 32,
        0 <= y1 < 32,
        0 <= z1 < 32,
        0 <= x2 < 32,
        0 <= y2 < 32,
        0 <= z2 < 32,
        x1 * 1024 + z1 * 32 + y1 == x2 * 1024 + z2 * 32 + y2,
    ensures
        x1 == x2 && y1 == y2 && z1 == z2,
{
}

/// A bit per cell of one chunk face, recording whether the block flush
/// against that face is opaque. This mask is the only state a chunk
/// exposes to its neighbors for cross-chunk face culling.
#[derive(Debug, Clone, PartialEq)]
pub struct Border {
    /// Bit (x, y) lives at index `x + 32 * y`.
    bits: Vec<bool>,
}

impl View for Border {
    type V = Seq<bool>;

    closed spec fn view(&self) -> Seq<bool> {
        self.bits@
    }
}

impl Border {
    pub open spec fn wf(self) -> bool {
        self@.len() == 1024
    }

    /// The occupancy bit at surface coordinate (x, y).
    pub open spec fn bit(self, x: int, y: int) -> bool {
        self@[x + 32 * y]
    }

    /// No bit set: the neighbor side culls nothing.
    pub open spec fn all_clear(self) -> bool {
        forall|i: int| 0 <= i < self@.len() ==> !(#[trigger] self@[i])
    }

    /// An all-clear border; absent neighbor data defaults to "unoccupied".
    pub fn new() -> (b: Border)
        ensures
            b.wf(),
            b.all_clear(),
    {
        let mut bits: Vec<bool> = Vec::new();
        let mut i: usize = 0;
        while i < 1024
            invariant
                i <= 1024,
                bits@.len() == i,
                forall|j: int| 0 <= j < i ==> !(#[trigger] bits@[j]),
            decreases 1024 - i,
        {
            bits.push(false);
            i = i + 1;
        }
        Border { bits }
    }

    pub fn occupied(&self, x: usize, y: usize) -> (r: bool)
        requires
            self.wf(),
            x < 32,
            y < 32,
        ensures
            r == self.bit(x as int, y as int),
    {
        self.bits[x + 32 * y]
    }

    pub fn set_occupied(&mut self, x: usize, y: usize)
        requires
            old(self).wf(),
            x < 32,
            y < 32,
        ensures
            final(self).wf(),
            final(self)@ == old(self)@.update(x + 32 * y, true),
            final(self).bit(x as int, y as int),
    {
        let i: usize = x + 32 * y;
        self.bits.set(i, true);
    }
}

/// The 3-D cell on the chunk's face in direction `d` that the 2-D border
/// coordinate (x, y) refers to. This is the canonical rotation that maps
/// the z = 0 plane onto the face; per-block meshing uses the same
/// rotation convention, which is what makes boundary culling line up.
pub open spec fn from_surface_spec(d: Direction, x: int, y: int) -> (int, int, int) {
    match d {
        Direction::NegX => (0, y, 31 - x),
        Direction::NegY => (x, 0, 31 - y),
        Direction::NegZ => (x, y, 0),
        Direction::PosX => (31, y, x),
        Direction::PosY => (x, 31, y),
        Direction::PosZ => (31 - x, y, 31),
    }
}

/// The 2-D border coordinate of a cell lying on the chunk's face in
/// direction `d`; the inverse of `from_surface_spec` on that face.
pub open spec fn to_surface_spec(d: Direction, px: int, py: int, pz: int) -> (int, int) {
    match d {
        Direction::NegX => (31 - pz, py),
        Direction::NegY => (px, 31 - pz),
        Direction::NegZ => (px, py),
        Direction::PosX => (pz, py),
        Direction::PosY => (px, pz),
        Direction::PosZ => (31 - px, py),
    }
}

/// Whether cell (px, py, pz) lies on the chunk's face in direction `d`.
pub open spec fn on_face(d: Direction, px: int, py: int, pz: int) -> bool {
    match d {
        Direction::NegX => px == 0,
        Direction::NegY => py == 0,
        Direction::NegZ => pz == 0,
        Direction::PosX => px == 31,
        Direction::PosY => py == 31,
        Direction::PosZ => pz == 31,
    }
}

/// Surface mapping round trip: a border coordinate maps to a cell on the
/// face, and back to itself, for every direction.
pub proof fn lemma_surface_roundtrip(d: Direction, x: int, y: int)
    requires
        0 <= x < 32,
        0 <= y < 32,
    ensures
        ({
            let (px, py, pz) = from_surface_spec(d, x, y);
            &&& 0 <= px < 32
            &&& 0 <= py < 32
            &&& 0 <= pz < 32
            &&& on_face(d, px, py, pz)
            &&& to_surface_spec(d, px, py, pz) == (x, y)
        }),
{
}

/// Surface mapping round trip the other way: every cell on the `d`-face
/// comes from exactly the border coordinate it maps to.
pub proof fn lemma_surface_inverse(d: Direction, px: int, py: int, pz: int)
    requires
        0 <= px < 32,
        0 <= py < 32,
        0 <= pz < 32,
        on_face(d, px, py, pz),
    ensures
        ({
            let (x, y) = to_surface_spec(d, px, py, pz);
            &&& 0 <= x < 32
            &&& 0 <= y < 32
            &&& from_surface_spec(d, x, y) == (px, py, pz)
        }),
{
}

impl Chunk {
    /// Map a border coordinate to its cell on the face in direction `d`.
    pub fn from_surface(d: Direction, x: usize, y: usize) -> (r: (usize, usize, usize))
        requires
            x < 32,
            y < 32,
        ensures
            ({
                let (px, py, pz) = from_surface_spec(d, x as int, y as int);
                r.0 == px && r.1 == py && r.2 == pz
            }),
    {
        match d {
            Direction::NegX => (0, y, 31 - x),
            Direction::NegY => (x, 0, 31 - y),
            Direction::NegZ => (x, y, 0),
            Direction::PosX => (31, y, x),
            Direction::PosY => (x, 31, y),
            Direction::PosZ => (31 - x, y, 31),
        }
    }

    /// Map a cell on the face in direction `d` to its border coordinate.
    pub fn to_surface(d: Direction, px: usize, py: usize, pz: usize) -> (r: (usize, usize))
        requires
            px < 32,
            py < 32,
            pz < 32,
            on_face(d, px as int, py as int, pz as int),
        ensures
            ({
                let (x, y) = to_surface_spec(d, px as int, py as int, pz as int);
                r.0 == x && r.1 == y
            }),
            r.0 < 32,
            r.1 < 32,
    {
        match d {
            Direction::NegX => (31 - pz, py),
            Direction::NegY => (px, 31 - pz),
            Direction::NegZ => (px, py),
            Direction::PosX => (pz, py),
            Direction::PosY => (px, pz),
            Direction::PosZ => (31 - px, py),
        }
    }

    /// The border of this chunk in direction `dir`: bit (x, y) is set
    /// exactly when the block at the corresponding face cell is opaque.
    pub fn border(&self, dir: Direction, registry: &BlockRegistry) -> (b: Border)
        requires
            self.wf(),
            self.compat(registry.blocks@.len() as int),
        ensures
            b.wf(),
            forall|x: int, y: int| 0 <= x < 32 && 0 <= y < 32 ==> #[trigger] b.bit(x, y) == {
                let (px, py, pz) = from_surface_spec(dir, x, y);
                registry.opaque_spec(self.block_at(px, py, pz))
            },
    {
        let mut bits: Vec<bool> = Vec::new();
        let mut y: usize = 0;
        while y < 32
            invariant
                y <= 32,
                bits@.len() == 32 * y,
                forall|a: int, b2: int| 0 <= a < 32 && 0 <= b2 < y ==> #[trigger] bits@[a + 32 * b2] == {
                    let (px, py, pz) = from_surface_spec(dir, a, b2);
                    registry.opaque_spec(self.block_at(px, py, pz))
                },
            decreases 32 - y,
        {
            let mut x: usize = 0;
            while x < 32
                invariant
                    x <= 32,
                    y < 32,
                    bits@.len() == 32 * y + x,
                    forall|a: int, b2: int| 0 <= a < 32 && 0 <= b2 < 32 && a + 32 * b2 < 32 * y + x
                        ==> #[trigger] bits@[a + 32 * b2] == {
                        let (px, py, pz) = from_surface_spec(dir, a, b2);
                        registry.opaque_spec(self.block_at(px, py, pz))
                    },
                decreases 32 - x,
            {
                proof {
                    lemma_surface_roundtrip(dir, x as int, y as int);
                }
                let (px, py, pz) = Self::from_surface(dir, x, y);
                let occ = registry.opaque(self.get(px, py, pz));
                bits.push(occ);
                x = x + 1;
            }
            y = y + 1;
        }
        Border { bits }
    }
}

/// Wrap a neighbor coordinate that stepped one cell outside the chunk
/// onto the matching cell of the adjacent chunk's local grid.
pub open spec fn wrap32(v: int) -> int {
    if v < 0 {
        v + 32
    } else if v >= 32 {
        v - 32
    } else {
        v
    }
}

/// Whether the neighbor of cell (x, y, z) one step in direction `d` is
/// occupied: inside the chunk this consults the registry's opacity of the
/// resident block, across a face it consults the matching border bit of
/// the neighboring chunk.
pub open spec fn occ_at(chunk: Chunk, reg: BlockRegistry, borders: Seq<Border>, x: int, y: int, z: int, d: Direction) -> bool {
    let nx = x + d.offset_x_spec();
    let ny = y + d.offset_y_spec();
    let nz = z + d.offset_z_spec();
    if 0 <= nx < 32 && 0 <= ny < 32 && 0 <= nz < 32 {
        reg.opaque_spec(chunk.block_at(nx, ny, nz))
    } else {
        let (sx, sy) = to_surface_spec(d.inverse_spec(), wrap32(nx), wrap32(ny), wrap32(nz));
        borders[d.index_spec()].bit(sx, sy)
    }
}

/// The six neighbor occupancies of a cell, in canonical direction order.
pub open spec fn cell_occ(chunk: Chunk, reg: BlockRegistry, borders: Seq<Border>, x: int, y: int, z: int) -> Seq<bool> {
    seq![
        occ_at(chunk, reg, borders, x, y, z, Direction::NegX),
        occ_at(chunk, reg, borders, x, y, z, Direction::NegY),
        occ_at(chunk, reg, borders, x, y, z, Direction::NegZ),
        occ_at(chunk, reg, borders, x, y, z, Direction::PosX),
        occ_at(chunk, reg, borders, x, y, z, Direction::PosY),
        occ_at(chunk, reg, borders, x, y, z, Direction::PosZ),
    ]
}

/// All six neighbors of the cell are occupied: the cell is fully
/// interior and invisible.
pub open spec fn all_occluded(chunk: Chunk, reg: BlockRegistry, borders: Seq<Border>, x: int, y: int, z: int) -> bool {
    &&& occ_at(chunk, reg, borders, x, y, z, Direction::NegX)
    &&& occ_at(chunk, reg, borders, x, y, z, Direction::NegY)
    &&& occ_at(chunk, reg, borders, x, y, z, Direction::NegZ)
    &&& occ_at(chunk, reg, borders, x, y, z, Direction::PosX)
    &&& occ_at(chunk, reg, borders, x, y, z, Direction::PosY)
    &&& occ_at(chunk, reg, borders, x, y, z, Direction::PosZ)
}

/// The quads one cell contributes to the chunk mesh: nothing when fully
/// occluded, otherwise its block's quads with culling driven by the six
/// neighbor occupancies.
pub open spec fn cell_quads(chunk: Chunk, reg: BlockRegistry, borders: Seq<Border>, x: int, y: int, z: int) -> Seq<Quad> {
    if all_occluded(chunk, reg, borders, x, y, z) {
        Seq::empty()
    } else {
        block_quads(x, y, z, reg.blocks@[chunk.block_at(x, y, z).0 as int], cell_occ(chunk, reg, borders, x, y, z))
    }
}

/// The quads of the first `n` cells, in meshing order: x outermost, then
/// z, then y (cell rank r covers cell (r / 1024, r % 32, (r / 32) % 32)).
pub open spec fn chunk_quads_upto(chunk: Chunk, reg: BlockRegistry, borders: Seq<Border>, n: int) -> Seq<Quad>
    decreases n,
{
    if n <= 0 {
        Seq::empty()
    } else {
        let r = n - 1;
        chunk_quads_upto(chunk, reg, borders, r) + cell_quads(chunk, reg, borders, r / 1024, r % 32, (r / 32) % 32)
    }
}

/// The complete mesh of a chunk against the given neighbor borders.
pub open spec fn chunk_quads(chunk: Chunk, reg: BlockRegistry, borders: Seq<Border>) -> Seq<Quad> {
    chunk_quads_upto(chunk, reg, borders, 32768)
}

/// A fully occluded cell contributes no geometry at all.
pub proof fn lemma_full_occlusion(chunk: Chunk, reg: BlockRegistry, borders: Seq<Border>, x: int, y: int, z: int)
    requires
        all_occluded(chunk, reg, borders, x, y, z),
    ensures
        cell_quads(chunk, reg, borders, x, y, z) == Seq::<Quad>::empty(),
{
}

impl Chunk {
    /// Whether the neighbor of cell (x, y, z) in direction `d` is
    /// occupied, consulting `neighbors` across chunk faces.
    fn occupied_dir(&self, x: usize, y: usize, z: usize, d: Direction, neighbors: &[Border; 6], registry: &BlockRegistry) -> (r: bool)
        requires
            self.wf(),
            self.compat(registry.blocks@.len() as int),
            x < 32,
            y < 32,
            z < 32,
            forall|i: int| 0 <= i < 6 ==> (#[trigger] neighbors[i]).wf(),
        ensures
            r == occ_at(*self, *registry, neighbors@, x as int, y as int, z as int, d),
    {
        let (dx, dy, dz) = d.offset();
        let nx = x as i32 + dx;
        let ny = y as i32 + dy;
        let nz = z as i32 + dz;
        if 0 <= nx && nx < 32 && 0 <= ny && ny < 32 && 0 <= nz && nz < 32 {
            registry.opaque(self.get(nx as usize, ny as usize, nz as usize))
        } else {
            let wx: usize = if nx < 0 { 31 } else if nx > 31 { 0 } else { nx as usize };
            let wy: usize = if ny < 0 { 31 } else if ny > 31 { 0 } else { ny as usize };
            let wz: usize = if nz < 0 { 31 } else if nz > 31 { 0 } else { nz as usize };
            let inv = d.inverse();
            assert(on_face(inv, wx as int, wy as int, wz as int));
            let (sx, sy) = Self::to_surface(inv, wx, wy, wz);
            neighbors[d.index()].occupied(sx, sy)
        }
    }

    /// Append the quads of one cell to `out`.
    fn mesh_cell(&self, x: usize, y: usize, z: usize, neighbors: &[Border; 6], registry: &BlockRegistry, out: &mut Vec<Quad>)
        requires
            self.wf(),
            self.compat(registry.blocks@.len() as int),
            registry.wf(),
            x < 32,
            y < 32,
            z < 32,
            forall|i: int| 0 <= i < 6 ==> (#[trigger] neighbors[i]).wf(),
        ensures
            final(out)@ == old(out)@ + cell_quads(*self, *registry, neighbors@, x as int, y as int, z as int),
    {
        let o0 = self.occupied_dir(x, y, z, Direction::NegX, neighbors, registry);
        let o1 = self.occupied_dir(x, y, z, Direction::NegY, neighbors, registry);
        let o2 = self.occupied_dir(x, y, z, Direction::NegZ, neighbors, registry);
        let o3 = self.occupied_dir(x, y, z, Direction::PosX, neighbors, registry);
        let o4 = self.occupied_dir(x, y, z, Direction::PosY, neighbors, registry);
        let o5 = self.occupied_dir(x, y, z, Direction::PosZ, neighbors, registry);
        if o0 && o1 && o2 && o3 && o4 && o5 {
            assert(out@ =~= old(out)@ + cell_quads(*self, *registry, neighbors@, x as int, y as int, z as int));
        } else {
            let occ: [bool; 6] = [o0, o1, o2, o3, o4, o5];
            assert(occ@ =~= cell_occ(*self, *registry, neighbors@, x as int, y as int, z as int));
            let id = self.get(x, y, z);
            let block = registry.get(id);
            let ghost base = out@;
            let mut k: usize = 0;
            while k < block.cubes.len()
                invariant
                    k <= block.cubes@.len(),
                    out@ == base + block_quads_upto(x as int, y as int, z as int, block.cubes@, occ@, k as int),
                decreases block.cubes@.len() - k,
            {
                block.cubes[k].mesh(x, y, z, occ, out);
                k = k + 1;
            }
        }
    }

    /// The surface mesh of this chunk, culled against its own contents
    /// and the six neighbor borders. A cell whose six neighbors are all
    /// occupied is skipped entirely; otherwise each face of each of its
    /// block's cubes is emitted unless culled by an occupied neighbor.
    pub fn mesh(&self, neighbors: &[Border; 6], registry: &BlockRegistry) -> (m: MeshData)
        requires
            self.wf(),
            self.compat(registry.blocks@.len() as int),
            registry.wf(),
            forall|i: int| 0 <= i < 6 ==> (#[trigger] neighbors[i]).wf(),
        ensures
            m.quads@ == chunk_quads(*self, *registry, neighbors@),
    {
        let mut quads: Vec<Quad> = Vec::new();
        let mut r: usize = 0;
        while r < CHUNK_VOLUME
            invariant
                r <= 32768,
                quads@ == chunk_quads_upto(*self, *registry, neighbors@, r as int),
            decreases 32768 - r,
        {
            let x = r / 1024;
            let z = (r / 32) % 32;
            let y = r % 32;
            self.mesh_cell(x, y, z, neighbors, registry, &mut quads);
            r = r + 1;
        }
        MeshData { quads }
    }
}

/// Meshing against all-clear borders with an interior that occludes
/// nothing culls no face at all: every cell contributes its block's
/// complete mesh, the same geometry the block produces in isolation.
pub proof fn lemma_no_occlusion_no_border(chunk: Chunk, reg: BlockRegistry, borders: Seq<Border>, x: int, y: int, z: int)
    requires
        chunk.wf(),
        chunk.compat(reg.blocks@.len() as int),
        borders.len() == 6,
        forall|i: int| 0 <= i < 6 ==> (#[trigger] borders[i]).wf() && borders[i].all_clear(),
        forall|cx: int, cy: int, cz: int| 0 <= cx < 32 && 0 <= cy < 32 && 0 <= cz < 32
            ==> !reg.opaque_spec(#[trigger] chunk.block_at(cx, cy, cz)),
        0 <= x < 32,
        0 <= y < 32,
        0 <= z < 32,
    ensures
        cell_quads(chunk, reg, borders, x, y, z)
            == block_quads(x, y, z, reg.blocks@[chunk.block_at(x, y, z).0 as int], seq![false, false, false, false, false, false]),
{
    assert forall|d: Direction| !#[trigger] occ_at(chunk, reg, borders, x, y, z, d) by {
        let nx = x + d.offset_x_spec();
        let ny = y + d.offset_y_spec();
        let nz = z + d.offset_z_spec();
        if 0 <= nx < 32 && 0 <= ny < 32 && 0 <= nz < 32 {
            assert(!reg.opaque_spec(chunk.block_at(nx, ny, nz)));
        } else {
            let inv = d.inverse_spec();
            let wx = wrap32(nx);
            let wy = wrap32(ny);
            let wz = wrap32(nz);
            assert(on_face(inv, wx, wy, wz));
            lemma_surface_inverse(inv, wx, wy, wz);
            let (sx, sy) = to_surface_spec(inv, wx, wy, wz);
            assert(!borders[d.index_spec()]@[sx + 32 * sy]);
        }
    }
    assert(cell_occ(chunk, reg, borders, x, y, z) =~= seq![false, false, false, false, false, false]);
    assert(!all_occluded(chunk, reg, borders, x, y, z));
}

} // verus!
