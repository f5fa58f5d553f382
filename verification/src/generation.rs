use vstd::prelude::*;

use crate::block::BlockId;
use crate::chunk::{lemma_cell_index_injective, Chunk};
use crate::util::ChunkPos;

verus! {

/// Block id the generator writes for empty cells.
pub const AIR: u16 = 0;

/// Block id for solid rock.
pub const STONE: u16 = 1;

/// Block id for dirt under a grass cover.
pub const DIRT: u16 = 2;

/// Block id for the grass surface layer.
pub const GRASS: u16 = 3;

/// The integer world-generation parameters that the layering logic
/// reads. The continuous noise parameters stay with the external sampler
/// that fills the `DensityField`; new parameters take effect on the next
/// full regenerate.
#[derive(Debug, Clone, PartialEq, Eq, Structural)]
pub struct WorldGen {
    /// The lowest world height at which terrain appears.
    pub height_min: i64,
    /// The highest world height at which terrain appears.
    pub height_max: i64,
    /// How deep dirt is generated (distance to the nearest air above).
    pub dirt_height: usize,
    /// Lower end (inclusive) of the height band in which grass and dirt
    /// are generated.
    pub dirt_min: i64,
    /// Upper end (exclusive) of that band.
    pub dirt_max: i64,
}

impl WorldGen {
    /// Bounds that keep every height computation inside i64.
    pub open spec fn wf(self) -> bool {
        &&& -0x1000_0000_0000 <= self.height_min <= 0x1000_0000_0000
        &&& -0x1000_0000_0000 <= self.height_max <= 0x1000_0000_0000
        &&& -0x1000_0000_0000 <= self.dirt_min <= 0x1000_0000_0000
        &&& -0x1000_0000_0000 <= self.dirt_max <= 0x1000_0000_0000
        &&& 1 <= self.dirt_height <= 4096
    }
}

impl Default for WorldGen {
    /// A world 256 cells tall centered on height zero, with grass and
    /// dirt in the middle half and a dirt depth of two cells.
    fn default() -> (r: WorldGen)
        ensures
            r == (WorldGen {
                height_min: -128i64,
                height_max: 128i64,
                dirt_height: 2usize,
                dirt_min: -64i64,
                dirt_max: 64i64,
            }),
            r.wf(),
    {
        WorldGen {
            height_min: -128,
            height_max: 128,
            dirt_height: 2,
            dirt_min: -64,
            dirt_max: 64,
        }
    }
}

/// A chunk whose cells all sit above the world's height range is
/// uniformly air; the generator never samples the density field there.
pub open spec fn above_world(pos_y: int, gen: WorldGen) -> bool {
    32 * pos_y >= gen.height_max + 32
}

/// A chunk entirely below the height range is uniformly stone.
pub open spec fn below_world(pos_y: int, gen: WorldGen) -> bool {
    32 * pos_y <= gen.height_min - 33
}

/// Solidity samples for one chunk: its 32×32×32 cells plus `margin`
/// extra layers above, so the upward layering scan never has to touch a
/// neighboring chunk. Each sample records whether the continuous density
/// value at that cell falls in the solid range.
#[derive(Debug, Clone, PartialEq)]
pub struct DensityField {
    /// Sample (x, y, z) lives at index `(x * 32 + z) * (32 + margin) + y`.
    solid: Vec<bool>,
    margin: usize,
}

impl View for DensityField {
    type V = Seq<bool>;

    closed spec fn view(&self) -> Seq<bool> {
        self.solid@
    }
}

impl DensityField {
    pub closed spec fn margin_spec(self) -> int {
        self.margin as int
    }

    pub open spec fn wf(self) -> bool {
        &&& self@.len() == 1024 * (32 + self.margin_spec())
        &&& self.margin_spec() <= 4096
    }

    /// Whether the sample at (x, y, z) is solid; y may reach into the
    /// margin above the chunk.
    pub open spec fn solid_at(self, x: int, y: int, z: int) -> bool {
        self@[(x * 32 + z) * (32 + self.margin_spec()) + y]
    }

    /// Wrap a pre-sampled grid. The samples are laid out x-major, then
    /// z, with the vertical column (32 + margin tall) innermost.
    pub fn new(solid: Vec<bool>, margin: usize) -> (r: DensityField)
        requires
            margin <= 4096,
            solid@.len() == 1024 * (32 + margin),
        ensures
            r.wf(),
            r.margin_spec() == margin,
            r@ == solid@,
    {
        DensityField { solid, margin }
    }

    pub fn solid(&self, x: usize, y: usize, z: usize) -> (r: bool)
        requires
            self.wf(),
            x < 32,
            z < 32,
            y < 32 + self.margin_spec(),
        ensures
            r == self.solid_at(x as int, y as int, z as int),
    {
        proof {
            lemma_density_index(x as int, y as int, z as int, 32 + self.margin_spec());
        }
        let idx: usize = (x * 32 + z) * (32 + self.margin) + y;
        self.solid[idx]
    }
}

/// Column index arithmetic stays inside the sample vector.
proof fn lemma_density_index(x: int, y: int, z: int, m: int)
    requires
        0 <= x < 32,
        0 <= z < 32,
        0 <= y < m,
        m >= 32,
    ensures
        0 <= (x * 32 + z) * m + y < 1024 * m,
    decreases m,
{
    assert((x * 32 + z) * m + y < 1024 * m) by (nonlinear_arith)
        requires
            0 <= x < 32,
            0 <= z < 32,
            0 <= y < m,
    {
    }
    assert((x * 32 + z) * m + y >= 0) by (nonlinear_arith)
        requires
            0 <= x,
            0 <= z,
            0 <= y,
            m >= 32,
    {
    }
}

/// Whether the upward dirt scan finds a non-solid cell: some distance
/// between two and `dh` above (x, y, z) is not solid.
pub open spec fn dirt_found(d: DensityField, x: int, y: int, z: int, dh: int) -> bool {
    exists|i: int| 2 <= i <= dh && !(#[trigger] d.solid_at(x, y + i, z))
}

/// The block the layering pass assigns to a cell of global height `gy`:
/// air when the cell is not solid; inside the dirt band, grass when the
/// cell directly above is open, dirt when air appears within the scan
/// height, stone otherwise; stone for every solid cell outside the band.
pub open spec fn layer_block(d: DensityField, x: int, y: int, z: int, gy: int, gen: WorldGen) -> BlockId {
    if !d.solid_at(x, y, z) {
        BlockId(0)
    } else if gen.dirt_min <= gy < gen.dirt_max {
        if !d.solid_at(x, y + 1, z) {
            BlockId(3)
        } else if dirt_found(d, x, y, z, gen.dirt_height as int) {
            BlockId(2)
        } else {
            BlockId(1)
        }
    } else {
        BlockId(1)
    }
}

/// Monotonic layering: a solid cell inside the dirt band gets exactly
/// one of grass, dirt and stone, decided by the first non-solid cell
/// found scanning upward: grass when the cell one above is open, dirt
/// when the scan from two up to the dirt height finds an opening, and
/// stone when the whole scan is solid, even inside the band.
pub proof fn lemma_layering(d: DensityField, x: int, y: int, z: int, gy: int, gen: WorldGen)
    requires
        d.solid_at(x, y, z),
        gen.dirt_min <= gy < gen.dirt_max,
    ensures
        layer_block(d, x, y, z, gy, gen) == BlockId(3) <==> !d.solid_at(x, y + 1, z),
        layer_block(d, x, y, z, gy, gen) == BlockId(2) <==> d.solid_at(x, y + 1, z)
            && dirt_found(d, x, y, z, gen.dirt_height as int),
        layer_block(d, x, y, z, gy, gen) == BlockId(1) <==> d.solid_at(x, y + 1, z)
            && !dirt_found(d, x, y, z, gen.dirt_height as int),
{
}

/// Scan upward from two to `dh` cells above (x, y, z), reporting whether
/// any sample there is open.
fn scan_dirt(density: &DensityField, x: usize, y: usize, z: usize, dh: usize) -> (r: bool)
    requires
        density.wf(),
        x < 32,
        y < 32,
        z < 32,
        dh as int <= density.margin_spec(),
    ensures
        r == dirt_found(*density, x as int, y as int, z as int, dh as int),
{
    let mut i: usize = 2;
    while i <= dh
        invariant
            2 <= i,
            i <= dh + 1 || i == 2,
            forall|j: int| 2 <= j < i ==> #[trigger] density.solid_at(x as int, y + j, z as int),
        decreases dh + 1 - i,
    {
        if !density.solid(x, y + i, z) {
            assert(dirt_found(*density, x as int, y as int, z as int, dh as int));
            return true;
        }
        i = i + 1;
    }
    false
}

/// Generate the chunk at `pos`: uniform air above the world's height
/// range, uniform stone below it, and otherwise the layering pass over
/// the supplied solidity samples, cell by cell. `density` may only be
/// absent for the two uniform cases.
pub fn generate_chunk(pos: ChunkPos, gen: &WorldGen, density: Option<&DensityField>) -> (c: Chunk)
    requires
        gen.wf(),
        !above_world(pos.y as int, *gen) && !below_world(pos.y as int, *gen) ==> ({
            &&& density matches Some(d)
            &&& d.wf()
            &&& d.margin_spec() == gen.dirt_height
        }),
    ensures
        c.wf(),
        c.compat(4),
        above_world(pos.y as int, *gen) ==> forall|i: int| 0 <= i < 32768 ==> c@[i] == BlockId(0),
        !above_world(pos.y as int, *gen) && below_world(pos.y as int, *gen)
            ==> forall|i: int| 0 <= i < 32768 ==> c@[i] == BlockId(1),
        !above_world(pos.y as int, *gen) && !below_world(pos.y as int, *gen) ==> ({
            &&& density matches Some(d)
            &&& forall|x: int, y: int, z: int|
                0 <= x < 32 && 0 <= y < 32 && 0 <= z < 32
                ==> #[trigger] c.block_at(x, y, z)
                    == layer_block(*d, x, y, z, 32 * pos.y + y, *gen)
        }),
{
    let base: i64 = 32 * (pos.y as i64);
    if base >= gen.height_max + 32 {
        return Chunk::new(BlockId(AIR));
    }
    if base <= gen.height_min - 33 {
        return Chunk::new(BlockId(STONE));
    }
    let density = match density {
        Some(d) => d,
        None => {
            proof {
                assert(false);
            }
            return Chunk::new(BlockId(AIR));
        },
    };

    let mut chunk = Chunk::new(BlockId(AIR));
    let mut x: usize = 0;
    let mut z: usize = 0;
    let mut y: usize = 0;
    let mut r: usize = 0;
    while r < 32768
        invariant
            r == x * 1024 + z * 32 + y,
            x <= 32,
            z < 32,
            y < 32,
            r < 32768 ==> x < 32,
            r == 32768 ==> x == 32 && z == 0 && y == 0,
            chunk.wf(),
            chunk.compat(4),
            forall|a: int, b: int, c2: int| 0 <= a < 32 && 0 <= b < 32 && 0 <= c2 < 32
                && a * 1024 + c2 * 32 + b < r
                ==> #[trigger] chunk.block_at(a, b, c2)
                    == layer_block(*density, a, b, c2, 32 * pos.y + b, *gen),
            forall|a: int, b: int, c2: int| 0 <= a < 32 && 0 <= b < 32 && 0 <= c2 < 32
                && a * 1024 + c2 * 32 + b >= r
                ==> #[trigger] chunk.block_at(a, b, c2) == BlockId(0),
        decreases 32768 - r,
    {
        let ghost chunk0 = chunk;
        let gy: i64 = base + y as i64;
        if density.solid(x, y, z) {
            if gen.dirt_min <= gy && gy < gen.dirt_max {
                if !density.solid(x, y + 1, z) {
                    chunk.set(x, y, z, BlockId(GRASS));
                } else if scan_dirt(density, x, y, z, gen.dirt_height) {
                    chunk.set(x, y, z, BlockId(DIRT));
                } else {
                    chunk.set(x, y, z, BlockId(STONE));
                }
            } else {
                chunk.set(x, y, z, BlockId(STONE));
            }
        }
        proof {
            let cx = x as int;
            let cy = y as int;
            let cz = z as int;
            let cur = cx * 1024 + cz * 32 + cy;
            assert(chunk.block_at(cx, cy, cz)
                == layer_block(*density, cx, cy, cz, 32 * pos.y + cy, *gen));
            assert forall|a: int, b: int, c2: int| 0 <= a < 32 && 0 <= b < 32 && 0 <= c2 < 32
                && a * 1024 + c2 * 32 + b < r + 1
                implies #[trigger] chunk.block_at(a, b, c2)
                    == layer_block(*density, a, b, c2, 32 * pos.y + b, *gen) by {
                if a * 1024 + c2 * 32 + b == cur {
                    lemma_cell_index_injective(a, b, c2, cx, cy, cz);
                } else {
                    assert(chunk.block_at(a, b, c2) == chunk0.block_at(a, b, c2));
                }
            }
            assert forall|a: int, b: int, c2: int| 0 <= a < 32 && 0 <= b < 32 && 0 <= c2 < 32
                && a * 1024 + c2 * 32 + b >= r + 1
                implies #[trigger] chunk.block_at(a, b, c2) == BlockId(0) by {
                assert(chunk.block_at(a, b, c2) == chunk0.block_at(a, b, c2));
            }
        }
        r = r + 1;
        y = y + 1;
        if y == 32 {
            y = 0;
            z = z + 1;
            if z == 32 {
                z = 0;
                x = x + 1;
            }
        }
    }
    chunk
}

} // verus!
