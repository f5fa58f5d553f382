use vstd::prelude::*;

verus! {

/// One of the six axis-aligned unit directions of the voxel grid.
#[derive(Clone, Copy, Debug, PartialEq, Eq, Structural)]
pub enum Direction {
    NegX,
    NegY,
    NegZ,
    PosX,
    PosY,
    PosZ,
}

impl Direction {
    /// Position of this direction in the canonical order, used to index
    /// fixed-size per-direction tables (faces, borders, occupancy).
    pub open spec fn index_spec(self) -> int {
        match self {
            Direction::NegX => 0,
            Direction::NegY => 1,
            Direction::NegZ => 2,
            Direction::PosX => 3,
            Direction::PosY => 4,
            Direction::PosZ => 5,
        }
    }

    pub open spec fn inverse_spec(self) -> Direction {
        match self {
            Direction::NegX => Direction::PosX,
            Direction::NegY => Direction::PosY,
            Direction::NegZ => Direction::PosZ,
            Direction::PosX => Direction::NegX,
            Direction::PosY => Direction::NegY,
            Direction::PosZ => Direction::NegZ,
        }
    }

    pub open spec fn offset_x_spec(self) -> int {
        match self {
            Direction::NegX => -1,
            Direction::PosX => 1,
            _ => 0,
        }
    }

    pub open spec fn offset_y_spec(self) -> int {
        match self {
            Direction::NegY => -1,
            Direction::PosY => 1,
            _ => 0,
        }
    }

    pub open spec fn offset_z_spec(self) -> int {
        match self {
            Direction::NegZ => -1,
            Direction::PosZ => 1,
            _ => 0,
        }
    }

    /// The direction a unit offset points to, preferring the negative axes,
    /// then the positive ones; `None` for the zero offset.
    pub open spec fn from_offset_spec(x: int, y: int, z: int) -> Option<Direction> {
        if x < 0 {
            Some(Direction::NegX)
        } else if y < 0 {
            Some(Direction::NegY)
        } else if z < 0 {
            Some(Direction::NegZ)
        } else if x > 0 {
            Some(Direction::PosX)
        } else if y > 0 {
            Some(Direction::PosY)
        } else if z > 0 {
            Some(Direction::PosZ)
        } else {
            None
        }
    }

    /// All six directions, in canonical order.
    pub fn all() -> (r: [Direction; 6])
        ensures
            r@.len() == 6,
            forall|k: int| 0 <= k < 6 ==> r@[k] == direction_at(k),
    {
        let r = [
            Direction::NegX,
            Direction::NegY,
            Direction::NegZ,
            Direction::PosX,
            Direction::PosY,
            Direction::PosZ,
        ];
        assert(forall|k: int| 0 <= k < 6 ==> r@[k] == direction_at(k)) by {
            assert(r@[0] == direction_at(0));
            assert(r@[1] == direction_at(1));
            assert(r@[2] == direction_at(2));
            assert(r@[3] == direction_at(3));
            assert(r@[4] == direction_at(4));
            assert(r@[5] == direction_at(5));
        }
        r
    }

    pub fn index(self) -> (r: usize)
        ensures
            r == self.index_spec(),
    {
        match self {
            Direction::NegX => 0,
            Direction::NegY => 1,
            Direction::NegZ => 2,
            Direction::PosX => 3,
            Direction::PosY => 4,
            Direction::PosZ => 5,
        }
    }

    pub fn inverse(self) -> (r: Self)
        ensures
            r == self.inverse_spec(),
    {
        match self {
            Direction::NegX => Direction::PosX,
            Direction::NegY => Direction::PosY,
            Direction::NegZ => Direction::PosZ,
            Direction::PosX => Direction::NegX,
            Direction::PosY => Direction::NegY,
            Direction::PosZ => Direction::NegZ,
        }
    }

    pub fn from_offset(x: i32, y: i32, z: i32) -> (r: Option<Direction>)
        ensures
            r == Self::from_offset_spec(x as int, y as int, z as int),
    {
        if x < 0 {
            Some(Direction::NegX)
        } else if y < 0 {
            Some(Direction::NegY)
        } else if z < 0 {
            Some(Direction::NegZ)
        } else if x > 0 {
            Some(Direction::PosX)
        } else if y > 0 {
            Some(Direction::PosY)
        } else if z > 0 {
            Some(Direction::PosZ)
        } else {
            None
        }
    }

    /// The unit offset of this direction, as (x, y, z).
    pub fn offset(self) -> (r: (i32, i32, i32))
        ensures
            r.0 == self.offset_x_spec(),
            r.1 == self.offset_y_spec(),
            r.2 == self.offset_z_spec(),
    {
        match self {
            Direction::NegX => (-1, 0, 0),
            Direction::NegY => (0, -1, 0),
            Direction::NegZ => (0, 0, -1),
            Direction::PosX => (1, 0, 0),
            Direction::PosY => (0, 1, 0),
            Direction::PosZ => (0, 0, 1),
        }
    }
}

/// The `k`-th direction in canonical order.
pub open spec fn direction_at(k: int) -> Direction {
    if k == 0 {
        Direction::NegX
    } else if k == 1 {
        Direction::NegY
    } else if k == 2 {
        Direction::NegZ
    } else if k == 3 {
        Direction::PosX
    } else if k == 4 {
        Direction::PosY
    } else {
        Direction::PosZ
    }
}

/// Taking the inverse twice gives back the original direction.
pub proof fn lemma_inverse_involution(d: Direction)
    ensures
        d.inverse_spec().inverse_spec() == d,
{
}

/// The inverse points exactly the opposite way.
pub proof fn lemma_inverse_negates_offset(d: Direction)
    ensures
        d.inverse_spec().offset_x_spec() == -d.offset_x_spec(),
        d.inverse_spec().offset_y_spec() == -d.offset_y_spec(),
        d.inverse_spec().offset_z_spec() == -d.offset_z_spec(),
{
}

/// Coordinate of a chunk in chunk-grid units.
#[derive(Clone, Copy, Debug, PartialEq, Eq, Hash, Structural)]
pub struct ChunkPos {
    pub x: i32,
    pub y: i32,
    pub z: i32,
}

/// Bound within which scheduler coordinates are kept; it leaves room for a
/// neighbor step in every direction without i32 overflow.
pub const POS_LIMIT: i32 = 0x4000_0000;

impl ChunkPos {
    pub open spec fn in_bounds(self) -> bool {
        &&& -(POS_LIMIT as int) <= self.x <= POS_LIMIT as int
        &&& -(POS_LIMIT as int) <= self.y <= POS_LIMIT as int
        &&& -(POS_LIMIT as int) <= self.z <= POS_LIMIT as int
    }

    pub fn new(x: i32, y: i32, z: i32) -> (r: ChunkPos)
        ensures
            r == (ChunkPos { x, y, z }),
    {
        ChunkPos { x, y, z }
    }

    /// Coordinate of the neighboring chunk one step in direction `d`.
    pub fn step(self, d: Direction) -> (r: ChunkPos)
        requires
            self.in_bounds(),
        ensures
            r.x == self.x + d.offset_x_spec(),
            r.y == self.y + d.offset_y_spec(),
            r.z == self.z + d.offset_z_spec(),
    {
        let (dx, dy, dz) = d.offset();
        ChunkPos { x: self.x + dx, y: self.y + dy, z: self.z + dz }
    }
}

pub open spec fn abs_int(x: int) -> int {
    if x < 0 {
        -x
    } else {
        x
    }
}

pub open spec fn max_int(a: int, b: int) -> int {
    if a < b {
        b
    } else {
        a
    }
}

/// Chebyshev (shell) distance between two chunk coordinates: the largest
/// of the per-axis absolute differences.
pub open spec fn cheb_dist(a: ChunkPos, b: ChunkPos) -> int {
    max_int(
        abs_int(a.x - b.x),
        max_int(abs_int(a.y - b.y), abs_int(a.z - b.z)),
    )
}

/// Chebyshev distance, computed without overflow for any coordinates.
pub fn chebyshev(a: ChunkPos, b: ChunkPos) -> (r: u64)
    ensures
        r == cheb_dist(a, b),
{
    let dx: i64 = a.x as i64 - b.x as i64;
    let dx: i64 = if dx < 0 { -dx } else { dx };
    let dy: i64 = a.y as i64 - b.y as i64;
    let dy: i64 = if dy < 0 { -dy } else { dy };
    let dz: i64 = a.z as i64 - b.z as i64;
    let dz: i64 = if dz < 0 { -dz } else { dz };
    let m: i64 = if dx < dy { dy } else { dx };
    let m: i64 = if m < dz { dz } else { m };
    m as u64
}

} // verus!
