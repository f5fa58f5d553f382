use vstd::prelude::*;

use crate::block::{BlockRegistry, MeshData};
use crate::chunk::{from_surface_spec, Border, Chunk};
use crate::util::{cheb_dist, chebyshev, direction_at, ChunkPos, Direction, POS_LIMIT};

verus! {

/// Lifecycle state of one chunk cache entry.
#[derive(Debug, Clone, Copy, PartialEq, Eq, Structural)]
pub enum ChunkState {
    /// A generation task is in flight; no density data yet.
    Generating,
    /// Density data present, but some of the six neighbors are not.
    DensityReady,
    /// All six neighbors hold density data: eligible for meshing.
    MeshPending,
    /// A meshing task is in flight.
    Meshing,
    /// Geometry is attached for the renderer to consume.
    Visible,
}

/// One scheduler-owned cache entry.
#[derive(Debug, Clone)]
pub struct ChunkEntry {
    pub pos: ChunkPos,
    pub state: ChunkState,
    /// Density data; shared read-only with neighbor meshing once present.
    pub chunk: Option<Chunk>,
    /// The extracted surface, present exactly in the `Visible` state.
    pub geometry: Option<MeshData>,
    /// How many of the six neighbors have not yet reached `DensityReady`.
    pub missing_neighbors: usize,
}

/// Whether some entry of `s` sits at coordinate `p`.
pub open spec fn has_entry(s: Seq<ChunkEntry>, p: ChunkPos) -> bool {
    exists|i: int| 0 <= i < s.len() && (#[trigger] s[i]).pos == p
}

/// The index of the entry at `p` (meaningful when positions are distinct).
pub open spec fn index_of(s: Seq<ChunkEntry>, p: ChunkPos) -> int {
    choose|i: int| 0 <= i < s.len() && (#[trigger] s[i]).pos == p
}

/// The entry at coordinate `p`.
pub open spec fn entry_at(s: Seq<ChunkEntry>, p: ChunkPos) -> ChunkEntry {
    s[index_of(s, p)]
}

/// No two entries share a coordinate.
pub open spec fn distinct_pos(s: Seq<ChunkEntry>) -> bool {
    forall|i: int, j: int| 0 <= i < j < s.len() ==> (#[trigger] s[i]).pos != (#[trigger] s[j]).pos
}

/// An entry at `p` holds density data: it has reached at least
/// `DensityReady`, so a neighbor may compute its border.
pub open spec fn ready_at(s: Seq<ChunkEntry>, p: ChunkPos) -> bool {
    has_entry(s, p) && entry_at(s, p).chunk is Some
}

/// The neighbor coordinate one step from `p` in direction `d`.
pub open spec fn step_spec(p: ChunkPos, d: Direction) -> ChunkPos {
    ChunkPos {
        x: (p.x + d.offset_x_spec()) as i32,
        y: (p.y + d.offset_y_spec()) as i32,
        z: (p.z + d.offset_z_spec()) as i32,
    }
}

/// How many of the first `k` directions point at a coordinate without
/// density data.
pub open spec fn unready_upto(s: Seq<ChunkEntry>, p: ChunkPos, k: int) -> nat
    decreases k,
{
    if k <= 0 {
        0
    } else {
        unready_upto(s, p, k - 1) + if ready_at(s, step_spec(p, direction_at(k - 1))) {
            0nat
        } else {
            1nat
        }
    }
}

/// The number of the six axis neighbors of `p` that have not yet reached
/// `DensityReady`.
pub open spec fn missing_count(s: Seq<ChunkEntry>, p: ChunkPos) -> nat {
    unready_upto(s, p, 6)
}

pub proof fn lemma_unready_bound(s: Seq<ChunkEntry>, p: ChunkPos, k: int)
    ensures
        unready_upto(s, p, k) <= if k <= 0 { 0int } else { k },
    decreases k,
{
    if k > 0 {
        lemma_unready_bound(s, p, k - 1);
    }
}

/// A zero missing count means every one of the first `k` neighbors is
/// ready.
pub proof fn lemma_unready_zero(s: Seq<ChunkEntry>, p: ChunkPos, k: int)
    requires
        unready_upto(s, p, k) == 0,
    ensures
        forall|j: int| 0 <= j < k ==> ready_at(s, step_spec(p, #[trigger] direction_at(j))),
    decreases k,
{
    if k > 0 {
        lemma_unready_zero(s, p, k - 1);
    }
}

/// A specific entry index pins down `entry_at` when positions are
/// distinct.
pub proof fn lemma_entry_at_witness(s: Seq<ChunkEntry>, j: int)
    requires
        distinct_pos(s),
        0 <= j < s.len(),
    ensures
        has_entry(s, s[j].pos),
        index_of(s, s[j].pos) == j,
        entry_at(s, s[j].pos) == s[j],
{
    let p = s[j].pos;
    assert(has_entry(s, p));
    let i = index_of(s, p);
    assert(0 <= i < s.len() && s[i].pos == p);
    if i != j {
        if i < j {
            assert(s[i].pos != s[j].pos);
        } else {
            assert(s[j].pos != s[i].pos);
        }
    }
}

/// Replacing the entry at one index with one at the same coordinate
/// keeps lookups elsewhere intact, and lookups at that coordinate see
/// the replacement.
pub proof fn lemma_update_entry(s: Seq<ChunkEntry>, i: int, e: ChunkEntry)
    requires
        distinct_pos(s),
        0 <= i < s.len(),
        e.pos == s[i].pos,
    ensures
        distinct_pos(s.update(i, e)),
        forall|q: ChunkPos| #[trigger] has_entry(s.update(i, e), q) == has_entry(s, q),
        forall|q: ChunkPos| q != e.pos && has_entry(s, q) ==> #[trigger] entry_at(s.update(i, e), q) == entry_at(s, q),
        entry_at(s.update(i, e), e.pos) == e,
        index_of(s.update(i, e), e.pos) == i,
        forall|q: ChunkPos| q != e.pos ==> #[trigger] ready_at(s.update(i, e), q) == ready_at(s, q),
        ready_at(s.update(i, e), e.pos) == (e.chunk is Some),
{
    let s2 = s.update(i, e);
    assert(distinct_pos(s2)) by {
        assert forall|a: int, b: int| 0 <= a < b < s2.len() implies (#[trigger] s2[a]).pos != (#[trigger] s2[b]).pos by {
            assert(s[a].pos != s[b].pos);
            if a == i {
                assert(s2[a].pos == s[i].pos);
            }
            if b == i {
                assert(s2[b].pos == s[i].pos);
            }
        }
    }
    assert forall|q: ChunkPos| #[trigger] has_entry(s2, q) == has_entry(s, q) by {
        if has_entry(s2, q) {
            let a = choose|a: int| 0 <= a < s2.len() && (#[trigger] s2[a]).pos == q;
            if a == i {
                assert(s[i].pos == q);
            } else {
                assert(s[a].pos == q);
            }
            assert(has_entry(s, q));
        }
        if has_entry(s, q) {
            let a = choose|a: int| 0 <= a < s.len() && (#[trigger] s[a]).pos == q;
            if a == i {
                assert(s2[i].pos == q);
            } else {
                assert(s2[a].pos == q);
            }
            assert(has_entry(s2, q));
        }
    }
    lemma_entry_at_witness(s2, i);
    assert forall|q: ChunkPos| q != e.pos && has_entry(s, q) implies #[trigger] entry_at(s2, q) == entry_at(s, q) by {
        assert(has_entry(s2, q));
        let a = index_of(s2, q);
        assert(0 <= a < s2.len() && s2[a].pos == q);
        assert(a != i);
        assert(s[a].pos == q);
        lemma_entry_at_witness(s, a);
        assert(entry_at(s, q) == s[a]);
        assert(entry_at(s2, q) == s2[a]);
        assert(s2[a] == s[a]);
    }
    assert forall|q: ChunkPos| q != e.pos implies #[trigger] ready_at(s2, q) == ready_at(s, q) by {
        assert(has_entry(s2, q) == has_entry(s, q));
        if has_entry(s2, q) {
            assert(entry_at(s2, q) == entry_at(s, q));
        }
    }
}

/// Appending an entry at a fresh coordinate, without density data, does
/// not change readiness anywhere and extends lookups by that coordinate.
pub proof fn lemma_push_entry(s: Seq<ChunkEntry>, e: ChunkEntry)
    requires
        distinct_pos(s),
        !has_entry(s, e.pos),
    ensures
        distinct_pos(s.push(e)),
        forall|q: ChunkPos| q != e.pos ==> #[trigger] has_entry(s.push(e), q) == has_entry(s, q),
        has_entry(s.push(e), e.pos),
        forall|q: ChunkPos| q != e.pos && has_entry(s, q) ==> #[trigger] entry_at(s.push(e), q) == entry_at(s, q),
        entry_at(s.push(e), e.pos) == e,
        e.chunk is None ==> forall|q: ChunkPos| #[trigger] ready_at(s.push(e), q) == ready_at(s, q),
{
    let s2 = s.push(e);
    assert(distinct_pos(s2)) by {
        assert forall|a: int, b: int| 0 <= a < b < s2.len() implies (#[trigger] s2[a]).pos != (#[trigger] s2[b]).pos by {
            if b == s.len() {
                assert(s2[b] == e);
                assert(s[a].pos == s2[a].pos);
                if s2[a].pos == e.pos {
                    assert(has_entry(s, e.pos));
                }
            } else {
                assert(s[a].pos != s[b].pos);
            }
        }
    }
    assert forall|q: ChunkPos| q != e.pos implies #[trigger] has_entry(s2, q) == has_entry(s, q) by {
        if has_entry(s2, q) {
            let a = choose|a: int| 0 <= a < s2.len() && (#[trigger] s2[a]).pos == q;
            assert(a < s.len());
            assert(s[a].pos == q);
        }
        if has_entry(s, q) {
            let a = choose|a: int| 0 <= a < s.len() && (#[trigger] s[a]).pos == q;
            assert(s2[a].pos == q);
        }
    }
    lemma_entry_at_witness(s2, s.len() as int);
    assert forall|q: ChunkPos| q != e.pos && has_entry(s, q) implies #[trigger] entry_at(s2, q) == entry_at(s, q) by {
        assert(has_entry(s2, q));
        let a = index_of(s2, q);
        assert(0 <= a < s2.len() && s2[a].pos == q);
        assert(a != s.len());
        assert(s[a].pos == q);
        lemma_entry_at_witness(s, a);
        lemma_entry_at_witness(s2, a);
    }
    if e.chunk is None {
        assert forall|q: ChunkPos| #[trigger] ready_at(s2, q) == ready_at(s, q) by {
            if q != e.pos {
                if has_entry(s2, q) {
                    assert(entry_at(s2, q) == entry_at(s, q));
                }
            } else {
                assert(entry_at(s2, e.pos) == e);
                assert(!has_entry(s, e.pos));
            }
        }
    }
}

/// Missing counts depend only on which coordinates are ready: equal
/// readiness everywhere gives equal counts everywhere.
pub proof fn lemma_count_congruence(s1: Seq<ChunkEntry>, s2: Seq<ChunkEntry>, p: ChunkPos, k: int)
    requires
        forall|q: ChunkPos| #[trigger] ready_at(s2, q) == ready_at(s1, q),
    ensures
        unready_upto(s2, p, k) == unready_upto(s1, p, k),
    decreases k,
{
    if k > 0 {
        lemma_count_congruence(s1, s2, p, k - 1);
        assert(ready_at(s2, step_spec(p, direction_at(k - 1))) == ready_at(s1, step_spec(p, direction_at(k - 1))));
    }
}

/// Whether a state participates in the missing-neighbor bookkeeping:
/// density data present, geometry work not yet started.
pub open spec fn counted_state(st: ChunkState) -> bool {
    st == ChunkState::DensityReady || st == ChunkState::MeshPending
}

/// The chunk streaming scheduler: a spatial cache of chunk entries keyed
/// by coordinate, driven once per tick by a single driver thread. Worker
/// results are handed back together with the epoch they were spawned
/// under; a result whose epoch or entry state no longer matches is
/// stale and is discarded.
#[derive(Debug)]
pub struct VoxelWorld {
    entries: Vec<ChunkEntry>,
    epoch: u64,
    block_count: usize,
}

impl View for VoxelWorld {
    type V = Seq<ChunkEntry>;

    closed spec fn view(&self) -> Seq<ChunkEntry> {
        self.entries@
    }
}

impl VoxelWorld {
    /// The current generation epoch; bumped by every full regenerate.
    pub closed spec fn epoch_spec(self) -> int {
        self.epoch as int
    }

    /// The size of the block registry this scheduler works against.
    pub closed spec fn block_count_spec(self) -> int {
        self.block_count as int
    }

    /// Per-entry well-formedness: the state machine's data invariants.
    pub open spec fn entry_ok(self, e: ChunkEntry) -> bool {
        &&& e.pos.in_bounds()
        &&& (e.state == ChunkState::Generating <==> e.chunk is None)
        &&& (e.chunk matches Some(c) ==> c.wf() && c.compat(self.block_count_spec()))
        &&& (e.geometry is Some <==> e.state == ChunkState::Visible)
        &&& (e.state == ChunkState::DensityReady ==> e.missing_neighbors > 0)
        &&& (e.state != ChunkState::DensityReady ==> e.missing_neighbors == 0)
    }

    /// Scheduler invariant: one entry per coordinate, each entry's data
    /// matches its state, and every density-ready or mesh-pending
    /// entry's `missing_neighbors` equals the number of its six
    /// neighbors without density data. In particular a `MeshPending`
    /// entry always has six ready neighbors.
    pub open spec fn wf(self) -> bool {
        &&& distinct_pos(self@)
        &&& forall|i: int| 0 <= i < self@.len() ==> self.entry_ok(#[trigger] self@[i])
        &&& forall|i: int| 0 <= i < self@.len() && counted_state((#[trigger] self@[i]).state)
                ==> self@[i].missing_neighbors == missing_count(self@, self@[i].pos)
    }

    /// An empty scheduler working against a registry of `block_count`
    /// blocks.
    pub fn new(block_count: usize) -> (w: VoxelWorld)
        ensures
            w.wf(),
            w@.len() == 0,
            w.epoch_spec() == 0,
            w.block_count_spec() == block_count,
    {
        VoxelWorld { entries: Vec::new(), epoch: 0, block_count }
    }

    pub fn epoch(&self) -> (r: u64)
        ensures
            r == self.epoch_spec(),
    {
        self.epoch
    }

    pub fn block_count(&self) -> (r: usize)
        ensures
            r == self.block_count_spec(),
    {
        self.block_count
    }

    pub fn len(&self) -> (r: usize)
        ensures
            r == self@.len(),
    {
        self.entries.len()
    }

    pub fn entry(&self, i: usize) -> (r: &ChunkEntry)
        requires
            i < self@.len(),
        ensures
            *r == self@[i as int],
    {
        &self.entries[i]
    }

    /// Index of the entry at `pos`, if any.
    fn find(&self, pos: ChunkPos) -> (r: Option<usize>)
        ensures
            r matches Some(i) ==> i < self@.len() && self@[i as int].pos == pos,
            r is None ==> !has_entry(self@, pos),
    {
        let mut k: usize = 0;
        while k < self.entries.len()
            invariant
                k <= self@.len(),
                forall|j: int| 0 <= j < k ==> (#[trigger] self@[j]).pos != pos,
            decreases self@.len() - k,
        {
            if self.entries[k].pos == pos {
                return Some(k);
            }
            k = k + 1;
        }
        None
    }

    /// The entry at a coordinate, if any.
    pub fn lookup(&self, pos: ChunkPos) -> (r: Option<&ChunkEntry>)
        requires
            distinct_pos(self@),
        ensures
            r matches Some(e) ==> has_entry(self@, pos) && *e == entry_at(self@, pos),
            r is None ==> !has_entry(self@, pos),
    {
        match self.find(pos) {
            Some(i) => {
                proof {
                    lemma_entry_at_witness(self@, i as int);
                }
                Some(&self.entries[i])
            },
            None => None,
        }
    }

    /// Count how many of the six neighbors of `p` lack density data.
    fn count_unready(&self, p: ChunkPos) -> (n: usize)
        requires
            distinct_pos(self@),
            p.in_bounds(),
        ensures
            n == missing_count(self@, p),
            n <= 6,
    {
        let dirs = Direction::all();
        let mut n: usize = 0;
        let mut k: usize = 0;
        while k < 6
            invariant
                k <= 6,
                n <= k,
                n == unready_upto(self@, p, k as int),
            decreases 6 - k,
        {
            let npos = p.step(dirs[k]);
            let ready = match self.find(npos) {
                Some(j) => {
                    proof {
                        lemma_entry_at_witness(self@, j as int);
                    }
                    self.entries[j].chunk.is_some()
                },
                None => false,
            };
            proof {
                assert(npos == step_spec(p, direction_at(k as int)));
                assert(ready == ready_at(self@, npos));
            }
            if !ready {
                n = n + 1;
            }
            k = k + 1;
        }
        n
    }

    /// Global regenerate: drop every entry and move to the next epoch,
    /// so any result still in flight is recognized as stale. The cache
    /// repopulates from scratch on subsequent ticks.
    pub fn clear(&mut self)
        requires
            old(self).epoch_spec() < 0xffff_ffff_ffff_ffff,
        ensures
            final(self).wf(),
            final(self)@.len() == 0,
            final(self).epoch_spec() == old(self).epoch_spec() + 1,
            final(self).block_count_spec() == old(self).block_count_spec(),
    {
        self.entries = Vec::new();
        self.epoch = self.epoch + 1;
    }

    /// The world-space origin of a chunk coordinate.
    pub fn world_pos(p: ChunkPos) -> (r: (i64, i64, i64))
        ensures
            r.0 == 32 * p.x,
            r.1 == 32 * p.y,
            r.2 == 32 * p.z,
    {
        (32 * (p.x as i64), 32 * (p.y as i64), 32 * (p.z as i64))
    }
}

/// A coordinate is never its own neighbor.
pub proof fn lemma_step_ne(p: ChunkPos, d: Direction)
    requires
        p.in_bounds(),
    ensures
        step_spec(p, d) != p,
{
}

/// The missing count of `p` does not depend on the readiness of `p`
/// itself, only on that of its six neighbors.
pub proof fn lemma_count_except_center(s1: Seq<ChunkEntry>, s2: Seq<ChunkEntry>, p: ChunkPos, k: int)
    requires
        p.in_bounds(),
        forall|q: ChunkPos| q != p ==> #[trigger] ready_at(s2, q) == ready_at(s1, q),
    ensures
        unready_upto(s2, p, k) == unready_upto(s1, p, k),
    decreases k,
{
    if k > 0 {
        lemma_count_except_center(s1, s2, p, k - 1);
        lemma_step_ne(p, direction_at(k - 1));
        assert(ready_at(s2, step_spec(p, direction_at(k - 1))) == ready_at(s1, step_spec(p, direction_at(k - 1))));
    }
}

/// Each direction's inverse sits at the opposite slot of the canonical
/// order.
pub proof fn lemma_direction_at_inverse(j: int)
    requires
        0 <= j < 6,
    ensures
        direction_at(j).inverse_spec() == direction_at(if j < 3 { j + 3 } else { j - 3 }),
{
}

/// If none of the first `k` neighbor steps of `p` lands on `c`, a
/// readiness change at `c` alone leaves the count of `p` unchanged.
pub proof fn lemma_count_avoid(s1: Seq<ChunkEntry>, s2: Seq<ChunkEntry>, p: ChunkPos, c: ChunkPos, k: int)
    requires
        forall|q: ChunkPos| q != c ==> #[trigger] ready_at(s2, q) == ready_at(s1, q),
        forall|j: int| 0 <= j < k ==> step_spec(p, #[trigger] direction_at(j)) != c,
    ensures
        unready_upto(s2, p, k) == unready_upto(s1, p, k),
    decreases k,
{
    if k > 0 {
        lemma_count_avoid(s1, s2, p, c, k - 1);
        assert(step_spec(p, direction_at(k - 1)) != c);
        assert(ready_at(s2, step_spec(p, direction_at(k - 1))) == ready_at(s1, step_spec(p, direction_at(k - 1))));
    }
}

/// The entry as the count refresh leaves it: a density-ready or
/// mesh-pending entry gets its missing-neighbor count recomputed against
/// `s` and the state that count dictates; any other entry is untouched.
pub open spec fn refreshed_entry(s: Seq<ChunkEntry>, e: ChunkEntry) -> ChunkEntry {
    if counted_state(e.state) {
        ChunkEntry {
            pos: e.pos,
            state: if missing_count(s, e.pos) == 0 {
                ChunkState::MeshPending
            } else {
                ChunkState::DensityReady
            },
            chunk: e.chunk,
            geometry: e.geometry,
            missing_neighbors: missing_count(s, e.pos) as usize,
        }
    } else {
        e
    }
}

impl VoxelWorld {
    /// Re-derive the missing-neighbor count of entry `i` from the live
    /// entry map, moving the entry between DensityReady and MeshPending
    /// as the count dictates. Entries in other states are left alone.
    fn refresh_entry(&mut self, i: usize)
        requires
            distinct_pos(old(self)@),
            i < old(self)@.len(),
            old(self)@[i as int].pos.in_bounds(),
        ensures
            final(self)@ == old(self)@.update(i as int, refreshed_entry(old(self)@, old(self)@[i as int])),
            final(self).epoch_spec() == old(self).epoch_spec(),
            final(self).block_count_spec() == old(self).block_count_spec(),
    {
        let st = self.entries[i].state;
        if st == ChunkState::DensityReady || st == ChunkState::MeshPending {
            let p = self.entries[i].pos;
            let m = self.count_unready(p);
            proof {
                lemma_unready_bound(self@, p, 6);
            }
            let mut e = self.entries.remove(i);
            e.missing_neighbors = m;
            e.state = if m == 0 {
                ChunkState::MeshPending
            } else {
                ChunkState::DensityReady
            };
            self.entries.insert(i, e);
            proof {
                assert(self@ =~= old(self)@.update(i as int, refreshed_entry(old(self)@, old(self)@[i as int])));
            }
        } else {
            proof {
                assert(self@ =~= old(self)@.update(i as int, refreshed_entry(old(self)@, old(self)@[i as int])));
            }
        }
    }
}

impl VoxelWorld {
    /// Hand back a completed generation result for `pos`, spawned under
    /// `epoch`. A stale result — wrong epoch, no live entry, or an entry
    /// not awaiting generation (for instance recreated since) — is
    /// discarded and the scheduler left untouched. An accepted result
    /// installs the density data, counts the neighbors still missing,
    /// and refreshes the counts of the six neighbor entries, so that
    /// this entry and any neighbor whose last missing dependency this
    /// was become mesh-pending.
    #[verifier::rlimit(100)]
    pub fn on_generated(&mut self, pos: ChunkPos, epoch: u64, chunk: Chunk) -> (accepted: bool)
        requires
            old(self).wf(),
            chunk.wf(),
            chunk.compat(old(self).block_count_spec()),
        ensures
            final(self).wf(),
            final(self).epoch_spec() == old(self).epoch_spec(),
            final(self).block_count_spec() == old(self).block_count_spec(),
            accepted == (epoch == old(self).epoch_spec() && has_entry(old(self)@, pos)
                && entry_at(old(self)@, pos).state == ChunkState::Generating),
            !accepted ==> final(self)@ == old(self)@,
            accepted ==> ({
                &&& final(self)@.len() == old(self)@.len()
                &&& forall|i: int| 0 <= i < old(self)@.len()
                        ==> (#[trigger] final(self)@[i]).pos == old(self)@[i].pos
                &&& forall|i: int| 0 <= i < old(self)@.len()
                        ==> (#[trigger] final(self)@[i]).geometry == old(self)@[i].geometry
                &&& forall|i: int| 0 <= i < old(self)@.len() && old(self)@[i].pos != pos
                        ==> (#[trigger] final(self)@[i]).chunk == old(self)@[i].chunk
                &&& forall|i: int| 0 <= i < old(self)@.len() && old(self)@[i].pos != pos
                        ==> ((#[trigger] final(self)@[i]).state == old(self)@[i].state
                            || (counted_state(old(self)@[i].state) && counted_state(final(self)@[i].state)))
                &&& has_entry(final(self)@, pos)
                &&& entry_at(final(self)@, pos).chunk == Some(chunk)
                &&& counted_state(entry_at(final(self)@, pos).state)
                &&& (entry_at(final(self)@, pos).state == ChunkState::MeshPending
                        <==> missing_count(final(self)@, pos) == 0)
            }),
    {
        if epoch != self.epoch {
            return false;
        }
        let idx = match self.find(pos) {
            Some(i) => i,
            None => {
                return false;
            },
        };
        proof {
            lemma_entry_at_witness(self@, idx as int);
        }
        if self.entries[idx].state != ChunkState::Generating {
            return false;
        }

        let ghost s0 = self@;
        let m = self.count_unready(self.entries[idx].pos);
        proof {
            lemma_unready_bound(self@, pos, 6);
        }
        let mut e = self.entries.remove(idx);
        e.chunk = Some(chunk);
        e.missing_neighbors = m;
        e.state = if m == 0 {
            ChunkState::MeshPending
        } else {
            ChunkState::DensityReady
        };
        self.entries.insert(idx, e);
        let ghost s1 = self@;
        proof {
            assert(s1 =~= s0.update(idx as int, s1[idx as int]));
            lemma_update_entry(s0, idx as int, s1[idx as int]);
            lemma_count_except_center(s0, s1, pos, 6);
            assert(missing_count(s1, pos) == m);
            lemma_entry_at_witness(s1, idx as int);
            assert forall|i: int| 0 <= i < s1.len() && counted_state((#[trigger] s1[i]).state)
                implies (s1[i].missing_neighbors == missing_count(s1, s1[i].pos)
                    || exists|k2: int| 0 <= k2 < 6 && s1[i].pos == step_spec(pos, #[trigger] direction_at(k2))) by {
                if i == idx {
                    assert(s1[i].missing_neighbors == m);
                } else {
                    assert(s1[i] == s0[i]);
                    assert(old(self).entry_ok(s0[i]));
                    if exists|j: int| 0 <= j < 6 && step_spec(s1[i].pos, #[trigger] direction_at(j)) == pos {
                        let j = choose|j: int| 0 <= j < 6 && step_spec(s1[i].pos, #[trigger] direction_at(j)) == pos;
                        lemma_direction_at_inverse(j);
                        let j2 = if j < 3 { j + 3 } else { j - 3 };
                        assert(s1[i].pos == step_spec(pos, direction_at(j2)));
                    } else {
                        lemma_count_avoid(s0, s1, s1[i].pos, pos, 6);
                        assert(s1[i].missing_neighbors == missing_count(s1, s1[i].pos));
                    }
                }
            }
        }

        let dirs = Direction::all();
        let mut k: usize = 0;
        while k < 6
            invariant
                k <= 6,
                idx < s1.len(),
                pos.in_bounds(),
                s1[idx as int].pos == pos,
                self@.len() == s1.len(),
                distinct_pos(self@),
                forall|i: int| 0 <= i < s1.len() ==> (#[trigger] self@[i]).pos == s1[i].pos,
                forall|i: int| 0 <= i < s1.len() ==> (#[trigger] self@[i]).chunk == s1[i].chunk,
                forall|i: int| 0 <= i < s1.len() ==> (#[trigger] self@[i]).geometry == s1[i].geometry,
                forall|q: ChunkPos| #[trigger] ready_at(self@, q) == ready_at(s1, q),
                forall|i: int| 0 <= i < s1.len()
                    ==> ((#[trigger] self@[i]).state == s1[i].state
                        || (counted_state(s1[i].state) && counted_state(self@[i].state))),
                forall|i: int| 0 <= i < s1.len() ==> ((#[trigger] self@[i]).state == ChunkState::DensityReady
                    ==> self@[i].missing_neighbors > 0),
                forall|i: int| 0 <= i < s1.len() ==> ((#[trigger] self@[i]).state != ChunkState::DensityReady
                    ==> self@[i].missing_neighbors == 0),
                forall|i: int| 0 <= i < s1.len() && counted_state((#[trigger] self@[i]).state)
                    ==> (self@[i].missing_neighbors == missing_count(self@, self@[i].pos)
                        || exists|k2: int| k <= k2 < 6 && self@[i].pos == step_spec(pos, #[trigger] direction_at(k2))),
                self.epoch_spec() == old(self).epoch_spec(),
                self.block_count_spec() == old(self).block_count_spec(),
            decreases 6 - k,
        {
            let ghost sc = self@;
            let npos = self.entries[idx].pos.step(dirs[k]);
            match self.find(npos) {
                Some(j) => {
                    proof {
                        lemma_entry_at_witness(sc, j as int);
                    }
                    self.refresh_entry(j);
                    proof {
                        let rj = refreshed_entry(sc, sc[j as int]);
                        lemma_unready_bound(sc, sc[j as int].pos, 6);
                        lemma_update_entry(sc, j as int, rj);
                        assert forall|q: ChunkPos| #[trigger] ready_at(self@, q) == ready_at(sc, q) by {
                            if q == rj.pos {
                                assert(ready_at(self@, q) == (rj.chunk is Some));
                                assert(ready_at(sc, q) == (entry_at(sc, q).chunk is Some));
                            }
                        }
                        assert forall|p2: ChunkPos| #[trigger] missing_count(self@, p2) == missing_count(sc, p2) by {
                            lemma_count_congruence(sc, self@, p2, 6);
                        }
                        assert forall|i: int| 0 <= i < s1.len() implies ((#[trigger] self@[i]).state == ChunkState::DensityReady
                            ==> self@[i].missing_neighbors > 0)
                            && (self@[i].state != ChunkState::DensityReady ==> self@[i].missing_neighbors == 0) by {
                            if i != j {
                                assert(self@[i] == sc[i]);
                            }
                        }
                        assert forall|i: int| 0 <= i < s1.len() && counted_state((#[trigger] self@[i]).state)
                            implies (self@[i].missing_neighbors == missing_count(self@, self@[i].pos)
                                || exists|k2: int| k + 1 <= k2 < 6 && self@[i].pos == step_spec(pos, #[trigger] direction_at(k2))) by {
                            if self@[i].missing_neighbors != missing_count(self@, self@[i].pos) {
                                if i == j as int {
                                    if counted_state(sc[j as int].state) {
                                        assert(self@[i].missing_neighbors == missing_count(sc, sc[j as int].pos));
                                        assert(missing_count(self@, self@[i].pos) == missing_count(sc, sc[j as int].pos));
                                        assert(false);
                                    } else {
                                        assert(self@[i] == sc[i]);
                                        assert(false);
                                    }
                                }
                                assert(self@[i] == sc[i]);
                                assert(counted_state(sc[i].state));
                                assert(sc[i].missing_neighbors != missing_count(sc, sc[i].pos));
                                let k2 = choose|k2: int| k <= k2 < 6 && sc[i].pos == step_spec(pos, #[trigger] direction_at(k2));
                                if k2 == k {
                                    assert(sc[i].pos == npos);
                                    assert(self@[j as int].pos == npos);
                                    assert(self@[i].pos == self@[j as int].pos);
                                    assert(false);
                                }
                                assert(k + 1 <= k2 < 6 && self@[i].pos == step_spec(pos, direction_at(k2)));
                            }
                        }
                    }
                },
                None => {
                    proof {
                        assert forall|i: int| 0 <= i < s1.len() && counted_state((#[trigger] self@[i]).state)
                            implies (self@[i].missing_neighbors == missing_count(self@, self@[i].pos)
                                || exists|k2: int| k + 1 <= k2 < 6 && self@[i].pos == step_spec(pos, #[trigger] direction_at(k2))) by {
                            if self@[i].missing_neighbors != missing_count(self@, self@[i].pos) {
                                let k2 = choose|k2: int| k <= k2 < 6 && self@[i].pos == step_spec(pos, #[trigger] direction_at(k2));
                                if k2 == k {
                                    assert(self@[i].pos == npos);
                                    assert(has_entry(self@, npos));
                                    assert(false);
                                }
                                assert(k + 1 <= k2 < 6 && self@[i].pos == step_spec(pos, direction_at(k2)));
                            }
                        }
                    }
                },
            }
            k = k + 1;
        }
        proof {
            lemma_entry_at_witness(self@, idx as int);
            assert(entry_at(self@, pos) == self@[idx as int]);
            assert(self@[idx as int].chunk == s1[idx as int].chunk);
            assert(missing_count(self@, pos) == missing_count(s1, pos)) by {
                lemma_count_congruence(s1, self@, pos, 6);
            }
            assert(self@[idx as int].state == s1[idx as int].state
                || (counted_state(s1[idx as int].state) && counted_state(self@[idx as int].state)));
            assert forall|i: int| 0 <= i < self@.len() implies self.entry_ok(#[trigger] self@[i]) by {
                assert(old(self).entry_ok(s0[i]));
                if i == idx {
                } else {
                    assert(s1[i] == s0[i]);
                }
            }
        }
        true
    }

    /// Hand back a completed meshing result for `pos`, spawned under
    /// `epoch`. A stale result is discarded; an accepted one attaches
    /// the geometry and makes the entry visible.
    pub fn on_meshed(&mut self, pos: ChunkPos, epoch: u64, geometry: MeshData) -> (accepted: bool)
        requires
            old(self).wf(),
        ensures
            final(self).wf(),
            final(self).epoch_spec() == old(self).epoch_spec(),
            final(self).block_count_spec() == old(self).block_count_spec(),
            accepted == (epoch == old(self).epoch_spec() && has_entry(old(self)@, pos)
                && entry_at(old(self)@, pos).state == ChunkState::Meshing),
            !accepted ==> final(self)@ == old(self)@,
            accepted ==> ({
                &&& final(self)@ == old(self)@.update(index_of(old(self)@, pos), ChunkEntry {
                    pos: entry_at(old(self)@, pos).pos,
                    state: ChunkState::Visible,
                    chunk: entry_at(old(self)@, pos).chunk,
                    geometry: Some(geometry),
                    missing_neighbors: 0,
                })
                &&& has_entry(final(self)@, pos)
                &&& entry_at(final(self)@, pos).state == ChunkState::Visible
                &&& entry_at(final(self)@, pos).geometry == Some(geometry)
            }),
    {
        if epoch != self.epoch {
            return false;
        }
        let idx = match self.find(pos) {
            Some(i) => i,
            None => {
                return false;
            },
        };
        proof {
            lemma_entry_at_witness(self@, idx as int);
        }
        if self.entries[idx].state != ChunkState::Meshing {
            return false;
        }
        let ghost s0 = self@;
        let mut e = self.entries.remove(idx);
        e.state = ChunkState::Visible;
        e.geometry = Some(geometry);
        self.entries.insert(idx, e);
        proof {
            let s1 = self@;
            assert(s1 =~= s0.update(idx as int, s1[idx as int]));
            lemma_update_entry(s0, idx as int, s1[idx as int]);
            lemma_entry_at_witness(s1, idx as int);
            assert forall|i: int| 0 <= i < s1.len() && counted_state((#[trigger] s1[i]).state)
                implies s1[i].missing_neighbors == missing_count(s1, s1[i].pos) by {
                assert(s1[i] == s0[i]);
                assert(missing_count(s1, s0[i].pos) == missing_count(s0, s0[i].pos)) by {
                    lemma_count_congruence(s0, s1, s0[i].pos, 6);
                }
            }
        }
        true
    }
}

/// A meshing work order admitted by the scheduler: the chunk
/// coordinate, the epoch it was admitted under, and the six neighbor
/// borders captured at admission time. A worker pairs it with the
/// entry's shared chunk data, runs the mesher, and hands the result
/// back through `on_meshed`.
pub struct MeshJob {
    pub pos: ChunkPos,
    pub epoch: u64,
    pub borders: [Border; 6],
}

impl VoxelWorld {
    /// First entry eligible for meshing: mesh-pending and within the
    /// tighter `view_distance` radius (entries in the margin shell exist
    /// only to supply borders and are never meshed themselves).
    fn find_mesh_candidate(&self, center: ChunkPos, view_distance: u32) -> (r: Option<usize>)
        ensures
            r matches Some(i) ==> i < self@.len()
                && self@[i as int].state == ChunkState::MeshPending
                && cheb_dist(self@[i as int].pos, center) <= view_distance
                && forall|j: int| 0 <= j < i ==> !((#[trigger] self@[j]).state == ChunkState::MeshPending
                    && cheb_dist(self@[j].pos, center) <= view_distance),
            r is None ==> forall|i: int| 0 <= i < self@.len()
                ==> !((#[trigger] self@[i]).state == ChunkState::MeshPending
                    && cheb_dist(self@[i].pos, center) <= view_distance),
    {
        let mut i: usize = 0;
        while i < self.entries.len()
            invariant
                i <= self@.len(),
                forall|j: int| 0 <= j < i ==> !((#[trigger] self@[j]).state == ChunkState::MeshPending
                    && cheb_dist(self@[j].pos, center) <= view_distance),
            decreases self@.len() - i,
        {
            if self.entries[i].state == ChunkState::MeshPending
                && chebyshev(self.entries[i].pos, center) <= view_distance as u64 {
                return Some(i);
            }
            i = i + 1;
        }
        None
    }

    /// The border that the ready neighbor one step in `d` from `p`
    /// exposes back toward `p`.
    fn neighbor_border(&self, p: ChunkPos, d: Direction, registry: &BlockRegistry) -> (b: Border)
        requires
            self.wf(),
            registry.wf(),
            self.block_count_spec() <= registry.blocks@.len(),
            p.in_bounds(),
            ready_at(self@, step_spec(p, d)),
        ensures
            b.wf(),
            ({
                &&& entry_at(self@, step_spec(p, d)).chunk matches Some(nc)
                &&& forall|x: int, y: int| 0 <= x < 32 && 0 <= y < 32 ==> #[trigger] b.bit(x, y) == {
                    let (px, py, pz) = from_surface_spec(d.inverse_spec(), x, y);
                    registry.opaque_spec(nc.block_at(px, py, pz))
                }
            }),
    {
        let npos = p.step(d);
        let j = match self.find(npos) {
            Some(j) => j,
            None => {
                proof {
                    assert(false);
                }
                return Border::new();
            },
        };
        proof {
            lemma_entry_at_witness(self@, j as int);
        }
        match &self.entries[j].chunk {
            Some(c) => {
                proof {
                    assert(c.compat(self.block_count_spec()));
                    assert(c.compat(registry.blocks@.len() as int));
                }
                c.border(d.inverse(), registry)
            },
            None => {
                proof {
                    assert(false);
                }
                Border::new()
            },
        }
    }

    /// One scheduling tick's meshing admission: pick the first
    /// mesh-pending entry within `view_distance` of the observer's
    /// chunk, capture the six neighbor borders (every neighbor holds
    /// density data, by the scheduler invariant), and mark the entry as
    /// meshing. At most one entry is admitted per tick, bounding the
    /// per-frame cost of spawning geometry work.
    pub fn tick_mesh(&mut self, center: ChunkPos, view_distance: u32, registry: &BlockRegistry) -> (job: Option<MeshJob>)
        requires
            old(self).wf(),
            registry.wf(),
            old(self).block_count_spec() <= registry.blocks@.len(),
        ensures
            final(self).wf(),
            final(self).epoch_spec() == old(self).epoch_spec(),
            final(self).block_count_spec() == old(self).block_count_spec(),
            job matches Some(mj) ==> ({
                &&& has_entry(old(self)@, mj.pos)
                &&& entry_at(old(self)@, mj.pos).state == ChunkState::MeshPending
                &&& cheb_dist(mj.pos, center) <= view_distance
                &&& mj.epoch == old(self).epoch_spec()
                &&& final(self)@ == old(self)@.update(index_of(old(self)@, mj.pos), ChunkEntry {
                    pos: mj.pos,
                    state: ChunkState::Meshing,
                    chunk: entry_at(old(self)@, mj.pos).chunk,
                    geometry: entry_at(old(self)@, mj.pos).geometry,
                    missing_neighbors: 0,
                })
                &&& forall|k: int| 0 <= k < 6 ==> (#[trigger] mj.borders[k]).wf()
                &&& forall|k: int| 0 <= k < 6 ==> ready_at(old(self)@, step_spec(mj.pos, #[trigger] direction_at(k)))
                &&& forall|k: int| 0 <= k < 6 ==> ({
                    &&& entry_at(old(self)@, step_spec(mj.pos, #[trigger] direction_at(k))).chunk matches Some(nc)
                    &&& forall|x: int, y: int| 0 <= x < 32 && 0 <= y < 32 ==> #[trigger] mj.borders[k].bit(x, y) == {
                        let (px, py, pz) = from_surface_spec(direction_at(k).inverse_spec(), x, y);
                        registry.opaque_spec(nc.block_at(px, py, pz))
                    }
                })
            }),
            job is None ==> final(self)@ == old(self)@
                && forall|i: int| 0 <= i < old(self)@.len()
                    ==> !((#[trigger] old(self)@[i]).state == ChunkState::MeshPending
                        && cheb_dist(old(self)@[i].pos, center) <= view_distance),
    {
        let idx = match self.find_mesh_candidate(center, view_distance) {
            Some(i) => i,
            None => {
                return None;
            },
        };
        let ghost s0 = self@;
        proof {
            lemma_entry_at_witness(s0, idx as int);
            assert(s0[idx as int].missing_neighbors == missing_count(s0, s0[idx as int].pos));
            lemma_unready_zero(s0, s0[idx as int].pos, 6);
        }
        let p = self.entries[idx].pos;
        let dirs = Direction::all();
        proof {
            assert(ready_at(s0, step_spec(p, direction_at(0))));
            assert(ready_at(s0, step_spec(p, direction_at(1))));
            assert(ready_at(s0, step_spec(p, direction_at(2))));
            assert(ready_at(s0, step_spec(p, direction_at(3))));
            assert(ready_at(s0, step_spec(p, direction_at(4))));
            assert(ready_at(s0, step_spec(p, direction_at(5))));
        }
        let borders: [Border; 6] = [
            self.neighbor_border(p, dirs[0], registry),
            self.neighbor_border(p, dirs[1], registry),
            self.neighbor_border(p, dirs[2], registry),
            self.neighbor_border(p, dirs[3], registry),
            self.neighbor_border(p, dirs[4], registry),
            self.neighbor_border(p, dirs[5], registry),
        ];
        let epoch = self.epoch;
        let mut e = self.entries.remove(idx);
        e.state = ChunkState::Meshing;
        self.entries.insert(idx, e);
        proof {
            let s1 = self@;
            assert(s1 =~= s0.update(idx as int, s1[idx as int]));
            lemma_update_entry(s0, idx as int, s1[idx as int]);
            lemma_entry_at_witness(s1, idx as int);
            assert forall|q: ChunkPos| #[trigger] ready_at(s1, q) == ready_at(s0, q) by {
                if q == p {
                    assert(ready_at(s1, q) == (s1[idx as int].chunk is Some));
                }
            }
            assert forall|i: int| 0 <= i < s1.len() && counted_state((#[trigger] s1[i]).state)
                implies s1[i].missing_neighbors == missing_count(s1, s1[i].pos) by {
                assert(s1[i] == s0[i]);
                lemma_count_congruence(s0, s1, s0[i].pos, 6);
            }
        }
        Some(MeshJob { pos: p, epoch, borders })
    }
}

/// The part of shell `d` around `center` that the enqueue scan has
/// already visited when its cursors stand at `(ox, oz, oy)`: the scan
/// runs x-major, then z, then y, each axis from `-d` to `d`.
pub open spec fn shell_seen(center: ChunkPos, d: int, ox: int, oz: int, oy: int, q: ChunkPos) -> bool {
    let ax = q.x - center.x + d;
    let az = q.z - center.z + d;
    let ay = q.y - center.y + d;
    cheb_dist(q, center) == d
        && (ax < ox || (ax == ox && (az < oz || (az == oz && ay < oy))))
}

/// The coordinates that hold an entry mid-scan: those that had one
/// before the tick, every completed shell, and the visited part of the
/// current shell.
pub open spec fn enqueue_covered(s0: Seq<ChunkEntry>, center: ChunkPos, d: int, ox: int, oz: int, oy: int, q: ChunkPos) -> bool {
    has_entry(s0, q) || cheb_dist(q, center) < d || shell_seen(center, d, ox, oz, oy, q)
}

impl VoxelWorld {
    /// One scheduling tick's enqueue pass: ensure an entry exists for
    /// every coordinate within `view_distance + 1` of the observer's
    /// chunk (the extra shell exists only to supply density data for
    /// border computation), and return the coordinates whose generation
    /// must now be started, in order of increasing shell distance so
    /// that nearby terrain resolves first. The ordering is a scheduling
    /// preference, not a correctness requirement.
    #[verifier::rlimit(100)]
    pub fn tick_enqueue(&mut self, center: ChunkPos, view_distance: u32) -> (started: Vec<ChunkPos>)
        requires
            old(self).wf(),
            view_distance <= 1024,
            -(POS_LIMIT as int) + 1026 <= center.x <= POS_LIMIT as int - 1026,
            -(POS_LIMIT as int) + 1026 <= center.y <= POS_LIMIT as int - 1026,
            -(POS_LIMIT as int) + 1026 <= center.z <= POS_LIMIT as int - 1026,
        ensures
            final(self).wf(),
            final(self).epoch_spec() == old(self).epoch_spec(),
            final(self).block_count_spec() == old(self).block_count_spec(),
            final(self)@.len() >= old(self)@.len(),
            forall|i: int| 0 <= i < old(self)@.len() ==> #[trigger] final(self)@[i] == old(self)@[i],
            forall|q: ChunkPos| #[trigger] has_entry(final(self)@, q)
                == (has_entry(old(self)@, q) || cheb_dist(q, center) <= view_distance + 1),
            forall|i: int| old(self)@.len() <= i < final(self)@.len() ==> ({
                let e = #[trigger] final(self)@[i];
                &&& e.state == ChunkState::Generating
                &&& e.chunk is None
                &&& e.geometry is None
                &&& !has_entry(old(self)@, e.pos)
                &&& cheb_dist(e.pos, center) <= view_distance + 1
            }),
            started@.len() == final(self)@.len() - old(self)@.len(),
            forall|k: int| 0 <= k < started@.len()
                ==> #[trigger] started@[k] == final(self)@[old(self)@.len() + k].pos,
            forall|k1: int, k2: int| 0 <= k1 <= k2 < started@.len()
                ==> cheb_dist(#[trigger] started@[k1], center) <= cheb_dist(#[trigger] started@[k2], center),
    {
        let ghost s0 = self@;
        let ghost l0 = self@.len() as int;
        let mut started: Vec<ChunkPos> = Vec::new();
        let radius: u32 = view_distance + 1;
        let mut d: u32 = 0;
        while d <= radius
            invariant
                d <= radius + 1,
                radius == view_distance + 1,
                self@.len() >= l0,
                forall|i: int| 0 <= i < l0 ==> #[trigger] self@[i] == s0[i],
                distinct_pos(self@),
                forall|q: ChunkPos| #[trigger] ready_at(self@, q) == ready_at(s0, q),
                forall|q: ChunkPos| #[trigger] has_entry(self@, q)
                    == enqueue_covered(s0, center, d as int, 0, 0, 0, q),
                forall|i: int| l0 <= i < self@.len() ==> ({
                    let e = #[trigger] self@[i];
                    &&& e.state == ChunkState::Generating
                    &&& e.chunk is None
                    &&& e.geometry is None
                    &&& e.missing_neighbors == 0
                    &&& e.pos.in_bounds()
                    &&& !has_entry(s0, e.pos)
                    &&& cheb_dist(e.pos, center) <= radius
                }),
                started@.len() == self@.len() - l0,
                forall|k: int| 0 <= k < started@.len() ==> #[trigger] started@[k] == self@[l0 + k].pos,
                forall|k: int| 0 <= k < started@.len() ==> cheb_dist(#[trigger] started@[k], center) < d,
                forall|k1: int, k2: int| 0 <= k1 <= k2 < started@.len()
                    ==> cheb_dist(#[trigger] started@[k1], center) <= cheb_dist(#[trigger] started@[k2], center),
                self.epoch_spec() == old(self).epoch_spec(),
                self.block_count_spec() == old(self).block_count_spec(),
            decreases radius + 1 - d,
        {
            let side: u32 = 2 * d + 1;
            let mut ox: u32 = 0;
            while ox < side
                invariant
                    ox <= side,
                    self@.len() >= l0,
                    forall|i: int| 0 <= i < l0 ==> #[trigger] self@[i] == s0[i],
                    distinct_pos(self@),
                    forall|q: ChunkPos| #[trigger] ready_at(self@, q) == ready_at(s0, q),
                    forall|q: ChunkPos| #[trigger] has_entry(self@, q)
                        == enqueue_covered(s0, center, d as int, ox as int, 0, 0, q),
                    forall|i: int| l0 <= i < self@.len() ==> ({
                        let e = #[trigger] self@[i];
                        &&& e.state == ChunkState::Generating
                        &&& e.chunk is None
                        &&& e.geometry is None
                        &&& e.missing_neighbors == 0
                        &&& e.pos.in_bounds()
                        &&& !has_entry(s0, e.pos)
                        &&& cheb_dist(e.pos, center) <= radius
                    }),
                    started@.len() == self@.len() - l0,
                    forall|k: int| 0 <= k < started@.len() ==> #[trigger] started@[k] == self@[l0 + k].pos,
                    forall|k: int| 0 <= k < started@.len() ==> cheb_dist(#[trigger] started@[k], center) <= d,
                    forall|k1: int, k2: int| 0 <= k1 <= k2 < started@.len()
                        ==> cheb_dist(#[trigger] started@[k1], center) <= cheb_dist(#[trigger] started@[k2], center),
                    self.epoch_spec() == old(self).epoch_spec(),
                    self.block_count_spec() == old(self).block_count_spec(),
                decreases side - ox,
            {
                let mut oz: u32 = 0;
                while oz < side
                    invariant
                        oz <= side,
                        ox < side,
                        self@.len() >= l0,
                        forall|i: int| 0 <= i < l0 ==> #[trigger] self@[i] == s0[i],
                        distinct_pos(self@),
                        forall|q: ChunkPos| #[trigger] ready_at(self@, q) == ready_at(s0, q),
                        forall|q: ChunkPos| #[trigger] has_entry(self@, q)
                            == enqueue_covered(s0, center, d as int, ox as int, oz as int, 0, q),
                        forall|i: int| l0 <= i < self@.len() ==> ({
                            let e = #[trigger] self@[i];
                            &&& e.state == ChunkState::Generating
                            &&& e.chunk is None
                            &&& e.geometry is None
                            &&& e.missing_neighbors == 0
                            &&& e.pos.in_bounds()
                            &&& !has_entry(s0, e.pos)
                            &&& cheb_dist(e.pos, center) <= radius
                        }),
                        started@.len() == self@.len() - l0,
                        forall|k: int| 0 <= k < started@.len() ==> #[trigger] started@[k] == self@[l0 + k].pos,
                        forall|k: int| 0 <= k < started@.len() ==> cheb_dist(#[trigger] started@[k], center) <= d,
                        forall|k1: int, k2: int| 0 <= k1 <= k2 < started@.len()
                            ==> cheb_dist(#[trigger] started@[k1], center) <= cheb_dist(#[trigger] started@[k2], center),
                        self.epoch_spec() == old(self).epoch_spec(),
                        self.block_count_spec() == old(self).block_count_spec(),
                    decreases side - oz,
                {
                    let mut oy: u32 = 0;
                    while oy < side
                        invariant
                            oy <= side,
                            ox < side,
                            oz < side,
                            self@.len() >= l0,
                            forall|i: int| 0 <= i < l0 ==> #[trigger] self@[i] == s0[i],
                            distinct_pos(self@),
                            forall|q: ChunkPos| #[trigger] ready_at(self@, q) == ready_at(s0, q),
                            forall|q: ChunkPos| #[trigger] has_entry(self@, q)
                                == enqueue_covered(s0, center, d as int, ox as int, oz as int, oy as int, q),
                            forall|i: int| l0 <= i < self@.len() ==> ({
                                let e = #[trigger] self@[i];
                                &&& e.state == ChunkState::Generating
                                &&& e.chunk is None
                                &&& e.geometry is None
                                &&& e.missing_neighbors == 0
                                &&& e.pos.in_bounds()
                                &&& !has_entry(s0, e.pos)
                                &&& cheb_dist(e.pos, center) <= radius
                            }),
                            started@.len() == self@.len() - l0,
                            forall|k: int| 0 <= k < started@.len() ==> #[trigger] started@[k] == self@[l0 + k].pos,
                            forall|k: int| 0 <= k < started@.len() ==> cheb_dist(#[trigger] started@[k], center) <= d,
                            forall|k1: int, k2: int| 0 <= k1 <= k2 < started@.len()
                                ==> cheb_dist(#[trigger] started@[k1], center) <= cheb_dist(#[trigger] started@[k2], center),
                            self.epoch_spec() == old(self).epoch_spec(),
                            self.block_count_spec() == old(self).block_count_spec(),
                        decreases side - oy,
                    {
                        let ghost sc = self@;
                        let qx: i32 = center.x + ox as i32 - d as i32;
                        let qy: i32 = center.y + oy as i32 - d as i32;
                        let qz: i32 = center.z + oz as i32 - d as i32;
                        let q = ChunkPos::new(qx, qy, qz);
                        if chebyshev(q, center) == d as u64 {
                            match self.find(q) {
                                None => {
                                    let e = ChunkEntry {
                                        pos: q,
                                        state: ChunkState::Generating,
                                        chunk: None,
                                        geometry: None,
                                        missing_neighbors: 0,
                                    };
                                    proof {
                                        lemma_push_entry(sc, e);
                                    }
                                    self.entries.push(e);
                                    started.push(q);
                                    proof {
                                        assert(self@ =~= sc.push(e));
                                    }
                                },
                                Some(_found) => {},
                            }
                        }
                        proof {
                            assert forall|q2: ChunkPos| #[trigger] has_entry(self@, q2)
                                == enqueue_covered(s0, center, d as int, ox as int, oz as int, oy as int + 1, q2) by {
                                if q2 == q {
                                    assert(has_entry(self@, q2) == (has_entry(sc, q2) || cheb_dist(q, center) == d));
                                } else {
                                    assert(has_entry(self@, q2) == has_entry(sc, q2));
                                    assert(shell_seen(center, d as int, ox as int, oz as int, oy as int + 1, q2)
                                        == shell_seen(center, d as int, ox as int, oz as int, oy as int, q2));
                                }
                            }
                        }
                        oy = oy + 1;
                    }
                    oz = oz + 1;
                }
                ox = ox + 1;
            }
            d = d + 1;
        }
        proof {
            assert forall|i: int| 0 <= i < self@.len() implies self.entry_ok(#[trigger] self@[i]) by {
                if i < l0 {
                    assert(self@[i] == s0[i]);
                    assert(old(self).entry_ok(s0[i]));
                }
            }
            assert forall|i: int| 0 <= i < self@.len() && counted_state((#[trigger] self@[i]).state)
                implies self@[i].missing_neighbors == missing_count(self@, self@[i].pos) by {
                assert(i < l0);
                assert(self@[i] == s0[i]);
                lemma_count_congruence(s0, self@, s0[i].pos, 6);
            }
        }
        started
    }
}

/// Whether an entry survives an eviction pass around `center`: a
/// visible entry must lie within `view_distance` of the observer's
/// chunk; any other entry may also sit in the one-chunk margin that
/// exists to supply border data.
pub open spec fn keeps(e: ChunkEntry, center: ChunkPos, view_distance: int) -> bool {
    cheb_dist(e.pos, center) <= if e.state == ChunkState::Visible {
        view_distance
    } else {
        view_distance + 1
    }
}

impl VoxelWorld {
    /// Drop every entry that has fallen out of range of the observer's
    /// chunk and return the dropped coordinates, so the caller can tear
    /// down their external render state. In-flight work for dropped
    /// coordinates is not cancelled; its eventual result fails the
    /// liveness check in `on_generated` / `on_meshed` and is discarded.
    /// The missing-neighbor counts of the survivors are re-derived from
    /// the shrunken map. Every surviving entry is again within range,
    /// so evicting twice removes nothing the second time.
    #[verifier::rlimit(100)]
    pub fn evict(&mut self, center: ChunkPos, view_distance: u32) -> (removed: Vec<ChunkPos>)
        requires
            old(self).wf(),
        ensures
            final(self).wf(),
            final(self).epoch_spec() == old(self).epoch_spec(),
            final(self).block_count_spec() == old(self).block_count_spec(),
            forall|q: ChunkPos| #[trigger] has_entry(final(self)@, q)
                == (has_entry(old(self)@, q) && keeps(entry_at(old(self)@, q), center, view_distance as int)),
            forall|q: ChunkPos| has_entry(final(self)@, q) ==> ({
                let e0 = entry_at(old(self)@, q);
                let e1 = #[trigger] entry_at(final(self)@, q);
                &&& e1.pos == e0.pos
                &&& e1.chunk == e0.chunk
                &&& e1.geometry == e0.geometry
                &&& (e1.state == e0.state || (counted_state(e0.state) && counted_state(e1.state)))
            }),
            forall|i: int| 0 <= i < final(self)@.len()
                ==> keeps(#[trigger] final(self)@[i], center, view_distance as int),
            forall|q: ChunkPos| #[trigger] removed@.contains(q)
                == (has_entry(old(self)@, q) && !keeps(entry_at(old(self)@, q), center, view_distance as int)),
    {
        let ghost s0 = self@;
        let mut kept: Vec<ChunkEntry> = Vec::new();
        let mut removed: Vec<ChunkPos> = Vec::new();
        let ghost mut processed: int = 0;
        while self.entries.len() > 0
            invariant
                0 <= processed <= s0.len(),
                self@ =~= s0.skip(processed),
                distinct_pos(kept@),
                forall|k: int| 0 <= k < kept@.len() ==> old(self).entry_ok(#[trigger] kept@[k])
                    && keeps(kept@[k], center, view_distance as int),
                forall|q: ChunkPos| #[trigger] has_entry(kept@, q) == exists|j: int| 0 <= j < processed
                    && (#[trigger] s0[j]).pos == q && keeps(s0[j], center, view_distance as int),
                forall|q: ChunkPos| has_entry(kept@, q)
                    ==> exists|j: int| 0 <= j < processed && #[trigger] entry_at(kept@, q) == s0[j] && s0[j].pos == q,
                forall|q: ChunkPos| #[trigger] removed@.contains(q) == exists|j: int| 0 <= j < processed
                    && (#[trigger] s0[j]).pos == q && !keeps(s0[j], center, view_distance as int),
                forall|i2: int| 0 <= i2 < kept@.len() ==> exists|j: int| 0 <= j < processed
                    && #[trigger] kept@[i2] == s0[j],
                self.epoch_spec() == old(self).epoch_spec(),
                self.block_count_spec() == old(self).block_count_spec(),
            decreases self@.len(),
        {
            let ghost sc = self@;
            let ghost keptc = kept@;
            let e = self.entries.remove(0);
            proof {
                assert(e == s0[processed]);
                assert(self@ =~= s0.skip(processed + 1));
            }
            let limit: u64 = if e.state == ChunkState::Visible {
                view_distance as u64
            } else {
                view_distance as u64 + 1
            };
            let near = chebyshev(e.pos, center) <= limit;
            proof {
                assert(near == keeps(e, center, view_distance as int));
            }
            if near {
                proof {
                    assert(!has_entry(keptc, e.pos)) by {
                        if has_entry(keptc, e.pos) {
                            let j = choose|j: int| 0 <= j < processed && (#[trigger] s0[j]).pos == e.pos
                                && keeps(s0[j], center, view_distance as int);
                            assert(s0[j].pos == s0[processed].pos);
                            assert(false);
                        }
                    }
                    lemma_push_entry(keptc, e);
                }
                kept.push(e);
                proof {
                    assert forall|q: ChunkPos| #[trigger] has_entry(kept@, q) == (exists|j: int| 0 <= j < processed + 1
                        && (#[trigger] s0[j]).pos == q && keeps(s0[j], center, view_distance as int)) by {
                        if q == e.pos {
                            assert(has_entry(kept@, q));
                            assert(s0[processed].pos == q && keeps(s0[processed], center, view_distance as int));
                        } else {
                            assert(has_entry(kept@, q) == has_entry(keptc, q));
                        }
                    }
                    assert forall|q: ChunkPos| has_entry(kept@, q)
                        implies exists|j: int| 0 <= j < processed + 1 && #[trigger] entry_at(kept@, q) == s0[j] && s0[j].pos == q by {
                        if q == e.pos {
                            assert(entry_at(kept@, q) == e);
                            assert(entry_at(kept@, q) == s0[processed] && s0[processed].pos == q);
                        } else {
                            assert(has_entry(keptc, q));
                            assert(entry_at(kept@, q) == entry_at(keptc, q));
                        }
                    }
                }
            } else {
                let ghost removedc = removed@;
                removed.push(e.pos);
                proof {
                    assert forall|q: ChunkPos| #[trigger] removed@.contains(q) == (exists|j: int| 0 <= j < processed + 1
                        && (#[trigger] s0[j]).pos == q && !keeps(s0[j], center, view_distance as int)) by {
                        if q == e.pos {
                            assert(removed@[removed@.len() - 1] == q);
                            assert(removed@.contains(q));
                        } else {
                            assert(removed@.contains(q) == removedc.contains(q)) by {
                                if removedc.contains(q) {
                                    let j = choose|j: int| 0 <= j < removedc.len() && removedc[j] == q;
                                    assert(removed@[j] == q);
                                }
                                if removed@.contains(q) {
                                    let j = choose|j: int| 0 <= j < removed@.len() && removed@[j] == q;
                                    assert(j < removedc.len());
                                    assert(removedc[j] == q);
                                }
                            }
                        }
                    }
                }
            }
            proof {
                processed = processed + 1;
            }
        }
        self.entries = kept;
        let ghost s1 = self@;
        proof {
            assert(processed == s0.len());
        }

        let mut j: usize = 0;
        while j < self.entries.len()
            invariant
                j <= self@.len(),
                self@.len() == s1.len(),
                distinct_pos(self@),
                forall|i2: int| 0 <= i2 < s1.len() ==> (#[trigger] self@[i2]).pos == s1[i2].pos,
                forall|i2: int| 0 <= i2 < s1.len() ==> (#[trigger] self@[i2]).chunk == s1[i2].chunk,
                forall|i2: int| 0 <= i2 < s1.len() ==> (#[trigger] self@[i2]).geometry == s1[i2].geometry,
                forall|q: ChunkPos| #[trigger] ready_at(self@, q) == ready_at(s1, q),
                forall|i2: int| 0 <= i2 < s1.len()
                    ==> ((#[trigger] self@[i2]).state == s1[i2].state
                        || (counted_state(s1[i2].state) && counted_state(self@[i2].state))),
                forall|i2: int| 0 <= i2 < s1.len() ==> ((#[trigger] self@[i2]).state == ChunkState::DensityReady
                    ==> self@[i2].missing_neighbors > 0),
                forall|i2: int| 0 <= i2 < s1.len() ==> ((#[trigger] self@[i2]).state != ChunkState::DensityReady
                    ==> self@[i2].missing_neighbors == 0),
                forall|i2: int| 0 <= i2 < s1.len() ==> (#[trigger] self@[i2]).pos.in_bounds(),
                forall|i2: int| 0 <= i2 < j && counted_state((#[trigger] self@[i2]).state)
                    ==> self@[i2].missing_neighbors == missing_count(self@, self@[i2].pos),
                forall|i2: int| 0 <= i2 < s1.len() ==> ((#[trigger] self@[i2]).state == ChunkState::Generating
                    <==> self@[i2].chunk is None),
                forall|i2: int| 0 <= i2 < s1.len() ==> ((#[trigger] self@[i2]).geometry is Some
                    <==> self@[i2].state == ChunkState::Visible),
                forall|i2: int| 0 <= i2 < s1.len() ==> ((#[trigger] self@[i2]).chunk matches Some(c)
                    ==> c.wf() && c.compat(self.block_count_spec())),
                self.epoch_spec() == old(self).epoch_spec(),
                self.block_count_spec() == old(self).block_count_spec(),
            decreases self@.len() - j,
        {
            let ghost sc = self@;
            self.refresh_entry(j);
            proof {
                let rj = refreshed_entry(sc, sc[j as int]);
                lemma_unready_bound(sc, sc[j as int].pos, 6);
                lemma_update_entry(sc, j as int, rj);
                assert forall|q: ChunkPos| #[trigger] ready_at(self@, q) == ready_at(sc, q) by {
                    if q == rj.pos {
                        assert(ready_at(self@, q) == (rj.chunk is Some));
                        assert(ready_at(sc, q) == (entry_at(sc, q).chunk is Some));
                    }
                }
                assert forall|p2: ChunkPos| #[trigger] missing_count(self@, p2) == missing_count(sc, p2) by {
                    lemma_count_congruence(sc, self@, p2, 6);
                }
            }
            j = j + 1;
        }
        proof {
            assert forall|i2: int| 0 <= i2 < self@.len() implies self.entry_ok(#[trigger] self@[i2]) by {
            }
            assert forall|q: ChunkPos| #[trigger] has_entry(self@, q) == has_entry(s1, q) by {
                if has_entry(self@, q) {
                    let a = choose|a: int| 0 <= a < self@.len() && (#[trigger] self@[a]).pos == q;
                    assert(s1[a].pos == q);
                }
                if has_entry(s1, q) {
                    let a = choose|a: int| 0 <= a < s1.len() && (#[trigger] s1[a]).pos == q;
                    assert(self@[a].pos == q);
                }
            }
            assert forall|q: ChunkPos| #[trigger] has_entry(self@, q)
                == (has_entry(s0, q) && keeps(entry_at(s0, q), center, view_distance as int)) by {
                assert(has_entry(self@, q) == has_entry(s1, q));
                if has_entry(s1, q) {
                    let jj = choose|jj: int| 0 <= jj < s0.len()
                        && (#[trigger] s0[jj]).pos == q && keeps(s0[jj], center, view_distance as int);
                    lemma_entry_at_witness(s0, jj);
                } else {
                    if has_entry(s0, q) && keeps(entry_at(s0, q), center, view_distance as int) {
                        let a = index_of(s0, q);
                        assert(0 <= a < s0.len() && s0[a].pos == q);
                        lemma_entry_at_witness(s0, a);
                        assert(s0[a].pos == q && keeps(s0[a], center, view_distance as int));
                        assert(has_entry(s1, q));
                        assert(false);
                    }
                }
            }
            assert forall|q: ChunkPos| has_entry(self@, q) implies ({
                let e0 = entry_at(s0, q);
                let e1 = #[trigger] entry_at(self@, q);
                &&& e1.pos == e0.pos
                &&& e1.chunk == e0.chunk
                &&& e1.geometry == e0.geometry
                &&& (e1.state == e0.state || (counted_state(e0.state) && counted_state(e1.state)))
            }) by {
                assert(has_entry(s1, q));
                let a = index_of(s1, q);
                assert(0 <= a < s1.len() && s1[a].pos == q);
                lemma_entry_at_witness(s1, a);
                lemma_entry_at_witness(self@, a);
                assert(entry_at(self@, q) == self@[a]);
                let jj = choose|jj: int| 0 <= jj < s0.len() && #[trigger] entry_at(s1, q) == s0[jj] && s0[jj].pos == q;
                lemma_entry_at_witness(s0, jj);
                assert(entry_at(s0, q) == s0[jj]);
            }
            assert forall|q: ChunkPos| #[trigger] removed@.contains(q)
                == (has_entry(s0, q) && !keeps(entry_at(s0, q), center, view_distance as int)) by {
                if removed@.contains(q) {
                    let jj = choose|jj: int| 0 <= jj < s0.len()
                        && (#[trigger] s0[jj]).pos == q && !keeps(s0[jj], center, view_distance as int);
                    lemma_entry_at_witness(s0, jj);
                }
                if has_entry(s0, q) && !keeps(entry_at(s0, q), center, view_distance as int) {
                    let a = index_of(s0, q);
                    assert(0 <= a < s0.len() && s0[a].pos == q);
                    lemma_entry_at_witness(s0, a);
                }
            }
            assert forall|i2: int| 0 <= i2 < self@.len()
                implies keeps(#[trigger] self@[i2], center, view_distance as int) by {
                assert(keeps(s1[i2], center, view_distance as int));
                assert(self@[i2].pos == s1[i2].pos);
            }
        }
        removed
    }
}

/// Eviction is idempotent: in a scheduler where every entry already
/// lies within its eviction limit — as every entry does right after an
/// eviction pass — there is nothing a second pass around the same
/// center could remove, so a coordinate is never evicted twice.
pub proof fn lemma_evict_idempotent(w: VoxelWorld, center: ChunkPos, view_distance: int)
    requires
        distinct_pos(w@),
        forall|i: int| 0 <= i < w@.len() ==> keeps(#[trigger] w@[i], center, view_distance),
    ensures
        forall|q: ChunkPos| !(#[trigger] has_entry(w@, q) && !keeps(entry_at(w@, q), center, view_distance)),
{
    assert forall|q: ChunkPos| !(#[trigger] has_entry(w@, q) && !keeps(entry_at(w@, q), center, view_distance)) by {
        if has_entry(w@, q) {
            let i = index_of(w@, q);
            assert(0 <= i < w@.len() && w@[i].pos == q);
            assert(keeps(w@[i], center, view_distance));
        }
    }
}

/// Scheduler dependency closure: a mesh-pending entry has all six of its
/// neighbors ready; no chunk becomes mesh-eligible while any neighbor
/// still misses density data.
pub proof fn lemma_mesh_pending_neighbors_ready(w: VoxelWorld, p: ChunkPos)
    requires
        w.wf(),
        has_entry(w@, p),
        entry_at(w@, p).state == ChunkState::MeshPending,
    ensures
        forall|k: int| 0 <= k < 6 ==> ready_at(w@, step_spec(p, #[trigger] direction_at(k))),
{
    let i = index_of(w@, p);
    assert(0 <= i < w@.len() && w@[i].pos == p);
    assert(w@[i].missing_neighbors == missing_count(w@, p));
    assert(w@[i].missing_neighbors == 0);
    lemma_unready_zero(w@, p, 6);
}

} // verus!
