//! The bounded chunk cache: a fixed pool of reusable slots keyed by chunk
//! coordinate, with least-recently-used eviction.

use vstd::prelude::*;
use vstd::set_lib::lemma_len_subset;
use crate::coord::ChunkCoord;

verus! {

/// Occupancy of one slot of the pool.
#[derive(Clone, Copy, Debug, PartialEq, Eq, Structural)]
pub enum ChunkState {
    Empty,
    Ready,
}

/// One reusable slot of the pool. The GPU resources belonging to a slot are
/// owned by the host, in an arena indexed by the slot's position, so a slot
/// here carries only occupancy, coordinate and recency.
#[derive(Clone, Copy, Debug)]
pub struct ChunkSlot {
    pub state: ChunkState,
    pub coord: Option<ChunkCoord>,
    pub last_used_frame: u64,
}

/// A slot holds a coordinate exactly when it is ready.
pub open spec fn slot_wf(s: ChunkSlot) -> bool {
    (s.state == ChunkState::Ready) <==> (s.coord is Some)
}

/// The set of coordinates held by a sequence of slots.
pub open spec fn coords_of(s: Seq<ChunkSlot>) -> Set<ChunkCoord>
    decreases s.len(),
{
    if s.len() == 0 {
        Set::empty()
    } else {
        match s.last().coord {
            Some(c) => coords_of(s.drop_last()).insert(c),
            None => coords_of(s.drop_last()),
        }
    }
}

/// `coords_of` is finite, no larger than the pool, and holds exactly the
/// coordinates some slot holds.
pub proof fn lemma_coords_of_membership(s: Seq<ChunkSlot>)
    ensures
        coords_of(s).finite(),
        coords_of(s).len() <= s.len(),
        forall|c: ChunkCoord|
            coords_of(s).contains(c) <==> exists|i: int|
                0 <= i < s.len() && #[trigger] s[i].coord == Some(c),
    decreases s.len(),
{
    if s.len() == 0 {
    } else {
        let rest = s.drop_last();
        lemma_coords_of_membership(rest);
        assert forall|c: ChunkCoord| coords_of(s).contains(c) implies exists|i: int|
            0 <= i < s.len() && #[trigger] s[i].coord == Some(c) by {
            if coords_of(rest).contains(c) {
                let i = choose|i: int| 0 <= i < rest.len() && #[trigger] rest[i].coord == Some(c);
                assert(s[i].coord == Some(c));
            } else {
                assert(s[s.len() - 1].coord == Some(c));
            }
        }
        assert forall|c: ChunkCoord|
            exists|i: int| 0 <= i < s.len() && #[trigger] s[i].coord == Some(c)
            implies coords_of(s).contains(c) by {
            let i = choose|i: int| 0 <= i < s.len() && #[trigger] s[i].coord == Some(c);
            if i < s.len() - 1 {
                assert(rest[i].coord == Some(c));
            }
        }
    }
}

/// When every slot is ready and no two slots hold the same coordinate, the
/// pool holds exactly as many coordinates as it has slots.
pub proof fn lemma_coords_of_full(s: Seq<ChunkSlot>)
    requires
        forall|i: int| 0 <= i < s.len() ==> (#[trigger] s[i].coord) is Some,
        forall|i: int, j: int|
            #![trigger s[i].coord, s[j].coord]
            0 <= i < s.len() && 0 <= j < s.len() && i != j ==> s[i].coord != s[j].coord,
    ensures
        coords_of(s).len() == s.len(),
    decreases s.len(),
{
    if s.len() == 0 {
    } else {
        let rest = s.drop_last();
        let c = s.last().coord->0;
        lemma_coords_of_full(rest);
        lemma_coords_of_membership(rest);
        if coords_of(rest).contains(c) {
            let i = choose|i: int| 0 <= i < rest.len() && #[trigger] rest[i].coord == Some(c);
            assert(s[i].coord == s[s.len() - 1].coord);
            assert(false);
        }
    }
}

/// The fixed-capacity pool of chunk slots. Capacity is set at construction
/// and never changes; slots are recycled, never destroyed.
pub struct ChunkCache {
    pub slots: Vec<ChunkSlot>,
}

impl ChunkCache {
    /// Every slot is coherent, and no coordinate is held by two slots.
    pub open spec fn wf(self) -> bool {
        &&& forall|i: int| 0 <= i < self.slots@.len() ==> slot_wf(#[trigger] self.slots@[i])
        &&& forall|i: int, j: int|
            #![trigger self.slots@[i].coord, self.slots@[j].coord]
            0 <= i < self.slots@.len() && 0 <= j < self.slots@.len() && i != j
                && self.slots@[i].coord is Some ==> self.slots@[i].coord != self.slots@[j].coord
    }

    /// Whether some slot holds this coordinate.
    pub open spec fn resident(self, c: ChunkCoord) -> bool {
        exists|i: int| 0 <= i < self.slots@.len() && #[trigger] self.slots@[i].coord == Some(c)
    }

    /// The set of resident coordinates.
    pub open spec fn resident_set(self) -> Set<ChunkCoord> {
        Set::new(|c: ChunkCoord| self.resident(c))
    }

    pub open spec fn has_empty(self) -> bool {
        exists|i: int| 0 <= i < self.slots@.len() && #[trigger] self.slots@[i].state
            == ChunkState::Empty
    }

    /// A pool of `capacity` empty slots.
    pub fn new(capacity: usize) -> (r: Self)
        ensures
            r.wf(),
            r.slots@.len() == capacity,
            forall|i: int|
                0 <= i < capacity ==> #[trigger] r.slots@[i] == (ChunkSlot {
                    state: ChunkState::Empty,
                    coord: None,
                    last_used_frame: 0,
                }),
    {
        let mut slots: Vec<ChunkSlot> = Vec::new();
        while slots.len() < capacity
            invariant
                slots@.len() <= capacity,
                forall|i: int|
                    0 <= i < slots@.len() ==> #[trigger] slots@[i] == (ChunkSlot {
                        state: ChunkState::Empty,
                        coord: None,
                        last_used_frame: 0,
                    }),
            decreases capacity - slots@.len(),
        {
            slots.push(ChunkSlot { state: ChunkState::Empty, coord: None, last_used_frame: 0 });
        }
        ChunkCache { slots }
    }

    /// The slot holding a coordinate, if any.
    pub fn lookup(&self, coord: ChunkCoord) -> (r: Option<usize>)
        requires
            self.wf(),
        ensures
            (r is Some) <==> self.resident(coord),
            r is Some ==> 0 <= r->0 < self.slots@.len() && self.slots@[r->0 as int].coord
                == Some(coord) && self.slots@[r->0 as int].state == ChunkState::Ready,
    {
        let n = self.slots.len();
        let mut i: usize = 0;
        while i < n
            invariant
                self.wf(),
                n == self.slots@.len(),
                i <= n,
                forall|j: int| 0 <= j < i ==> #[trigger] self.slots@[j].coord != Some(coord),
            decreases n - i,
        {
            if let Some(c) = self.slots[i].coord {
                if c == coord {
                    return Some(i);
                }
            }
            i += 1;
        }
        None
    }

    /// Refreshes the recency of a resident coordinate; does nothing when the
    /// coordinate is not resident. Occupancy and coordinates are unchanged.
    pub fn touch(&mut self, coord: ChunkCoord, tick: u64)
        requires
            old(self).wf(),
        ensures
            final(self).wf(),
            final(self).slots@.len() == old(self).slots@.len(),
            forall|j: int|
                0 <= j < old(self).slots@.len() ==> #[trigger] final(self).slots@[j].coord
                    == old(self).slots@[j].coord && final(self).slots@[j].state == old(
                    self,
                ).slots@[j].state,
            forall|j: int|
                0 <= j < old(self).slots@.len() && #[trigger] old(self).slots@[j].coord
                    != Some(coord) ==> final(self).slots@[j].last_used_frame == old(
                    self,
                ).slots@[j].last_used_frame,
            forall|j: int|
                0 <= j < old(self).slots@.len() && #[trigger] old(self).slots@[j].coord
                    == Some(coord) ==> final(self).slots@[j].last_used_frame == tick,
            forall|c: ChunkCoord| final(self).resident(c) <==> old(self).resident(c),
    {
        let n = self.slots.len();
        let mut i: usize = 0;
        while i < n
            invariant
                n == self.slots@.len(),
                i <= n,
                self.wf(),
                forall|j: int|
                    0 <= j < n ==> #[trigger] self.slots@[j].coord == old(self).slots@[j].coord
                        && self.slots@[j].state == old(self).slots@[j].state,
                forall|j: int|
                    i <= j < n ==> #[trigger] self.slots@[j].last_used_frame == old(
                        self,
                    ).slots@[j].last_used_frame,
                forall|j: int|
                    0 <= j < i && #[trigger] old(self).slots@[j].coord != Some(coord) ==> self
                        .slots@[j].last_used_frame == old(self).slots@[j].last_used_frame,
                forall|j: int|
                    0 <= j < i && #[trigger] old(self).slots@[j].coord == Some(coord) ==> self
                        .slots@[j].last_used_frame == tick,
            decreases n - i,
        {
            let slot = self.slots[i];
            if let Some(c) = slot.coord {
                if c == coord {
                    self.slots[i] = ChunkSlot {
                        state: slot.state,
                        coord: slot.coord,
                        last_used_frame: tick,
                    };
                }
            }
            i += 1;
        }
        proof {
            assert forall|c: ChunkCoord| final(self).resident(c) <==> old(self).resident(c) by {
                assert forall|j: int| 0 <= j < n implies #[trigger] self.slots@[j].coord == old(
                    self,
                ).slots@[j].coord by {}
            }
        }
    }

    /// The slot to receive a new coordinate: the lowest-index empty slot when
    /// one exists; otherwise the slot with the minimum `last_used_frame`,
    /// ties resolved to the lowest index.
    pub fn allocate_or_evict(&self) -> (r: usize)
        requires
            self.wf(),
            self.slots@.len() > 0,
        ensures
            0 <= r < self.slots@.len(),
            self.has_empty() ==> self.slots@[r as int].state == ChunkState::Empty && forall|j: int|
                0 <= j < r ==> #[trigger] self.slots@[j].state != ChunkState::Empty,
            !self.has_empty() ==> (forall|j: int|
                0 <= j < self.slots@.len() ==> self.slots@[r as int].last_used_frame
                    <= #[trigger] self.slots@[j].last_used_frame) && (forall|j: int|
                0 <= j < r ==> self.slots@[r as int].last_used_frame < #[trigger] self
                    .slots@[j].last_used_frame),
    {
        let n = self.slots.len();
        let mut i: usize = 0;
        while i < n
            invariant
                n == self.slots@.len(),
                i <= n,
                forall|j: int| 0 <= j < i ==> #[trigger] self.slots@[j].state != ChunkState::Empty,
            decreases n - i,
        {
            if matches!(self.slots[i].state, ChunkState::Empty) {
                return i;
            }
            i += 1;
        }
        let mut oldest_idx: usize = 0;
        let mut k: usize = 1;
        while k < n
            invariant
                n == self.slots@.len(),
                1 <= k <= n,
                0 <= oldest_idx < k,
                forall|j: int|
                    0 <= j < k ==> self.slots@[oldest_idx as int].last_used_frame <= #[trigger] self
                        .slots@[j].last_used_frame,
                forall|j: int|
                    0 <= j < oldest_idx ==> self.slots@[oldest_idx as int].last_used_frame
                        < #[trigger] self.slots@[j].last_used_frame,
            decreases n - k,
        {
            if self.slots[k].last_used_frame < self.slots[oldest_idx].last_used_frame {
                oldest_idx = k;
            }
            k += 1;
        }
        oldest_idx
    }

    /// Installs a coordinate in a slot: the slot becomes ready with the given
    /// coordinate and recency; every other slot is unchanged. The slot's
    /// previous coordinate, if any, thereby ceases to be resident.
    pub fn populate(&mut self, idx: usize, coord: ChunkCoord, tick: u64)
        requires
            old(self).wf(),
            idx < old(self).slots@.len(),
            forall|i: int|
                0 <= i < old(self).slots@.len() && i != idx ==> #[trigger] old(
                    self,
                ).slots@[i].coord != Some(coord),
        ensures
            final(self).wf(),
            final(self).slots@ == old(self).slots@.update(
                idx as int,
                (ChunkSlot { state: ChunkState::Ready, coord: Some(coord), last_used_frame: tick }),
            ),
            final(self).resident(coord),
    {
        self.slots[idx] = ChunkSlot {
            state: ChunkState::Ready,
            coord: Some(coord),
            last_used_frame: tick,
        };
        proof {
            assert(final(self).slots@[idx as int].coord == Some(coord));
        }
    }

    /// Empties every slot. Recency values are retained; they are harmless,
    /// because allocation prefers empty slots to eviction.
    pub fn invalidate_all(&mut self)
        requires
            old(self).wf(),
        ensures
            final(self).wf(),
            final(self).slots@.len() == old(self).slots@.len(),
            forall|j: int|
                0 <= j < old(self).slots@.len() ==> #[trigger] final(self).slots@[j].state
                    == ChunkState::Empty,
            forall|j: int|
                0 <= j < old(self).slots@.len() ==> (#[trigger] final(self).slots@[j].coord)
                    is None,
            forall|j: int|
                0 <= j < old(self).slots@.len() ==> #[trigger] final(self).slots@[j].last_used_frame
                    == old(self).slots@[j].last_used_frame,
            forall|c: ChunkCoord| !final(self).resident(c),
    {
        let n = self.slots.len();
        let mut i: usize = 0;
        while i < n
            invariant
                n == self.slots@.len(),
                self.slots@.len() == old(self).slots@.len(),
                i <= n,
                forall|j: int|
                    0 <= j < i ==> #[trigger] self.slots@[j].state == ChunkState::Empty,
                forall|j: int| 0 <= j < i ==> (#[trigger] self.slots@[j].coord) is None,
                forall|j: int|
                    0 <= j < i ==> #[trigger] self.slots@[j].last_used_frame == old(
                        self,
                    ).slots@[j].last_used_frame,
                forall|j: int| i <= j < n ==> #[trigger] self.slots@[j] == old(self).slots@[j],
            decreases n - i,
        {
            let last = self.slots[i].last_used_frame;
            self.slots[i] = ChunkSlot { state: ChunkState::Empty, coord: None, last_used_frame: last };
            i += 1;
        }
    }

    /// Number of slots in the pool.
    pub fn capacity(&self) -> (r: usize)
        ensures
            r == self.slots@.len(),
    {
        self.slots.len()
    }
}

/// Bounded residency: the pool never holds more coordinates than it has
/// slots, and no coordinate is held by two slots at once.
pub proof fn lemma_bounded_residency(cache: ChunkCache)
    requires
        cache.wf(),
    ensures
        cache.resident_set().finite(),
        cache.resident_set().len() <= cache.slots@.len(),
        forall|i: int, j: int|
            #![trigger cache.slots@[i].coord, cache.slots@[j].coord]
            0 <= i < cache.slots@.len() && 0 <= j < cache.slots@.len() && i != j
                && cache.slots@[i].coord is Some ==> cache.slots@[i].coord
                != cache.slots@[j].coord,
{
    lemma_coords_of_membership(cache.slots@);
    assert(cache.resident_set() =~= coords_of(cache.slots@));
}

/// A resident set as large as the pool leaves no room: any set of
/// coordinates that contains every resident coordinate and has the pool's
/// size is exactly the resident set, so every coordinate of that set is
/// resident.
pub proof fn lemma_full_pool_resident(cache: ChunkCache, window: Set<ChunkCoord>, c: ChunkCoord)
    requires
        cache.wf(),
        forall|i: int| 0 <= i < cache.slots@.len() ==> (#[trigger] cache.slots@[i].coord) is Some,
        forall|d: ChunkCoord| cache.resident(d) ==> window.contains(d),
        window.finite(),
        window.len() == cache.slots@.len(),
        window.contains(c),
    ensures
        cache.resident(c),
{
    lemma_coords_of_membership(cache.slots@);
    lemma_coords_of_full(cache.slots@);
    let res = coords_of(cache.slots@);
    assert(res.subset_of(window));
    if !res.contains(c) {
        let smaller = window.remove(c);
        assert(res.subset_of(smaller));
        lemma_len_subset(res, smaller);
        assert(false);
    }
}

} // verus!
