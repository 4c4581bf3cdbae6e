//! Which loaded chunks leave memory when too many are loaded: those outside
//! the area kept around the camera, least recently used first, a few per
//! frame, and unsaved ones only once their save is queued.
use vstd::prelude::*;

verus! {

/// How many chunks may stay loaded, how far around the camera they are kept,
/// and how many may leave in one frame.
#[derive(Debug, Copy, Clone)]
pub struct ChunkCacheConfig {
    pub max_loaded_chunks: usize,
    pub keep_radius_chunks: i32,
    pub evict_per_frame: usize,
}

impl Default for ChunkCacheConfig {
    fn default() -> (c: Self)
        ensures
            c.max_loaded_chunks == 512,
            c.keep_radius_chunks == 6,
            c.evict_per_frame == 8,
    {
        ChunkCacheConfig { max_loaded_chunks: 512, keep_radius_chunks: 6, evict_per_frame: 8 }
    }
}

/// Candidate `a` was used before candidate `b`: in an earlier frame, or in
/// the same frame and listed first.
pub open spec fn used_before(frames: Seq<u64>, a: int, b: int) -> bool {
    frames[a] < frames[b] || (frames[a] == frames[b] && a < b)
}

/// Candidate `m` appears in `order`.
pub open spec fn listed(order: Seq<usize>, m: int) -> bool {
    exists|i: int| 0 <= i < order.len() && order[i] == m
}

/// `order` lists every candidate once, least recently used first, and
/// candidates used in the same frame in the order they were listed.
pub open spec fn is_lru_order(frames: Seq<u64>, order: Seq<usize>) -> bool {
    &&& order.len() == frames.len()
    &&& forall|i: int| 0 <= i < order.len() ==> order[i] < frames.len()
    &&& forall|i: int, j: int|
        0 <= i < j < order.len() ==> used_before(frames, #[trigger] order[i] as int, #[trigger] order[j] as int)
    &&& forall|m: int| 0 <= m < frames.len() ==> #[trigger] listed(order, m)
}

/// The candidates, by their last frame of use, in eviction order.
pub fn lru_order(frames: &[u64]) -> (order: Vec<usize>)
    ensures
        is_lru_order(frames@, order@),
{
    let mut order: Vec<usize> = Vec::new();
    let mut k: usize = 0;
    while k < frames.len()
        invariant
            k <= frames@.len(),
            order@.len() == k,
            forall|i: int| 0 <= i < order@.len() ==> order@[i] < k,
            forall|i: int, j: int|
                0 <= i < j < order@.len() ==> used_before(frames@, #[trigger] order@[i] as int, #[trigger] order@[j] as int),
            forall|m: int| 0 <= m < k ==> #[trigger] listed(order@, m),
        decreases frames@.len() - k,
    {
        let mut pos: usize = 0;
        while pos < order.len() && frames[order[pos]] <= frames[k]
            invariant
                k < frames@.len(),
                pos <= order@.len(),
                forall|i: int| 0 <= i < order@.len() ==> order@[i] < k,
                forall|i: int| 0 <= i < pos ==> frames@[#[trigger] order@[i] as int] <= frames@[k as int],
            decreases order@.len() - pos,
        {
            pos = pos + 1;
        }
        let ghost before = order@;
        order.insert(pos, k);
        proof {
            assert forall|i: int, j: int| 0 <= i < j < order@.len() implies used_before(
                frames@,
                #[trigger] order@[i] as int,
                #[trigger] order@[j] as int,
            ) by {
                if j < pos {
                    assert(order@[i] == before[i] && order@[j] == before[j]);
                } else if j == pos {
                    assert(order@[i] == before[i]);
                    assert(frames@[before[i] as int] <= frames@[k as int]);
                } else if i < pos {
                    assert(order@[i] == before[i] && order@[j] == before[j - 1]);
                } else if i == pos {
                    assert(order@[j] == before[j - 1]);
                    assert(frames@[before[pos as int] as int] > frames@[k as int]);
                    if j - 1 > pos {
                        assert(used_before(frames@, before[pos as int] as int, before[j - 1] as int));
                    }
                } else {
                    assert(order@[i] == before[i - 1] && order@[j] == before[j - 1]);
                }
            }
            assert forall|m: int| 0 <= m < k + 1 implies #[trigger] listed(order@, m) by {
                if m == k {
                    assert(order@[pos as int] == k);
                } else {
                    assert(listed(before, m));
                    let i = choose|i: int| 0 <= i < before.len() && before[i] == m;
                    if i < pos {
                        assert(order@[i] == m);
                    } else {
                        assert(order@[i + 1] == m);
                    }
                }
            }
        }
        k = k + 1;
    }
    order
}

/// What the eviction pass does with the next candidate.
#[derive(Debug, Copy, Clone, PartialEq, Eq, Structural)]
pub enum EvictionStep {
    /// Few enough chunks are loaded, or this frame's share is used up.
    Stop,
    /// The chunk has unsaved changes and saves are still waiting.
    Skip,
    /// The chunk leaves memory.
    Evict,
    /// The chunk's save is queued first, then it leaves memory.
    SaveThenEvict,
}

/// Eviction runs when more chunks are loaded than allowed, the area kept
/// around the camera is known, and at most 512 saves are waiting.
pub fn eviction_allowed(pending_saves: usize, loaded: usize, max_loaded: usize, keep_area_known: bool) -> (b: bool)
    ensures
        b == (pending_saves <= 512 && loaded > max_loaded && keep_area_known),
{
    pending_saves <= 512 && loaded > max_loaded && keep_area_known
}

/// The decision for the next candidate, with `loaded` chunks in memory and
/// `evicted` gone this frame; `dirty_allowed` says whether no saves were
/// waiting when the pass began. As a table:
///
/// | pass over | unsaved changes | saves allowed | save queued | step          |
/// |-----------|-----------------|---------------|-------------|---------------|
/// | yes       | any             | any           | any         | Stop          |
/// | no        | no              | any           | any         | Evict         |
/// | no        | yes             | no            | any         | Skip          |
/// | no        | yes             | yes           | no          | SaveThenEvict |
/// | no        | yes             | yes           | yes         | Evict         |
///
/// The pass is over when few enough chunks are loaded or this frame's share
/// is used up.
pub open spec fn eviction_step_spec(
    loaded: usize,
    max_loaded: usize,
    evicted: usize,
    per_frame: usize,
    dirty_allowed: bool,
    dirty: bool,
    save_queued: bool,
) -> EvictionStep {
    let over = loaded <= max_loaded || evicted >= per_frame;
    match (over, dirty, dirty_allowed, save_queued) {
        (true, _, _, _) => EvictionStep::Stop,
        (false, false, _, _) => EvictionStep::Evict,
        (false, true, false, _) => EvictionStep::Skip,
        (false, true, true, false) => EvictionStep::SaveThenEvict,
        (false, true, true, true) => EvictionStep::Evict,
    }
}

/// The decision for the next candidate.
pub fn eviction_step(
    loaded: usize,
    max_loaded: usize,
    evicted: usize,
    per_frame: usize,
    dirty_allowed: bool,
    dirty: bool,
    save_queued: bool,
) -> (s: EvictionStep)
    ensures
        s == eviction_step_spec(loaded, max_loaded, evicted, per_frame, dirty_allowed, dirty, save_queued),
{
    if loaded <= max_loaded || evicted >= per_frame {
        EvictionStep::Stop
    } else if dirty && !dirty_allowed {
        EvictionStep::Skip
    } else if dirty && !save_queued {
        EvictionStep::SaveThenEvict
    } else {
        EvictionStep::Evict
    }
}

/// No chunk with unsaved changes leaves memory without its save queued: it
/// is skipped, or evicted after queuing its save, or its save was queued.
pub proof fn lemma_unsaved_never_dropped(
    loaded: usize,
    max_loaded: usize,
    evicted: usize,
    per_frame: usize,
    dirty_allowed: bool,
    save_queued: bool,
)
    ensures
        eviction_step_spec(loaded, max_loaded, evicted, per_frame, dirty_allowed, true, save_queued)
            == EvictionStep::Evict ==> save_queued,
        !dirty_allowed ==> eviction_step_spec(loaded, max_loaded, evicted, per_frame, dirty_allowed, true, save_queued)
            != EvictionStep::Evict && eviction_step_spec(
            loaded,
            max_loaded,
            evicted,
            per_frame,
            dirty_allowed,
            true,
            save_queued,
        ) != EvictionStep::SaveThenEvict,
{
}

/// Chunks evicted in the current one-second window, and the count of the
/// last full window.
#[derive(Debug, Copy, Clone)]
pub struct EvictionCounts {
    pub evicted_this_window: usize,
    pub evicted_per_second: usize,
}

impl EvictionCounts {
    /// Adds a frame's evictions; when the window closes, its total becomes
    /// the rate shown and a new window starts.
    pub fn record(&mut self, evicted: usize, window_closed: bool)
        requires
            old(self).evicted_this_window + evicted <= usize::MAX,
        ensures
            window_closed ==> final(self).evicted_per_second == old(self).evicted_this_window + evicted
                && final(self).evicted_this_window == 0,
            !window_closed ==> final(self).evicted_per_second == old(self).evicted_per_second
                && final(self).evicted_this_window == old(self).evicted_this_window + evicted,
    {
        self.evicted_this_window = self.evicted_this_window + evicted;
        if window_closed {
            self.evicted_per_second = self.evicted_this_window;
            self.evicted_this_window = 0;
        }
    }
}

} // verus!
