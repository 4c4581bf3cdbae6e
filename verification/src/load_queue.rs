//! Chunks waiting to be read from storage: each asked for once, read a few
//! at a time, in the order asked.
use vstd::prelude::*;
use crate::controls::{detail_view, StorageState, StorageStatus};
use crate::errors::{describe_spec, StorageError};
use crate::types::{key_view, ChunkKey};
use crate::world::{ChunkCoord, ChunkLayer, SimChunkData};

verus! {

/// Chunk loads asked for and not yet started, and loads under way.
pub struct ChunkLoadState {
    pub queue: Vec<ChunkKey>,
    pub in_flight: Vec<ChunkKey>,
    pub max_in_flight: usize,
}

impl Default for ChunkLoadState {
    fn default() -> (s: Self)
        ensures
            s.queue@.len() == 0,
            s.in_flight@.len() == 0,
            s.max_in_flight == 6,
    {
        ChunkLoadState { queue: Vec::new(), in_flight: Vec::new(), max_in_flight: 6 }
    }
}

/// Keys as plain values.
pub open spec fn keys_of(s: Seq<ChunkKey>) -> Seq<(Seq<char>, ChunkCoord, ChunkLayer)> {
    s.map_values(|k: ChunkKey| key_view(k))
}

/// `s` without the keys naming the chunk `key` names.
pub open spec fn without_key(s: Seq<ChunkKey>, key: ChunkKey) -> Seq<ChunkKey>
    decreases s.len(),
{
    if s.len() == 0 {
        s
    } else {
        let rest = without_key(s.drop_last(), key);
        if key_view(s.last()) == key_view(key) {
            rest
        } else {
            rest.push(s.last())
        }
    }
}

fn holds_key(keys: &Vec<ChunkKey>, key: &ChunkKey) -> (b: bool)
    ensures
        b == keys_of(keys@).contains(key_view(*key)),
{
    let mut i: usize = 0;
    while i < keys.len()
        invariant
            0 <= i <= keys@.len(),
            forall|j: int| 0 <= j < i ==> key_view(#[trigger] keys@[j]) != key_view(*key),
        decreases keys@.len() - i,
    {
        if keys[i].same_as(key) {
            assert(keys_of(keys@)[i as int] == key_view(*key));
            return true;
        }
        i = i + 1;
    }
    proof {
        if keys_of(keys@).contains(key_view(*key)) {
            let j = choose|j: int| 0 <= j < keys_of(keys@).len() && keys_of(keys@)[j] == key_view(*key);
            assert(key_view(keys@[j]) != key_view(*key));
        }
    }
    false
}

impl ChunkLoadState {
    /// Asks for a chunk: it joins the end of the queue unless it is already
    /// waiting or being read.
    pub fn request(&mut self, key: &ChunkKey)
        ensures
            final(self).max_in_flight == old(self).max_in_flight,
            final(self).in_flight@ == old(self).in_flight@,
            final(self).queue@ == requested(old(self).queue@, old(self).in_flight@, *key),
    {
        if holds_key(&self.in_flight, key) || holds_key(&self.queue, key) {
            return;
        }
        self.queue.push(key.duplicate());
    }

    /// Starts the next load while fewer than the limit are under way: the
    /// first waiting chunk moves from the queue to the loads under way.
    pub fn start_next(&mut self) -> (r: Option<ChunkKey>)
        ensures
            final(self).max_in_flight == old(self).max_in_flight,
            old(self).in_flight@.len() < old(self).max_in_flight && old(self).queue@.len() > 0 ==> {
                &&& r == Some(old(self).queue@[0])
                &&& final(self).queue@ == old(self).queue@.drop_first()
                &&& final(self).in_flight@ == old(self).in_flight@.push(old(self).queue@[0])
            },
            !(old(self).in_flight@.len() < old(self).max_in_flight && old(self).queue@.len() > 0) ==> {
                &&& r is None
                &&& final(self).queue@ == old(self).queue@
                &&& final(self).in_flight@ == old(self).in_flight@
            },
    {
        if self.in_flight.len() >= self.max_in_flight || self.queue.len() == 0 {
            return None;
        }
        let key = self.queue.remove(0);
        assert(self.queue@ =~= old(self).queue@.drop_first());
        self.in_flight.push(key.duplicate());
        Some(key)
    }

    /// A load has ended, read or failed: its chunk is no longer under way.
    pub fn finish(&mut self, key: &ChunkKey)
        ensures
            final(self).max_in_flight == old(self).max_in_flight,
            final(self).queue@ == old(self).queue@,
            final(self).in_flight@ == without_key(old(self).in_flight@, *key),
    {
        let ghost before = self.in_flight@;
        let mut kept: Vec<ChunkKey> = Vec::new();
        let mut i: usize = 0;
        while i < self.in_flight.len()
            invariant
                self.in_flight@ == before,
                0 <= i <= before.len(),
                kept@ == without_key(before.take(i as int), *key),
            decreases before.len() - i,
        {
            let k = &self.in_flight[i];
            assert(before.take(i + 1).drop_last() =~= before.take(i as int));
            if !k.same_as(key) {
                kept.push(k.duplicate());
            }
            i = i + 1;
        }
        assert(before.take(before.len() as int) =~= before);
        self.in_flight = kept;
    }
}

/// Every chunk waits or is being read at most once, and never both.
pub open spec fn each_once(queue: Seq<ChunkKey>, in_flight: Seq<ChunkKey>) -> bool {
    &&& keys_of(queue).no_duplicates()
    &&& keys_of(in_flight).no_duplicates()
    &&& forall|i: int, j: int|
        0 <= i < queue.len() && 0 <= j < in_flight.len() ==> key_view(#[trigger] queue[i]) != key_view(
            #[trigger] in_flight[j],
        )
}

/// The queue after asking for `key`.
pub open spec fn requested(queue: Seq<ChunkKey>, in_flight: Seq<ChunkKey>, key: ChunkKey) -> Seq<ChunkKey> {
    if keys_of(in_flight).contains(key_view(key)) || keys_of(queue).contains(key_view(key)) {
        queue
    } else {
        queue.push(key)
    }
}

/// Asking for a chunk never makes it wait twice or wait while being read.
pub proof fn lemma_request_keeps_each_once(queue: Seq<ChunkKey>, in_flight: Seq<ChunkKey>, key: ChunkKey)
    requires
        each_once(queue, in_flight),
    ensures
        each_once(requested(queue, in_flight, key), in_flight),
{
    if !(keys_of(in_flight).contains(key_view(key)) || keys_of(queue).contains(key_view(key))) {
        let q = queue.push(key);
        let n = queue.len() as int;
        assert forall|i: int, j: int| 0 <= i < keys_of(q).len() && 0 <= j < keys_of(q).len() && i != j implies keys_of(
            q,
        )[i] != keys_of(q)[j] by {
            if i == n {
                assert(keys_of(queue)[j] == keys_of(q)[j]);
            } else if j == n {
                assert(keys_of(queue)[i] == keys_of(q)[i]);
            } else {
                assert(keys_of(queue)[i] == keys_of(q)[i] && keys_of(queue)[j] == keys_of(q)[j]);
            }
        }
        assert forall|i: int, j: int| 0 <= i < q.len() && 0 <= j < in_flight.len() implies key_view(#[trigger] q[i])
            != key_view(#[trigger] in_flight[j]) by {
            if i == n {
                assert(keys_of(in_flight)[j] == key_view(in_flight[j]));
            } else {
                assert(q[i] == queue[i]);
            }
        }
    }
}

/// Starting the next read moves a chunk from waiting to being read, each
/// still at most once.
pub proof fn lemma_start_keeps_each_once(queue: Seq<ChunkKey>, in_flight: Seq<ChunkKey>)
    requires
        each_once(queue, in_flight),
        queue.len() > 0,
    ensures
        each_once(queue.drop_first(), in_flight.push(queue[0])),
{
    let q = queue.drop_first();
    let f = in_flight.push(queue[0]);
    let m = in_flight.len() as int;
    assert forall|i: int, j: int| 0 <= i < keys_of(q).len() && 0 <= j < keys_of(q).len() && i != j implies keys_of(
        q,
    )[i] != keys_of(q)[j] by {
        assert(keys_of(q)[i] == keys_of(queue)[i + 1] && keys_of(q)[j] == keys_of(queue)[j + 1]);
    }
    assert forall|i: int, j: int| 0 <= i < keys_of(f).len() && 0 <= j < keys_of(f).len() && i != j implies keys_of(
        f,
    )[i] != keys_of(f)[j] by {
        if i == m {
            assert(key_view(queue[0]) != key_view(in_flight[j]));
        } else if j == m {
            assert(key_view(queue[0]) != key_view(in_flight[i]));
        } else {
            assert(keys_of(f)[i] == keys_of(in_flight)[i] && keys_of(f)[j] == keys_of(in_flight)[j]);
        }
    }
    assert forall|i: int, j: int| 0 <= i < q.len() && 0 <= j < f.len() implies key_view(#[trigger] q[i]) != key_view(
        #[trigger] f[j],
    ) by {
        assert(q[i] == queue[i + 1]);
        if j == m {
            assert(keys_of(queue)[i + 1] != keys_of(queue)[0]);
        } else {
            assert(f[j] == in_flight[j]);
        }
    }
}

proof fn lemma_without_key_from(s: Seq<ChunkKey>, key: ChunkKey)
    requires
        keys_of(s).no_duplicates(),
    ensures
        keys_of(without_key(s, key)).no_duplicates(),
        forall|i: int| 0 <= i < without_key(s, key).len() ==> exists|j: int|
            0 <= j < s.len() && #[trigger] without_key(s, key)[i] == s[j],
    decreases s.len(),
{
    if s.len() > 0 {
        let rest = s.drop_last();
        assert(keys_of(rest).no_duplicates()) by {
            assert forall|i: int, j: int| 0 <= i < keys_of(rest).len() && 0 <= j < keys_of(rest).len() && i != j implies keys_of(
                rest,
            )[i] != keys_of(rest)[j] by {
                assert(keys_of(rest)[i] == keys_of(s)[i] && keys_of(rest)[j] == keys_of(s)[j]);
            }
        }
        lemma_without_key_from(rest, key);
        let w = without_key(rest, key);
        if key_view(s.last()) != key_view(key) {
            let w2 = w.push(s.last());
            let n = w.len() as int;
            assert forall|i: int| 0 <= i < w2.len() implies exists|j: int| 0 <= j < s.len() && #[trigger] w2[i] == s[j] by {
                if i == n {
                    assert(w2[i] == s[s.len() - 1]);
                } else {
                    let j = choose|j: int| 0 <= j < rest.len() && #[trigger] w[i] == rest[j];
                    assert(w2[i] == s[j]);
                }
            }
            assert forall|i: int, j: int| 0 <= i < keys_of(w2).len() && 0 <= j < keys_of(w2).len() && i != j implies keys_of(
                w2,
            )[i] != keys_of(w2)[j] by {
                if i == n || j == n {
                    let other = if i == n { j } else { i };
                    let k = choose|k: int| 0 <= k < rest.len() && #[trigger] w[other] == rest[k];
                    assert(keys_of(s)[k] != keys_of(s)[s.len() - 1]);
                    assert(w2[other] == w[other]);
                } else {
                    assert(keys_of(w2)[i] == keys_of(w)[i] && keys_of(w2)[j] == keys_of(w)[j]);
                }
            }
        }
    }
}

/// Ending a read keeps every chunk waiting or being read at most once.
pub proof fn lemma_finish_keeps_each_once(queue: Seq<ChunkKey>, in_flight: Seq<ChunkKey>, key: ChunkKey)
    requires
        each_once(queue, in_flight),
    ensures
        each_once(queue, without_key(in_flight, key)),
{
    lemma_without_key_from(in_flight, key);
    let f = without_key(in_flight, key);
    assert forall|i: int, j: int| 0 <= i < queue.len() && 0 <= j < f.len() implies key_view(#[trigger] queue[i])
        != key_view(#[trigger] f[j]) by {
        let k = choose|k: int| 0 <= k < in_flight.len() && #[trigger] f[j] == in_flight[k];
        assert(key_view(queue[i]) != key_view(in_flight[k]));
    }
}

/// What an ended read gives the world: the chunk read, or `Some(None)`
/// when storage holds none (it is then generated), or nothing on a failure.
/// A read clears a storage error (unless saving is paused); a failure other
/// than a missing chunk is recorded in the status.
pub fn load_outcome(result: Result<Option<SimChunkData>, StorageError>, status: &mut StorageStatus) -> (r: Option<
    Option<SimChunkData>,
>)
    ensures
        match result {
            Ok(d) => {
                &&& r == Some(d)
                &&& old(status).state == StorageState::Paused ==> final(status).state == old(status).state
                    && detail_view(final(status).detail) == detail_view(old(status).detail)
                &&& old(status).state != StorageState::Paused ==> final(status).state == StorageState::Healthy
                    && final(status).detail is None
            },
            Err(StorageError::NotFound) => r == Some(None::<SimChunkData>) && *final(status) == *old(status),
            Err(StorageError::QuotaExceeded) => r is None && final(status).state == StorageState::Paused
                && detail_view(final(status).detail) == Some("storage quota exceeded (autosave paused)"@),
            Err(e) => r is None && final(status).state == StorageState::Degraded && detail_view(final(status).detail)
                == Some(describe_spec(e)),
        },
{
    match result {
        Ok(d) => {
            status.mark_ok();
            Some(d)
        },
        Err(StorageError::NotFound) => Some(None),
        Err(e) => {
            status.record_error(&e);
            None
        },
    }
}

} // verus!
