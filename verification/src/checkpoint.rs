//! Checkpoint bookkeeping: which kernel checkpoints exist, in creation order,
//! with the oldest rotated out beyond a fixed budget. The files themselves
//! are written and removed by the caller.
use std::collections::VecDeque;
use vstd::prelude::*;
use vstd::string::StringExecFns;

verus! {

/// What is recorded beside each checkpoint.
pub struct CheckpointMetadata {
    pub kernel_hash: String,
    pub iteration: u64,
    pub timestamp: u64,
    pub grid: (u32, u32, u32),
    pub block: (u32, u32, u32),
    pub shared_mem_bytes: u32,
    pub shape: Vec<usize>,
    pub strides: Vec<isize>,
}

/// Checkpoints of one directory, oldest first, at most `max_checkpoints` of them.
pub struct CheckpointManager {
    checkpoint_dir: String,
    max_checkpoints: usize,
    history: VecDeque<String>,
}

/// The text of every entry.
pub open spec fn texts(v: Seq<String>) -> Seq<Seq<char>> {
    Seq::new(v.len(), |i: int| v[i]@)
}

/// Entries dropped from the front of `h` to keep at most `max` of them.
pub open spec fn overflow(h: Seq<Seq<char>>, max: usize) -> int {
    if h.len() > max {
        h.len() - max
    } else {
        0
    }
}

impl CheckpointManager {
    /// Hashes of the recorded checkpoints, oldest first.
    pub closed spec fn history(&self) -> Seq<Seq<char>> {
        texts(self.history@)
    }

    /// The most checkpoints kept.
    pub closed spec fn capacity(&self) -> usize {
        self.max_checkpoints
    }

    /// The checkpoint directory.
    pub closed spec fn dir(&self) -> Seq<char> {
        self.checkpoint_dir@
    }

    /// An empty history for `checkpoint_dir`, keeping at most `max_checkpoints`.
    pub fn new(checkpoint_dir: &str, max_checkpoints: usize) -> (r: CheckpointManager)
        ensures
            r.dir() == checkpoint_dir@,
            r.capacity() == max_checkpoints,
            r.history() == Seq::<Seq<char>>::empty(),
    {
        let r = CheckpointManager {
            checkpoint_dir: String::from_str(checkpoint_dir),
            max_checkpoints,
            history: VecDeque::new(),
        };
        proof {
            assert(r.history() =~= Seq::<Seq<char>>::empty());
        }
        r
    }

    /// The checkpoint directory.
    pub fn checkpoint_dir(&self) -> (r: &str)
        ensures
            r@ == self.dir(),
    {
        self.checkpoint_dir.as_str()
    }

    /// Records that checkpoint `hash` was written, then rotates the oldest
    /// entries out until at most `capacity()` remain. Returns the rotated-out
    /// hashes, oldest first, whose files the caller removes.
    pub fn record_saved(&mut self, hash: &str) -> (evicted: Vec<String>)
        ensures
            final(self).dir() == old(self).dir(),
            final(self).capacity() == old(self).capacity(),
            final(self).history() == kept_after_save(old(self).history(), hash@, old(self).capacity()),
            texts(evicted@) == evicted_by_save(old(self).history(), hash@, old(self).capacity()),
    {
        let ghost all = old(self).history().push(hash@);
        self.history.push_back(hash.to_owned());
        let mut evicted: Vec<String> = Vec::new();
        proof {
            assert(texts(self.history@) =~= all);
            assert(texts(evicted@) =~= all.take(0));
        }
        while self.history.len() > self.max_checkpoints
            invariant
                self.checkpoint_dir == old(self).checkpoint_dir,
                self.max_checkpoints == old(self).max_checkpoints,
                all.len() == evicted.len() + self.history@.len(),
                texts(self.history@) == all.skip(evicted.len() as int),
                texts(evicted@) == all.take(evicted.len() as int),
                evicted.len() <= overflow(all, self.max_checkpoints),
            decreases self.history@.len(),
        {
            let ghost k = evicted.len() as int;
            let ghost h_before = self.history@;
            let ghost e_before = evicted@;
            match self.history.pop_front() {
                Some(oldest) => {
                    evicted.push(oldest);
                    proof {
                        assert(texts(h_before)[0] == all.skip(k)[0]);
                        assert(all.skip(k)[0] == all[k]);
                        assert(evicted@ == e_before.push(oldest));
                        assert(texts(self.history@) =~= texts(h_before).skip(1));
                        assert(texts(self.history@) =~= all.skip(k + 1));
                        assert(texts(evicted@) =~= all.take(k + 1));
                    }
                },
                None => {},
            }
        }
        evicted
    }

    /// Hashes of the recorded checkpoints, oldest first.
    pub fn list_checkpoints(&self) -> (r: Vec<String>)
        ensures
            texts(r@) == self.history(),
    {
        let mut r: Vec<String> = Vec::new();
        let mut i: usize = 0;
        while i < self.history.len()
            invariant
                i <= self.history@.len(),
                texts(r@) == texts(self.history@).take(i as int),
            decreases self.history@.len() - i,
        {
            let ghost r_before = r@;
            let item = self.history[i].clone();
            r.push(item);
            proof {
                assert(r@ == r_before.push(item));
                assert(item@ == texts(self.history@)[i as int]);
                assert(texts(r_before).len() == i);
                assert forall|j: int| 0 <= j < i implies #[trigger] texts(r@)[j] == texts(r_before)[j] by {
                    assert(r@[j] == r_before[j]);
                }
                assert(texts(r@) =~= texts(self.history@).take(i as int + 1));
            }
            i += 1;
        }
        proof {
            assert(texts(self.history@).take(i as int) =~= texts(self.history@));
        }
        r
    }

    /// The most recently recorded checkpoint.
    pub fn get_latest(&self) -> (r: Option<String>)
        ensures
            r is None <==> self.history().len() == 0,
            r matches Some(h) ==> h@ == self.history().last(),
    {
        let n = self.history.len();
        if n == 0 {
            None
        } else {
            Some(self.history[n - 1].clone())
        }
    }
}

/// File name of a checkpoint's data: the hash followed by `.ckpt`.
pub fn checkpoint_file_name(hash: &str) -> (r: String)
    ensures
        r@ == hash@ + ".ckpt"@,
{
    let mut r = String::from_str(hash);
    r.append(".ckpt");
    r
}

/// File name of a checkpoint's metadata: the hash followed by `.meta`.
pub fn metadata_file_name(hash: &str) -> (r: String)
    ensures
        r@ == hash@ + ".meta"@,
{
    let mut r = String::from_str(hash);
    r.append(".meta");
    r
}

/// The history after recording `hash`: the newest `capacity` entries.
pub open spec fn kept_after_save(history: Seq<Seq<char>>, hash: Seq<char>, capacity: usize) -> Seq<Seq<char>> {
    history.push(hash).skip(overflow(history.push(hash), capacity))
}

/// The entries that recording `hash` rotates out, oldest first.
pub open spec fn evicted_by_save(history: Seq<Seq<char>>, hash: Seq<char>, capacity: usize) -> Seq<Seq<char>> {
    history.push(hash).take(overflow(history.push(hash), capacity))
}

/// After a save the history holds at most `capacity` checkpoints, as many
/// as fit; unless the capacity is zero the newest is the one just saved;
/// and the rotated-out entries followed by the kept ones are the old
/// history followed by the new hash, so creation order is kept.
pub proof fn law_save_rotation(history: Seq<Seq<char>>, hash: Seq<char>, capacity: usize)
    ensures
        kept_after_save(history, hash, capacity).len() <= capacity,
        kept_after_save(history, hash, capacity).len() == if history.len() + 1 > capacity {
            capacity as int
        } else {
            history.len() + 1int
        },
        capacity > 0 ==> kept_after_save(history, hash, capacity).last() == hash,
        evicted_by_save(history, hash, capacity) + kept_after_save(history, hash, capacity) == history.push(hash),
{
    let all = history.push(hash);
    assert(all.take(overflow(all, capacity)) + all.skip(overflow(all, capacity)) =~= all);
}

} // verus!
