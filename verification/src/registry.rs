//! The tuner's heuristic registry: the recent kernel durations of each
//! tensor-shape signature, and the memory-layout strategy forced on a
//! signature whose kernels got slow.
use vstd::prelude::*;
use vstd::string::StringExecFns;

use crate::kernel_text::{serialize_shapes_signature, shapes_signature, shapes_view};
use crate::text_map::TextMap;
use crate::tuning::{capture_gpu_hardware_time, history_after, record_sample, total};

verus! {

/// Durations (microseconds) by shape signature, at most 100 of the latest
/// each, and the layout strategy chosen for a signature.
pub struct HeuristicRegistry {
    execution_history: TextMap<Vec<u128>>,
    best_layout_strategy: TextMap<String>,
}

/// The history of a signature, empty when none was recorded.
pub open spec fn history_or_empty(h: Map<Seq<char>, Seq<u128>>, sig: Seq<char>) -> Seq<u128> {
    if h.contains_key(sig) {
        h[sig]
    } else {
        Seq::empty()
    }
}

/// The integer mean of a nonempty history.
pub open spec fn mean(h: Seq<u128>) -> int {
    total(h) / (h.len() as int)
}

/// Every kept history holds at most 100 durations.
pub open spec fn windows_bounded(h: Map<Seq<char>, Seq<u128>>) -> bool {
    forall|k: Seq<char>| h.contains_key(k) ==> #[trigger] h[k].len() <= 100
}

/// The strategy forced on a signature whose mean duration passed 5 ms.
pub open spec fn forced_layout() -> Seq<char> {
    "FORCE_TILE_ALIGNMENT_32"@
}

impl HeuristicRegistry {
    /// No signature keeps more than 100 durations.
    #[verifier::type_invariant]
    closed spec fn bounded(self) -> bool {
        windows_bounded(self.histories())
    }

    /// Durations by signature.
    pub closed spec fn histories(&self) -> Map<Seq<char>, Seq<u128>> {
        Map::new(
            |k: Seq<char>| self.execution_history@.contains_key(k),
            |k: Seq<char>| self.execution_history@[k]@,
        )
    }

    /// Layout strategy by signature.
    pub closed spec fn layouts(&self) -> Map<Seq<char>, Seq<char>> {
        Map::new(
            |k: Seq<char>| self.best_layout_strategy@.contains_key(k),
            |k: Seq<char>| self.best_layout_strategy@[k]@,
        )
    }

    /// An empty registry.
    pub fn new() -> (r: HeuristicRegistry)
        ensures
            r.histories() == Map::<Seq<char>, Seq<u128>>::empty(),
            r.layouts() == Map::<Seq<char>, Seq<char>>::empty(),
            windows_bounded(r.histories()),
    {
        let r = HeuristicRegistry { execution_history: TextMap::new(), best_layout_strategy: TextMap::new() };
        proof {
            assert(r.histories() =~= Map::<Seq<char>, Seq<u128>>::empty());
            assert(r.layouts() =~= Map::<Seq<char>, Seq<char>>::empty());
        }
        r
    }

    /// The durations kept for a signature.
    pub fn history(&self, signature: &str) -> (r: Option<&Vec<u128>>)
        ensures
            r is Some <==> self.histories().contains_key(signature@),
            r matches Some(h) ==> h@ == self.histories()[signature@],
            windows_bounded(self.histories()),
    {
        proof {
            use_type_invariant(self);
        }
        self.execution_history.get(signature)
    }

    /// The layout strategy chosen for a signature.
    pub fn layout(&self, signature: &str) -> (r: Option<&String>)
        ensures
            r is Some <==> self.layouts().contains_key(signature@),
            r matches Some(s) ==> s@ == self.layouts()[signature@],
    {
        self.best_layout_strategy.get(signature)
    }

    /// Whether recording `t` for the signature keeps the sum of its
    /// durations within `u128`.
    pub fn can_record(&self, signature: &str, t: u128) -> (r: bool)
        ensures
            r == (total(history_or_empty(self.histories(), signature@)) + t <= u128::MAX),
    {
        let h = self.history(signature);
        let mut sum: u128 = t;
        match h {
            Some(h) => {
                let mut i: usize = 0;
                while i < h.len()
                    invariant
                        i <= h@.len(),
                        h@ == history_or_empty(self.histories(), signature@),
                        sum as int == total(h@.take(i as int)) + t,
                    decreases h@.len() - i,
                {
                    proof {
                        assert(h@.take(i as int + 1).drop_last() =~= h@.take(i as int));
                    }
                    if sum > u128::MAX - h[i] {
                        proof {
                            crate::tuning::lemma_total_prefix(h@, i as int + 1);
                        }
                        return false;
                    }
                    sum = sum + h[i];
                    i += 1;
                }
                proof {
                    assert(h@.take(h@.len() as int) =~= h@);
                }
                true
            },
            None => {
                proof {
                    assert(history_or_empty(self.histories(), signature@) =~= Seq::<u128>::empty());
                }
                true
            },
        }
    }

    /// Records a kernel duration for a signature. When the mean of the kept
    /// durations now exceeds 5000 us, the signature's layout strategy is
    /// forced to 32-element tile alignment; the result says whether it was.
    pub fn record_time(&mut self, signature: &str, t: u128) -> (forced: bool)
        requires
            total(history_or_empty(old(self).histories(), signature@)) + t <= u128::MAX,
        ensures
            final(self).histories() == old(self).histories().insert(
                signature@,
                history_after(history_or_empty(old(self).histories(), signature@), t),
            ),
            forced == (mean(history_after(history_or_empty(old(self).histories(), signature@), t)) > 5000),
            final(self).layouts() == (if forced {
                old(self).layouts().insert(signature@, forced_layout())
            } else {
                old(self).layouts()
            }),
            windows_bounded(final(self).histories()),
    {
        proof {
            use_type_invariant(&*self);
        }
        let ghost h0 = history_or_empty(self.histories(), signature@);
        let mut h: Vec<u128> = match self.execution_history.get(signature) {
            Some(v) => {
                let c = v.clone();
                proof {
                    assert(c@ =~= v@);
                }
                c
            },
            None => Vec::new(),
        };
        proof {
            assert(h@ =~= h0);
        }
        let forced = record_sample(&mut h, t);
        proof {
            assert(h0.len() <= 100);
            law_history_window(h0, t);
            let after = old(self).histories().insert(signature@, history_after(h0, t));
            assert(windows_bounded(after));
        }
        let mut hist: TextMap<Vec<u128>> = TextMap::new();
        std::mem::swap(&mut hist, &mut self.execution_history);
        let ghost before = old(self).execution_history@;
        hist.insert(signature, h);
        proof {
            assert forall|k: Seq<char>| hist@.contains_key(k) implies #[trigger] hist@[k]@.len() <= 100 by {
                if k != signature@ {
                    assert(before.contains_key(k));
                    assert(old(self).histories().contains_key(k));
                    assert(old(self).histories()[k] == before[k]@);
                }
            }
        }
        self.execution_history = hist;
        if forced {
            let mut layouts: TextMap<String> = TextMap::new();
            std::mem::swap(&mut layouts, &mut self.best_layout_strategy);
            layouts.insert(signature, String::from_str("FORCE_TILE_ALIGNMENT_32"));
            self.best_layout_strategy = layouts;
        }
        proof {
            assert(self.histories() =~= old(self).histories().insert(signature@, history_after(h0, t)));
            assert(self.layouts() =~= (if forced {
                old(self).layouts().insert(signature@, forced_layout())
            } else {
                old(self).layouts()
            }));
        }
        forced
    }
}

/// Records one execution of a kernel binary over tensors of the given
/// shapes: nothing for an empty binary or no shapes; else the binary's
/// measured GPU time goes into the history of the shapes' signature.
pub fn record_execution(registry: &mut HeuristicRegistry, binary: &[u8], shapes: &[Vec<usize>])
    requires
        binary@.len() > 0 && shapes@.len() > 0 ==> total(
            history_or_empty(old(registry).histories(), shapes_signature(shapes_view(shapes@))),
        ) + 4200 <= u128::MAX,
    ensures
        binary@.len() == 0 || shapes@.len() == 0 ==> final(registry).histories() == old(registry).histories()
            && final(registry).layouts() == old(registry).layouts(),
        binary@.len() > 0 && shapes@.len() > 0 ==> ({
            let sig = shapes_signature(shapes_view(shapes@));
            let h = history_after(history_or_empty(old(registry).histories(), sig), 4200);
            &&& final(registry).histories() == old(registry).histories().insert(sig, h)
            &&& final(registry).layouts() == (if mean(h) > 5000 {
                old(registry).layouts().insert(sig, forced_layout())
            } else {
                old(registry).layouts()
            })
        }),
        windows_bounded(final(registry).histories()),
{
    proof {
        use_type_invariant(&*registry);
    }
    if binary.len() == 0 || shapes.len() == 0 {
        return;
    }
    let signature = serialize_shapes_signature(shapes);
    let t = capture_gpu_hardware_time(binary);
    registry.record_time(signature.as_str(), t);
}

/// A history never holds more than 100 durations, and recording keeps the
/// newest duration last and the previous ones, oldest dropped first, before it.
pub proof fn law_history_window(h: Seq<u128>, t: u128)
    requires
        h.len() <= 100,
    ensures
        1 <= history_after(h, t).len() <= 100,
        history_after(h, t).last() == t,
        history_after(h, t).drop_last() == (if h.len() == 100 {
            h.drop_first()
        } else {
            h
        }),
{
    if h.len() == 100 {
        assert(h.push(t).drop_first().drop_last() =~= h.drop_first());
    } else {
        assert(h.push(t).drop_last() =~= h);
    }
}

} // verus!
