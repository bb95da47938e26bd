//! The temporal comparator's history: for each operation, dtype and shape,
//! the hashes of the kernels executed for it, in the order they ran. The
//! history lives in a `dashmap::DashMap`.
use dashmap::DashMap;
use vstd::prelude::*;
use vstd::string::StringExecFns;

use crate::kernel_text::{history_key, history_key_text};
use crate::text::str_eq;

verus! {

#[verifier::external_type_specification]
#[verifier::external_body]
#[verifier::reject_recursive_types(K)]
#[verifier::reject_recursive_types(V)]
#[verifier::reject_recursive_types(S)]
pub struct ExDashMap<K, V, S>(DashMap<K, V, S>);

/// Hash lists by history key.
pub type HashLists = DashMap<String, Vec<String>>;

/// The texts of a list of strings.
pub open spec fn texts(v: Seq<String>) -> Seq<Seq<char>> {
    Seq::new(v.len(), |i: int| v[i]@)
}

/// What a history map holds: the hashes (as texts) under each key.
pub uninterp spec fn hash_lists(m: HashLists) -> Map<Seq<char>, Seq<Seq<char>>>;

/// No hash list at all.
pub open spec fn no_hashes() -> Map<Seq<char>, Seq<Seq<char>>> {
    Map::empty()
}

/// `DashMap::new`: an empty map.
#[verifier::external_body]
fn new_hash_lists() -> (r: HashLists)
    ensures
        hash_lists(r) == no_hashes(),
{
    DashMap::new()
}

/// `DashMap::get`: a copy of the list stored under `key`, if any.
#[verifier::external_body]
fn hash_list_get(m: &HashLists, key: &str) -> (r: Option<Vec<String>>)
    ensures
        r is Some <==> hash_lists(*m).contains_key(key@),
        r matches Some(v) ==> texts(v@) == hash_lists(*m)[key@],
{
    m.get(key).map(|entry| entry.value().clone())
}

/// `DashMap::insert`: stores `list` under `key`, replacing what was there.
#[verifier::external_body]
fn hash_list_insert(m: &mut HashLists, key: String, list: Vec<String>)
    ensures
        hash_lists(*final(m)) == hash_lists(*old(m)).insert(key@, texts(list@)),
{
    m.insert(key, list);
}

/// The hash recorded just before the first occurrence of `current` in a
/// history, if `current` occurs and is not first.
pub open spec fn previous_in(h: Seq<Seq<char>>, current: Seq<char>) -> Option<Seq<char>> {
    if exists|i: int| 0 <= i < h.len() && h[i] == current {
        let p = choose|i: int| 0 <= i < h.len() && h[i] == current && (forall|j: int| 0 <= j < i ==> h[j] != current);
        if p > 0 {
            Some(h[p - 1])
        } else {
            None
        }
    } else {
        None
    }
}

/// Kernel hashes by operation, dtype and shape, in execution order.
pub struct TemporalComparator {
    history: HashLists,
}

impl TemporalComparator {
    /// The recorded hashes under each history key.
    pub closed spec fn executions(&self) -> Map<Seq<char>, Seq<Seq<char>>> {
        hash_lists(self.history)
    }

    /// The recorded hashes of an operation, dtype and shape.
    pub open spec fn executions_of(&self, op: Seq<char>, dtype: Seq<char>, shape: Seq<usize>) -> Seq<Seq<char>> {
        let key = history_key_text(op, dtype, shape);
        if self.executions().contains_key(key) {
            self.executions()[key]
        } else {
            Seq::empty()
        }
    }

    /// A comparator with nothing recorded.
    pub fn new() -> (r: TemporalComparator)
        ensures
            r.executions() == Map::<Seq<char>, Seq<Seq<char>>>::empty(),
    {
        TemporalComparator { history: new_hash_lists() }
    }

    /// Appends a kernel hash to the history of its operation, dtype and shape.
    pub fn record_execution(&mut self, hash: &str, op: &str, dtype: &str, shape: &[usize], _timestamp: u64)
        ensures
            final(self).executions() == old(self).executions().insert(
                history_key_text(op@, dtype@, shape@),
                old(self).executions_of(op@, dtype@, shape@).push(hash@),
            ),
    {
        let key = history_key(op, dtype, shape);
        let mut list: Vec<String> = match hash_list_get(&self.history, key.as_str()) {
            Some(v) => v,
            None => {
                let v: Vec<String> = Vec::new();
                proof {
                    assert(texts(v@) =~= Seq::<Seq<char>>::empty());
                }
                v
            },
        };
        let ghost before = texts(list@);
        list.push(String::from_str(hash));
        proof {
            assert(texts(list@) =~= before.push(hash@));
        }
        hash_list_insert(&mut self.history, key, list);
    }

    /// The hash executed just before `current_hash` for the same operation,
    /// dtype and shape.
    pub fn get_previous_execution(&self, op: &str, dtype: &str, shape: &[usize], current_hash: &str) -> (r: Option<
        String,
    >)
        ensures
            match previous_in(self.executions_of(op@, dtype@, shape@), current_hash@) {
                Some(p) => r matches Some(s) && s@ == p,
                None => r is None,
            },
    {
        let key = history_key(op, dtype, shape);
        let list = match hash_list_get(&self.history, key.as_str()) {
            Some(v) => v,
            None => {
                return None;
            },
        };
        let ghost h = texts(list@);
        let mut i: usize = 0;
        while i < list.len()
            invariant
                i <= list@.len(),
                h == texts(list@),
                h == self.executions_of(op@, dtype@, shape@),
                forall|j: int| 0 <= j < i ==> h[j] != current_hash@,
            decreases list@.len() - i,
        {
            if str_eq(list[i].as_str(), current_hash) {
                proof {
                    assert(h[i as int] == current_hash@);
                    let p = choose|k: int| 0 <= k < h.len() && h[k] == current_hash@ && (forall|j: int| 0 <= j < k ==> h[j] != current_hash@);
                    assert(p == i) by {
                        if p < i {
                            assert(h[p] != current_hash@);
                        }
                        if p > i {
                            assert(h[i as int] != current_hash@);
                        }
                    }
                }
                if i > 0 {
                    let prev = list[i - 1].clone();
                    proof {
                        assert(h[i - 1] == list@[i - 1]@);
                    }
                    return Some(prev);
                }
                return None;
            }
            i += 1;
        }
        None
    }
}

/// After two executions are recorded one after the other for the same
/// operation, dtype and shape, the earlier is the one just before the
/// later, provided the later hash had not been recorded before.
pub proof fn law_previous_after_two_records(h: Seq<Seq<char>>, first: Seq<char>, second: Seq<char>)
    requires
        first != second,
        forall|i: int| 0 <= i < h.len() ==> h[i] != second,
    ensures
        previous_in(h.push(first).push(second), second) == Some(first),
{
    let g = h.push(first).push(second);
    let n: int = h.len() + 1int;
    assert(g[n] == second);
    let p = choose|i: int| 0 <= i < g.len() && g[i] == second && (forall|j: int| 0 <= j < i ==> g[j] != second);
    assert(0 <= n < g.len() && g[n] == second && (forall|j: int| 0 <= j < n ==> g[j] != second));
    assert(p == n) by {
        if p < n {
            assert(g[p] != second);
        }
        if p > n {
            assert(g[n] != second);
        }
    }
}

} // verus!
