//! A map keyed by text, kept as a list of entries in which no key occurs
//! twice. It backs the kernel caches and the tuner's registries.
use vstd::prelude::*;
use vstd::string::StringExecFns;

use crate::text::str_eq;

verus! {

/// Values by text key.
pub struct TextMap<V> {
    entries: Vec<(String, V)>,
}

/// The map a list of entries describes, later entries overriding earlier ones.
pub open spec fn entries_map<V>(e: Seq<(String, V)>) -> Map<Seq<char>, V>
    decreases e.len(),
{
    if e.len() == 0 {
        Map::empty()
    } else {
        entries_map(e.drop_last()).insert(e.last().0@, e.last().1)
    }
}

/// No key occurs twice.
pub open spec fn keys_unique<V>(e: Seq<(String, V)>) -> bool {
    forall|i: int, j: int| 0 <= i < j < e.len() ==> #[trigger] e[i].0@ != #[trigger] e[j].0@
}

proof fn lemma_entries_map_lookup<V>(e: Seq<(String, V)>, k: Seq<char>)
    requires
        keys_unique(e),
    ensures
        entries_map(e).contains_key(k) <==> exists|i: int| 0 <= i < e.len() && #[trigger] e[i].0@ == k,
        forall|i: int| 0 <= i < e.len() && #[trigger] e[i].0@ == k ==> entries_map(e).contains_key(k) && entries_map(e)[k] == e[i].1,
    decreases e.len(),
{
    if e.len() > 0 {
        let p = e.drop_last();
        let n = e.len() - 1;
        assert(keys_unique(p));
        lemma_entries_map_lookup(p, k);
        if e[n].0@ == k {
            assert(entries_map(e).contains_key(k));
            assert forall|i: int| 0 <= i < e.len() && #[trigger] e[i].0@ == k implies entries_map(e)[k] == e[i].1 by {
                if i < n {
                    assert(e[i].0@ != e[n].0@);
                }
            }
        } else {
            if entries_map(e).contains_key(k) {
                assert(entries_map(p).contains_key(k));
                let i = choose|i: int| 0 <= i < p.len() && #[trigger] p[i].0@ == k;
                assert(e[i].0@ == k);
            }
            if exists|i: int| 0 <= i < e.len() && #[trigger] e[i].0@ == k {
                let i = choose|i: int| 0 <= i < e.len() && #[trigger] e[i].0@ == k;
                assert(p[i].0@ == k);
            }
            assert forall|i: int| 0 <= i < e.len() && #[trigger] e[i].0@ == k implies entries_map(e).contains_key(k)
                && entries_map(e)[k] == e[i].1 by {
                assert(p[i].0@ == k);
            }
        }
    }
}

proof fn lemma_entries_map_set<V>(e: Seq<(String, V)>, i: int, kk: String, v: V)
    requires
        keys_unique(e),
        0 <= i < e.len(),
        kk@ == e[i].0@,
    ensures
        keys_unique(e.update(i, (kk, v))),
        entries_map(e.update(i, (kk, v))) == entries_map(e).insert(kk@, v),
    decreases e.len(),
{
    let u = e.update(i, (kk, v));
    assert(keys_unique(u)) by {
        assert forall|a: int, b: int| 0 <= a < b < u.len() implies #[trigger] u[a].0@ != #[trigger] u[b].0@ by {
            assert(u[a].0@ == e[a].0@ && u[b].0@ == e[b].0@);
        }
    }
    if i == e.len() - 1 {
        assert(u.drop_last() =~= e.drop_last());
        assert(entries_map(u) =~= entries_map(e).insert(kk@, v));
    } else {
        let p = e.drop_last();
        assert(keys_unique(p));
        lemma_entries_map_set(p, i, kk, v);
        assert(u.drop_last() =~= p.update(i, (kk, v)));
        assert(e.last().0@ != e[i].0@);
        assert(entries_map(u) =~= entries_map(e).insert(kk@, v));
    }
}

impl<V> View for TextMap<V> {
    type V = Map<Seq<char>, V>;

    closed spec fn view(&self) -> Map<Seq<char>, V> {
        entries_map(self.entries@)
    }
}

impl<V> TextMap<V> {
    #[verifier::type_invariant]
    closed spec fn unique(self) -> bool {
        keys_unique(self.entries@)
    }

    /// An empty map.
    pub fn new() -> (r: TextMap<V>)
        ensures
            r@ == Map::<Seq<char>, V>::empty(),
    {
        TextMap { entries: Vec::new() }
    }

    fn find(&self, key: &str) -> (r: Option<usize>)
        ensures
            r matches Some(i) ==> i < self.entries@.len() && self.entries@[i as int].0@ == key@,
            r is None ==> forall|i: int| 0 <= i < self.entries@.len() ==> #[trigger] self.entries@[i].0@ != key@,
    {
        let mut i: usize = 0;
        while i < self.entries.len()
            invariant
                i <= self.entries@.len(),
                forall|j: int| 0 <= j < i ==> #[trigger] self.entries@[j].0@ != key@,
            decreases self.entries@.len() - i,
        {
            if str_eq(self.entries[i].0.as_str(), key) {
                return Some(i);
            }
            i += 1;
        }
        None
    }

    /// The value stored under `key`.
    pub fn get(&self, key: &str) -> (r: Option<&V>)
        ensures
            r is Some <==> self@.contains_key(key@),
            r matches Some(v) ==> *v == self@[key@],
    {
        proof {
            use_type_invariant(self);
            lemma_entries_map_lookup(self.entries@, key@);
        }
        match self.find(key) {
            Some(i) => Some(&self.entries[i].1),
            None => None,
        }
    }

    /// Stores `value` under `key`, replacing what was there.
    pub fn insert(&mut self, key: &str, value: V)
        ensures
            final(self)@ == old(self)@.insert(key@, value),
    {
        proof {
            use_type_invariant(&*self);
        }
        let k = String::from_str(key);
        let found = self.find(key);
        let mut entries: Vec<(String, V)> = Vec::new();
        std::mem::swap(&mut entries, &mut self.entries);
        let ghost e = entries@;
        match found {
            Some(i) => {
                proof {
                    lemma_entries_map_set(e, i as int, k, value);
                }
                entries.set(i, (k, value));
            },
            None => {
                entries.push((k, value));
                proof {
                    assert(entries@.drop_last() =~= e);
                }
            },
        }
        self.entries = entries;
    }
}

} // verus!
