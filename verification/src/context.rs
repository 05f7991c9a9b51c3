use vstd::prelude::*;

use crate::value::{Value, Json, copy_value, entries_of, json_of, lemma_entries_len_index, lemma_entries_push};

verus! {

/// The position of the first entry with key `k`, or -1 where there is none.
pub open spec fn key_index(es: Seq<(Seq<char>, Json)>, k: Seq<char>) -> int
    decreases es.len(),
{
    if es.len() == 0 {
        -1
    } else {
        let i = key_index(es.subrange(0, es.len() - 1), k);
        if i >= 0 {
            i
        } else if es[es.len() - 1].0 == k {
            es.len() - 1
        } else {
            -1
        }
    }
}

/// The value that entries give to key `k`.
pub open spec fn lookup(es: Seq<(Seq<char>, Json)>, k: Seq<char>) -> Option<Json> {
    let i = key_index(es, k);
    if i >= 0 {
        Some(es[i].1)
    } else {
        None
    }
}

/// Entries with `k` bound to `v`: an entry with key `k` has its value
/// replaced, else the binding is added at the end.
pub open spec fn bind(es: Seq<(Seq<char>, Json)>, k: Seq<char>, v: Json) -> Seq<(Seq<char>, Json)> {
    let i = key_index(es, k);
    if i >= 0 {
        es.update(i, (k, v))
    } else {
        es.push((k, v))
    }
}

/// The map that entries stand for.
pub open spec fn map_of(es: Seq<(Seq<char>, Json)>) -> Map<Seq<char>, Json> {
    Map::new(|k: Seq<char>| key_index(es, k) >= 0, |k: Seq<char>| es[key_index(es, k)].1)
}

pub proof fn lemma_key_index(es: Seq<(Seq<char>, Json)>, k: Seq<char>)
    ensures
        -1 <= key_index(es, k) < es.len(),
        key_index(es, k) >= 0 ==> es[key_index(es, k)].0 == k,
        forall|j: int| 0 <= j < es.len() && (key_index(es, k) < 0 || j < key_index(es, k))
            ==> #[trigger] es[j].0 != k,
    decreases es.len(),
{
    if es.len() > 0 {
        let p = es.subrange(0, es.len() - 1);
        lemma_key_index(p, k);
        assert forall|j: int| 0 <= j < es.len() && (key_index(es, k) < 0 || j < key_index(es, k)) implies #[trigger] es[j].0 != k by {
            if j < p.len() {
                assert(p[j] == es[j]);
            }
        }
    }
}

/// `key_index` is the first position with the key: any such description
/// pins it down.
pub proof fn lemma_key_index_unique(es: Seq<(Seq<char>, Json)>, k: Seq<char>, i: int)
    requires
        -1 <= i < es.len(),
        i >= 0 ==> es[i].0 == k,
        forall|j: int| 0 <= j < es.len() && (i < 0 || j < i) ==> #[trigger] es[j].0 != k,
    ensures
        key_index(es, k) == i,
{
    lemma_key_index(es, k);
    let f = key_index(es, k);
    if f >= 0 && i >= 0 {
        assert(es[f].0 == k);
        assert(es[i].0 == k);
    } else if f >= 0 {
        assert(es[f].0 == k);
    } else if i >= 0 {
        assert(es[i].0 == k);
    }
}

/// Binding a key and then looking up any key gives the new value for that
/// key and what the entries held before for every other key: in an object
/// literal a later entry replaces an earlier one with the same key.
pub proof fn law_bind_lookup(es: Seq<(Seq<char>, Json)>, k: Seq<char>, v: Json, k2: Seq<char>)
    ensures
        lookup(bind(es, k, v), k2) == (if k2 == k { Some(v) } else { lookup(es, k2) }),
{
    let b = bind(es, k, v);
    lemma_key_index(es, k);
    lemma_key_index(es, k2);
    let i = key_index(es, k);
    let i2 = key_index(es, k2);
    if k2 == k {
        if i >= 0 {
            lemma_key_index_unique(b, k, i);
        } else {
            lemma_key_index_unique(b, k, es.len() as int);
        }
    } else {
        if i >= 0 {
            assert forall|j: int| 0 <= j < b.len() && (i2 < 0 || j < i2) implies #[trigger] b[j].0 != k2 by {
                if j != i {
                    assert(b[j] == es[j]);
                }
            }
            lemma_key_index_unique(b, k2, i2);
        } else {
            assert forall|j: int| 0 <= j < b.len() && (i2 < 0 || j < i2) implies #[trigger] b[j].0 != k2 by {
                if j < es.len() {
                    assert(b[j] == es[j]);
                }
            }
            lemma_key_index_unique(b, k2, i2);
        }
    }
}

/// Adds `key: value` to object entries, replacing the value of an entry
/// with that key.
pub fn bind_entry(entries: &mut Vec<(String, Value)>, key: String, value: Value)
    ensures
        entries_of(final(entries)@) == bind(entries_of(old(entries)@), key@, value@),
{
    let ghost es = entries_of(entries@);
    proof {
        lemma_entries_len_index(entries@);
        lemma_key_index(es, key@);
    }
    let mut i: usize = 0;
    while i < entries.len()
        invariant
            i <= entries.len(),
            entries@ == old(entries)@,
            es == entries_of(entries@),
            es.len() == entries.len(),
            forall|j: int| 0 <= j < i ==> #[trigger] es[j].0 != key@,
            forall|j: int| 0 <= j < entries.len() ==> #[trigger] es[j] == (entries@[j].0@, json_of(entries@[j].1)),
        decreases entries.len() - i,
    {
        if entries[i].0 == key {
            proof {
                lemma_key_index_unique(es, key@, i as int);
            }
            let ghost before = entries@;
            entries.set(i, (key, value));
            proof {
                lemma_entries_len_index(entries@);
                assert(entries_of(entries@) =~= es.update(i as int, (key@, json_of(value))));
            }
            return;
        }
        i = i + 1;
    }
    proof {
        lemma_key_index_unique(es, key@, -1);
        lemma_entries_push(entries@, (key, value));
    }
    entries.push((key, value));
}

/// A set of named values that identifiers in an expression refer to.
pub struct Context {
    entries: Vec<(String, Value)>,
}

impl View for Context {
    type V = Map<Seq<char>, Json>;

    closed spec fn view(&self) -> Map<Seq<char>, Json> {
        map_of(entries_of(self.entries@))
    }
}

impl Context {
    /// An empty context.
    pub fn new() -> (r: Context)
        ensures
            r@ == Map::<Seq<char>, Json>::empty(),
    {
        let r = Context { entries: Vec::new() };
        assert(r@ =~= Map::<Seq<char>, Json>::empty());
        r
    }

    /// Binds `key` to `value`, replacing what it was bound to.
    pub fn insert(&mut self, key: String, value: Value)
        ensures
            final(self)@ == old(self)@.insert(key@, value@),
    {
        let ghost es = entries_of(self.entries@);
        bind_entry(&mut self.entries, key, value);
        proof {
            let b = bind(es, key@, value@);
            assert forall|k2: Seq<char>| #![auto] map_of(b).dom().contains(k2) <==> map_of(es).insert(key@, value@).dom().contains(k2) by {
                law_bind_lookup(es, key@, value@, k2);
            }
            assert forall|k2: Seq<char>| #![auto] map_of(b).dom().contains(k2) implies map_of(b)[k2] == map_of(es).insert(key@, value@)[k2] by {
                law_bind_lookup(es, key@, value@, k2);
            }
            assert(map_of(b) =~= map_of(es).insert(key@, value@));
        }
    }

    /// What `key` is bound to, if anything, as a copy.
    pub fn get(&self, key: &str) -> (r: Option<Value>)
        ensures
            match r {
                Some(v) => self@.dom().contains(key@) && self@[key@] == v@,
                None => !self@.dom().contains(key@),
            },
    {
        let ghost es = entries_of(self.entries@);
        let k = String::from_str(key);
        proof {
            lemma_entries_len_index(self.entries@);
        }
        let mut i: usize = 0;
        while i < self.entries.len()
            invariant
                i <= self.entries.len(),
                es == entries_of(self.entries@),
                es.len() == self.entries.len(),
                k@ == key@,
                forall|j: int| 0 <= j < i ==> #[trigger] es[j].0 != key@,
                forall|j: int| 0 <= j < self.entries.len() ==> #[trigger] es[j] == (self.entries@[j].0@, json_of(self.entries@[j].1)),
            decreases self.entries.len() - i,
        {
            if self.entries[i].0 == k {
                proof {
                    lemma_key_index_unique(es, key@, i as int);
                }
                return Some(copy_value(&self.entries[i].1));
            }
            i = i + 1;
        }
        proof {
            lemma_key_index_unique(es, key@, -1);
        }
        None
    }
}

} // verus!
