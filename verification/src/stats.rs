//! The statistics of a work: a list of (name, value) pairs, each name once,
//! kept in the order in which the names first came.
use crate::text::str_eq;
use vstd::prelude::*;

verus! {

pub open spec fn names_distinct(s: Seq<(Seq<char>, Seq<char>)>) -> bool {
    forall|i: int, j: int| 0 <= i < j < s.len() ==> #[trigger] s[i].0 != #[trigger] s[j].0
}

/// The position of the pair named `k`, if there is one.
pub open spec fn stat_index(s: Seq<(Seq<char>, Seq<char>)>, k: Seq<char>) -> Option<int> {
    if exists|i: int| 0 <= i < s.len() && #[trigger] s[i].0 == k {
        Some(choose|i: int| 0 <= i < s.len() && #[trigger] s[i].0 == k)
    } else {
        None
    }
}

/// The value named `k`, if there is one.
pub open spec fn stat_get(s: Seq<(Seq<char>, Seq<char>)>, k: Seq<char>) -> Option<Seq<char>> {
    match stat_index(s, k) {
        Some(i) => Some(s[i].1),
        None => None,
    }
}

/// The pairs after `k` is set to `v`: a name already there keeps its place and
/// takes the new value; a new name goes last.
pub open spec fn stat_insert(s: Seq<(Seq<char>, Seq<char>)>, k: Seq<char>, v: Seq<char>) -> Seq<
    (Seq<char>, Seq<char>),
> {
    match stat_index(s, k) {
        Some(i) => s.update(i, (k, v)),
        None => s.push((k, v)),
    }
}

proof fn lemma_index_unique(s: Seq<(Seq<char>, Seq<char>)>, k: Seq<char>, i: int)
    requires
        names_distinct(s),
        0 <= i < s.len(),
        s[i].0 == k,
    ensures
        stat_index(s, k) == Some(i),
{
    let c: int = choose|j: int| 0 <= j < s.len() && #[trigger] s[j].0 == k;
    if c != i {
        if c < i {
            assert(s[c].0 != s[i].0);
        } else {
            assert(s[i].0 != s[c].0);
        }
    }
}

/// Setting a name then reading it gives the value set; every other name reads
/// as before; the names stay distinct; a new name adds one pair, a known name none.
pub proof fn lemma_insert_then_get(
    s: Seq<(Seq<char>, Seq<char>)>,
    k: Seq<char>,
    v: Seq<char>,
    other: Seq<char>,
)
    requires
        names_distinct(s),
    ensures
        stat_get(stat_insert(s, k, v), k) == Some(v),
        other != k ==> stat_get(stat_insert(s, k, v), other) == stat_get(s, other),
        names_distinct(stat_insert(s, k, v)),
        stat_insert(s, k, v).len() == if stat_get(s, k) is Some {
            s.len()
        } else {
            s.len() + 1
        },
{
    let t = stat_insert(s, k, v);
    match stat_index(s, k) {
        Some(i) => {
            assert(0 <= i < s.len() && s[i].0 == k);
            assert(t == s.update(i, (k, v)));
            assert forall|a: int, b: int| 0 <= a < b < t.len() implies #[trigger] t[a].0
                != #[trigger] t[b].0 by {
                assert(s[a].0 != s[b].0);
                assert(t[a].0 == s[a].0);
                assert(t[b].0 == s[b].0);
            }
            lemma_index_unique(t, k, i);
            if other != k {
                if exists|j: int| 0 <= j < s.len() && #[trigger] s[j].0 == other {
                    let j: int = choose|j: int| 0 <= j < s.len() && #[trigger] s[j].0 == other;
                    lemma_index_unique(s, other, j);
                    assert(t[j].0 == other);
                    lemma_index_unique(t, other, j);
                } else {
                    assert forall|j: int| 0 <= j < t.len() implies #[trigger] t[j].0 != other by {
                        assert(t[j].0 == s[j].0);
                    }
                }
            }
        },
        None => {
            assert(t == s.push((k, v)));
            assert(forall|j: int| 0 <= j < s.len() ==> #[trigger] s[j].0 != k);
            assert forall|a: int, b: int| 0 <= a < b < t.len() implies #[trigger] t[a].0
                != #[trigger] t[b].0 by {
                assert(t[a].0 == s[a].0);
                if b < s.len() {
                    assert(s[a].0 != s[b].0);
                    assert(t[b].0 == s[b].0);
                }
            }
            lemma_index_unique(t, k, s.len() as int);
            if other != k {
                if exists|j: int| 0 <= j < s.len() && #[trigger] s[j].0 == other {
                    let j: int = choose|j: int| 0 <= j < s.len() && #[trigger] s[j].0 == other;
                    lemma_index_unique(s, other, j);
                    assert(t[j].0 == other);
                    lemma_index_unique(t, other, j);
                } else {
                    assert forall|j: int| 0 <= j < t.len() implies #[trigger] t[j].0 != other by {
                        if j < s.len() {
                            assert(t[j].0 == s[j].0);
                        }
                    }
                }
            }
        },
    }
}

/// A map from statistic names to values that remembers the order of the names.
pub struct Stats {
    entries: Vec<(String, String)>,
}

pub open spec fn entries_view(e: Seq<(String, String)>) -> Seq<(Seq<char>, Seq<char>)> {
    e.map_values(|p: (String, String)| (p.0@, p.1@))
}

impl View for Stats {
    type V = Seq<(Seq<char>, Seq<char>)>;

    closed spec fn view(&self) -> Seq<(Seq<char>, Seq<char>)> {
        entries_view(self.entries@)
    }
}

impl Stats {
    #[verifier::type_invariant]
    spec fn inv(self) -> bool {
        names_distinct(entries_view(self.entries@))
    }

    /// No statistics.
    pub fn new() -> (s: Stats)
        ensures
            s@ == Seq::<(Seq<char>, Seq<char>)>::empty(),
            names_distinct(s@),
    {
        let s = Stats { entries: Vec::new() };
        assert(entries_view(s.entries@) =~= Seq::<(Seq<char>, Seq<char>)>::empty());
        s
    }

    /// The position of the pair named `k`.
    fn find(&self, k: &str) -> (r: Option<usize>)
        ensures
            r matches Some(j) ==> stat_index(self@, k@) == Some(j as int),
            r is None ==> stat_index(self@, k@) is None,
    {
        proof {
            use_type_invariant(self);
        }
        let ghost v = self@;
        let mut i: usize = 0;
        while i < self.entries.len()
            invariant
                v == self@,
                v == entries_view(self.entries@),
                names_distinct(v),
                i <= self.entries.len(),
                forall|m: int| 0 <= m < i ==> #[trigger] v[m].0 != k@,
            decreases self.entries.len() - i,
        {
            assert(v[i as int] == (self.entries@[i as int].0@, self.entries@[i as int].1@));
            if str_eq(self.entries[i].0.as_str(), k) {
                proof {
                    assert(v[i as int].0 == k@);
                    let c: int = choose|j: int| 0 <= j < v.len() && #[trigger] v[j].0 == k@;
                    if c != i {
                        if c < i {
                            assert(v[c].0 != k@);
                        } else {
                            assert(v[i as int].0 != v[c].0);
                        }
                    }
                }
                return Some(i);
            }
            i = i + 1;
        }
        None
    }

    /// The value named `k` (`HashMap::get`).
    pub fn get(&self, k: &str) -> (r: Option<&String>)
        ensures
            match stat_get(self@, k@) {
                Some(v) => r matches Some(s) && s@ == v,
                None => r is None,
            },
    {
        match self.find(k) {
            Some(i) => {
                proof {
                    assert(entries_view(self.entries@)[i as int] == (self.entries@[i as int].0@, self.entries@[i as int].1@));
                }
                Some(&self.entries[i].1)
            },
            None => None,
        }
    }

    /// Sets `k` to `v` (`HashMap::insert`).
    pub fn insert(&mut self, k: String, v: String)
        ensures
            final(self)@ == stat_insert(old(self)@, k@, v@),
            names_distinct(final(self)@),
    {
        proof {
            use_type_invariant(&*self);
        }
        let ghost old_view = self@;
        match self.find(k.as_str()) {
            Some(i) => {
                let ghost kv = k@;
                let ghost vv = v@;
                let mut entries: Vec<(String, String)> = Vec::new();
                std::mem::swap(&mut entries, &mut self.entries);
                entries.set(i, (k, v));
                proof {
                    assert(entries_view(entries@) =~= old_view.update(i as int, (kv, vv)));
                    assert forall|a: int, b: int|
                        0 <= a < b < entries@.len() implies #[trigger] entries_view(entries@)[a].0
                        != #[trigger] entries_view(entries@)[b].0 by {
                        assert(old_view[a].0 != old_view[b].0);
                    }
                }
                self.entries = entries;
            },
            None => {
                let ghost kv = k@;
                let ghost vv = v@;
                let mut entries: Vec<(String, String)> = Vec::new();
                std::mem::swap(&mut entries, &mut self.entries);
                entries.push((k, v));
                proof {
                    assert(entries_view(entries@) =~= old_view.push((kv, vv)));
                    assert forall|a: int, b: int|
                        0 <= a < b < entries@.len() implies #[trigger] entries_view(entries@)[a].0
                        != #[trigger] entries_view(entries@)[b].0 by {
                        if b == old_view.len() {
                            assert(old_view[a].0 != kv);
                        } else {
                            assert(old_view[a].0 != old_view[b].0);
                        }
                    }
                }
                self.entries = entries;
            },
        }
    }

    /// The number of pairs.
    pub fn len(&self) -> (n: usize)
        ensures
            n == self@.len(),
    {
        self.entries.len()
    }

    /// The pair at position `i`.
    pub fn entry(&self, i: usize) -> (r: (&String, &String))
        requires
            i < self@.len(),
        ensures
            r.0@ == self@[i as int].0,
            r.1@ == self@[i as int].1,
    {
        let p = &self.entries[i];
        (&p.0, &p.1)
    }
}

} // verus!
