//! A small name-keyed table backed by a vector of pairs, used for the
//! analyzer's scope and arity records.

use vstd::prelude::*;

verus! {

/// Whether `t` holds an entry for `name`.
pub open spec fn assoc_contains<T>(t: Seq<(Seq<char>, T)>, name: Seq<char>) -> bool {
    exists|i: int| 0 <= i < t.len() && t[i].0 == name
}

/// The position of the entry for `name` (meaningful only when the table is
/// well formed, so that the entry is unique).
pub open spec fn assoc_pos<T>(t: Seq<(Seq<char>, T)>, name: Seq<char>) -> int {
    choose|i: int| 0 <= i < t.len() && t[i].0 == name
}

/// The value bound to `name`, if any.
pub open spec fn assoc_get<T>(t: Seq<(Seq<char>, T)>, name: Seq<char>) -> Option<T> {
    if assoc_contains(t, name) {
        Some(t[assoc_pos(t, name)].1)
    } else {
        None
    }
}

/// Rebinding keeps the entry's position; a fresh name is appended.
pub open spec fn assoc_insert<T>(t: Seq<(Seq<char>, T)>, name: Seq<char>, v: T) -> Seq<
    (Seq<char>, T),
> {
    if assoc_contains(t, name) {
        t.update(assoc_pos(t, name), (name, v))
    } else {
        t.push((name, v))
    }
}

/// Names are pairwise distinct.
pub open spec fn assoc_wf<T>(t: Seq<(Seq<char>, T)>) -> bool {
    forall|i: int, j: int| 0 <= i < j < t.len() ==> t[i].0 != t[j].0
}

/// Inserting keeps a table well formed and binds exactly the given name.
pub proof fn lemma_assoc_insert<T>(t: Seq<(Seq<char>, T)>, name: Seq<char>, v: T)
    requires
        assoc_wf(t),
    ensures
        assoc_wf(assoc_insert(t, name, v)),
        assoc_get(assoc_insert(t, name, v), name) == Some(v),
        forall|other: Seq<char>| other != name ==> assoc_get(assoc_insert(t, name, v), other)
            == assoc_get(t, other),
{
    let t2 = assoc_insert(t, name, v);
    if assoc_contains(t, name) {
        let p = assoc_pos(t, name);
        assert(0 <= p < t.len() && t[p].0 == name);
        assert(t2[p] == (name, v));
        assert(assoc_contains(t2, name));
        assert(assoc_pos(t2, name) == p) by {
            let q = assoc_pos(t2, name);
            assert(0 <= q < t2.len() && t2[q].0 == name);
            if q != p {
                assert(t[q].0 == name);
            }
        }
        assert forall|other: Seq<char>| other != name implies assoc_get(t2, other) == assoc_get(
            t,
            other,
        ) by {
            if assoc_contains(t, other) {
                let r = assoc_pos(t, other);
                assert(t2[r] == t[r]);
                assert(assoc_contains(t2, other));
                let r2 = assoc_pos(t2, other);
                assert(t2[r2].0 == other);
                assert(t[r2].0 == other);
                assert(r2 == r);
            } else {
                assert(!assoc_contains(t2, other)) by {
                    if assoc_contains(t2, other) {
                        let r2 = assoc_pos(t2, other);
                        assert(t[r2].0 == other);
                    }
                }
            }
        }
    } else {
        assert(t2 == t.push((name, v)));
        assert(t2[t.len() as int].0 == name);
        assert(assoc_contains(t2, name));
        assert(assoc_pos(t2, name) == t.len() as int) by {
            let q = assoc_pos(t2, name);
            assert(0 <= q < t2.len() && t2[q].0 == name);
            if q != t.len() as int {
                assert(t[q].0 == name);
            }
        }
        assert forall|other: Seq<char>| other != name implies assoc_get(t2, other) == assoc_get(
            t,
            other,
        ) by {
            if assoc_contains(t, other) {
                let r = assoc_pos(t, other);
                assert(t2[r] == t[r]);
                assert(assoc_contains(t2, other));
                let r2 = assoc_pos(t2, other);
                assert(t2[r2].0 == other);
                assert(r2 < t.len());
                assert(r2 == r);
            } else {
                assert(!assoc_contains(t2, other)) by {
                    if assoc_contains(t2, other) {
                        let r2 = assoc_pos(t2, other);
                        assert(r2 < t.len());
                        assert(t[r2].0 == other);
                    }
                }
            }
        }
    }
}

/// A table from names to copyable values, in insertion order.
#[derive(Debug, PartialEq)]
#[verifier::reject_recursive_types(T)]
pub struct AssocTable<T> {
    entries: Vec<(String, T)>,
}

impl<T: Copy> View for AssocTable<T> {
    type V = Seq<(Seq<char>, T)>;

    closed spec fn view(&self) -> Seq<(Seq<char>, T)> {
        Seq::new(self.entries@.len(), |i: int| (self.entries@[i].0@, self.entries@[i].1))
    }
}

impl<T: Copy> AssocTable<T> {
    /// An empty table.
    pub fn new() -> (r: AssocTable<T>)
        ensures
            r@ == Seq::<(Seq<char>, T)>::empty(),
            assoc_wf(r@),
    {
        let r = AssocTable { entries: Vec::new() };
        proof {
            assert(r@ =~= Seq::<(Seq<char>, T)>::empty());
        }
        r
    }

    /// The value bound to `name`, if any.
    pub fn get(&self, name: &String) -> (r: Option<T>)
        requires
            assoc_wf(self@),
        ensures
            r == assoc_get(self@, name@),
    {
        let n = self.entries.len();
        let mut i: usize = 0;
        while i < n
            invariant
                n == self@.len(),
                n == self.entries@.len(),
                assoc_wf(self@),
                i <= n,
                forall|j: int| 0 <= j < i ==> self@[j].0 != name@,
            decreases n - i,
        {
            if self.entries[i].0 == *name {
                assert(self@[i as int].0 == name@);
                assert(assoc_contains(self@, name@));
                assert(assoc_pos(self@, name@) == i as int) by {
                    let p = assoc_pos(self@, name@);
                    assert(0 <= p < self@.len() && self@[p].0 == name@);
                }
                return Some(self.entries[i].1);
            }
            i += 1;
        }
        assert(!assoc_contains(self@, name@));
        None
    }

    /// Whether `name` is bound.
    pub fn contains(&self, name: &String) -> (r: bool)
        requires
            assoc_wf(self@),
        ensures
            r == assoc_contains(self@, name@),
    {
        let got = self.get(name);
        got.is_some()
    }

    /// Bind `name` to `v`: rebinding keeps the entry's position, a fresh
    /// name is appended.
    pub fn insert(&mut self, name: String, v: T)
        requires
            assoc_wf(old(self)@),
        ensures
            final(self)@ == assoc_insert(old(self)@, name@, v),
            assoc_wf(final(self)@),
    {
        let n = self.entries.len();
        let mut i: usize = 0;
        while i < n
            invariant
                n == self@.len(),
                n == self.entries@.len(),
                self@ == old(self)@,
                assoc_wf(self@),
                i <= n,
                forall|j: int| 0 <= j < i ==> self@[j].0 != name@,
            decreases n - i,
        {
            if self.entries[i].0 == name {
                assert(self@[i as int].0 == name@);
                assert(assoc_contains(self@, name@));
                assert(assoc_pos(self@, name@) == i as int) by {
                    let p = assoc_pos(self@, name@);
                    assert(0 <= p < self@.len() && self@[p].0 == name@);
                }
                self.entries[i] = (name, v);
                proof {
                    lemma_assoc_insert(old(self)@, name@, v);
                    assert(self@ =~= assoc_insert(old(self)@, name@, v));
                }
                return ;
            }
            i += 1;
        }
        assert(!assoc_contains(self@, name@));
        self.entries.push((name, v));
        proof {
            lemma_assoc_insert(old(self)@, name@, v);
            assert(self@ =~= assoc_insert(old(self)@, name@, v));
        }
    }

    /// A deep copy whose mathematical value equals the original's.
    pub fn duplicate(&self) -> (r: AssocTable<T>)
        ensures
            r@ == self@,
    {
        let n = self.entries.len();
        let mut out: Vec<(String, T)> = Vec::new();
        let mut i: usize = 0;
        while i < n
            invariant
                n == self.entries@.len(),
                i <= n,
                out@.len() == i,
                forall|j: int| 0 <= j < i ==> out@[j].0@ == self.entries@[j].0@ && out@[j].1
                    == self.entries@[j].1,
            decreases n - i,
        {
            let name = self.entries[i].0.clone();
            let v = self.entries[i].1;
            out.push((name, v));
            i += 1;
        }
        let r = AssocTable { entries: out };
        assert(r@ =~= self@);
        r
    }
}

} // verus!
