//! A string-keyed association map with a sequence view.
//!
//! All persisted registries of the crate (polls, results, jobs, voter
//! records, tallies, reputation points, balances) are maps from an account
//! or id string to a record. `SMap` stores the entries as a vector of
//! key/value pairs whose view is the sequence of abstracted pairs; the
//! `sm_*` spec functions give lookup, insertion and removal over that view,
//! and well-formedness (`wf`) says the keys are pairwise distinct.

use vstd::prelude::*;

verus! {

/// A key is present in the view.
pub open spec fn sm_has<T>(m: Seq<(Seq<char>, T)>, k: Seq<char>) -> bool {
    exists|i: int| 0 <= i < m.len() && m[i].0 == k
}

/// The index of a key in the view (meaningful under `sm_distinct`).
pub open spec fn sm_idx<T>(m: Seq<(Seq<char>, T)>, k: Seq<char>) -> int {
    choose|i: int| 0 <= i < m.len() && m[i].0 == k
}

/// The value bound to a key, if any.
pub open spec fn sm_get<T>(m: Seq<(Seq<char>, T)>, k: Seq<char>) -> Option<T> {
    if sm_has(m, k) {
        Some(m[sm_idx(m, k)].1)
    } else {
        None
    }
}

/// The value bound to a present key.
pub open spec fn sm_val<T>(m: Seq<(Seq<char>, T)>, k: Seq<char>) -> T {
    m[sm_idx(m, k)].1
}

/// All keys are pairwise distinct: no key binds two values.
pub open spec fn sm_distinct<T>(m: Seq<(Seq<char>, T)>) -> bool {
    forall|i: int, j: int| 0 <= i < j < m.len() ==> m[i].0 != m[j].0
}

/// The view after binding `k` to `v`: an update in place when the key is
/// present, a push at the end otherwise.
pub open spec fn sm_insert<T>(m: Seq<(Seq<char>, T)>, k: Seq<char>, v: T) -> Seq<(Seq<char>, T)> {
    if sm_has(m, k) {
        m.update(sm_idx(m, k), (k, v))
    } else {
        m.push((k, v))
    }
}

/// The view after removing a key; unchanged when the key is absent.
pub open spec fn sm_remove<T>(m: Seq<(Seq<char>, T)>, k: Seq<char>) -> Seq<(Seq<char>, T)> {
    if sm_has(m, k) {
        m.remove(sm_idx(m, k))
    } else {
        m
    }
}

/// Under distinct keys, any index holding `k` is the index `sm_idx` picks.
pub proof fn lemma_sm_idx_unique<T>(m: Seq<(Seq<char>, T)>, k: Seq<char>, i: int)
    requires
        sm_distinct(m),
        0 <= i < m.len(),
        m[i].0 == k,
    ensures
        sm_has(m, k),
        sm_idx(m, k) == i,
{
    assert(sm_has(m, k));
    let j = sm_idx(m, k);
    assert(0 <= j < m.len() && m[j].0 == k);
    if i < j {
        assert(m[i].0 != m[j].0);
    } else if j < i {
        assert(m[j].0 != m[i].0);
    }
}

/// What `sm_insert` does to lookups: the inserted key now binds `v`,
/// every other key is untouched, and distinctness is preserved.
pub proof fn lemma_sm_insert<T>(m: Seq<(Seq<char>, T)>, k: Seq<char>, v: T)
    requires
        sm_distinct(m),
    ensures
        sm_distinct(sm_insert(m, k, v)),
        sm_get(sm_insert(m, k, v), k) == Some(v),
        forall|k2: Seq<char>| k2 != k ==> sm_get(sm_insert(m, k, v), k2) == sm_get(m, k2),
        forall|k2: Seq<char>| k2 != k ==> sm_has(sm_insert(m, k, v), k2) == sm_has(m, k2),
        sm_has(sm_insert(m, k, v), k),
        sm_insert(m, k, v).len() == if sm_has(m, k) { m.len() } else { m.len() + 1 },
{
    let r = sm_insert(m, k, v);
    if sm_has(m, k) {
        let i = sm_idx(m, k);
        assert(0 <= i < m.len() && m[i].0 == k);
        assert(r == m.update(i, (k, v)));
        assert forall|p: int, q: int| 0 <= p < q < r.len() implies r[p].0 != r[q].0 by {
            assert(m[p].0 != m[q].0);
        }
        lemma_sm_idx_unique(r, k, i);
        assert(sm_get(r, k) == Some(v));
        assert forall|k2: Seq<char>| k2 != k implies sm_get(r, k2) == sm_get(m, k2)
            && sm_has(r, k2) == sm_has(m, k2) by {
            if sm_has(m, k2) {
                let j = sm_idx(m, k2);
                assert(0 <= j < m.len() && m[j].0 == k2);
                assert(j != i);
                assert(r[j].0 == k2);
                lemma_sm_idx_unique(r, k2, j);
                lemma_sm_idx_unique(m, k2, j);
            } else {
                if sm_has(r, k2) {
                    let j = sm_idx(r, k2);
                    assert(0 <= j < r.len() && r[j].0 == k2);
                    assert(j != i);
                    assert(m[j].0 == k2);
                }
            }
        }
    } else {
        assert(r == m.push((k, v)));
        assert forall|p: int, q: int| 0 <= p < q < r.len() implies r[p].0 != r[q].0 by {
            if q < m.len() {
                assert(m[p].0 != m[q].0);
            } else {
                assert(r[q].0 == k);
                assert(r[p] == m[p]);
                assert(!(m[p].0 == k)) by {
                    if m[p].0 == k {
                        assert(sm_has(m, k));
                    }
                }
            }
        }
        lemma_sm_idx_unique(r, k, m.len() as int);
        assert(sm_get(r, k) == Some(v));
        assert forall|k2: Seq<char>| k2 != k implies sm_get(r, k2) == sm_get(m, k2)
            && sm_has(r, k2) == sm_has(m, k2) by {
            if sm_has(m, k2) {
                let j = sm_idx(m, k2);
                assert(r[j].0 == k2);
                lemma_sm_idx_unique(r, k2, j);
                lemma_sm_idx_unique(m, k2, j);
            } else {
                if sm_has(r, k2) {
                    let j = sm_idx(r, k2);
                    assert(0 <= j < r.len() && r[j].0 == k2);
                    assert(j != m.len());
                    assert(m[j].0 == k2);
                }
            }
        }
    }
}

/// What `sm_remove` does to lookups under distinct keys.
pub proof fn lemma_sm_remove<T>(m: Seq<(Seq<char>, T)>, k: Seq<char>)
    requires
        sm_distinct(m),
    ensures
        sm_distinct(sm_remove(m, k)),
        !sm_has(sm_remove(m, k), k),
        forall|k2: Seq<char>| k2 != k ==> sm_get(sm_remove(m, k), k2) == sm_get(m, k2),
        forall|k2: Seq<char>| k2 != k ==> sm_has(sm_remove(m, k), k2) == sm_has(m, k2),
{
    let r = sm_remove(m, k);
    if sm_has(m, k) {
        let i = sm_idx(m, k);
        assert(0 <= i < m.len() && m[i].0 == k);
        assert(r == m.remove(i));
        assert forall|p: int, q: int| 0 <= p < q < r.len() implies r[p].0 != r[q].0 by {
            let p0: int = if p < i { p } else { p + 1 };
            let q0: int = if q < i { q } else { q + 1 };
            assert(r[p] == m[p0]);
            assert(r[q] == m[q0]);
            assert(m[p0].0 != m[q0].0);
        }
        assert forall|j: int| 0 <= j < r.len() implies r[j].0 != k by {
            let j0: int = if j < i { j } else { j + 1 };
            assert(r[j] == m[j0]);
            if j0 != i {
                lemma_sm_idx_unique(m, k, i);
                if m[j0].0 == k {
                    lemma_sm_idx_unique(m, k, j0);
                }
            }
        }
        assert(!sm_has(r, k));
        assert forall|k2: Seq<char>| k2 != k implies sm_get(r, k2) == sm_get(m, k2)
            && sm_has(r, k2) == sm_has(m, k2) by {
            if sm_has(m, k2) {
                let j = sm_idx(m, k2);
                assert(0 <= j < m.len() && m[j].0 == k2);
                assert(j != i);
                let jr: int = if j < i { j } else { j - 1 };
                assert(r[jr] == m[j]);
                lemma_sm_idx_unique(r, k2, jr);
                lemma_sm_idx_unique(m, k2, j);
            } else {
                if sm_has(r, k2) {
                    let j = sm_idx(r, k2);
                    assert(0 <= j < r.len() && r[j].0 == k2);
                    let j0: int = if j < i { j } else { j + 1 };
                    assert(r[j] == m[j0]);
                    assert(m[j0].0 == k2);
                }
            }
        }
    }
}

/// Entry-wise description of `sm_insert`: every entry of the result is the
/// inserted pair or an entry of the original at the same position.
pub proof fn lemma_sm_insert_entries<T>(m: Seq<(Seq<char>, T)>, k: Seq<char>, v: T)
    requires
        sm_distinct(m),
    ensures
        forall|i: int|
            0 <= i < sm_insert(m, k, v).len() ==> (#[trigger] sm_insert(m, k, v)[i] == (k, v) || (
            0 <= i < m.len() && sm_insert(m, k, v)[i] == m[i])),
{
    let r = sm_insert(m, k, v);
    if sm_has(m, k) {
        let ix = sm_idx(m, k);
        assert forall|i: int| 0 <= i < r.len() implies (r[i] == (k, v) || (0 <= i < m.len()
            && r[i] == m[i])) by {
            if i != ix {
                assert(r[i] == m[i]);
            }
        }
    }
}

/// A value with a deep copy whose abstraction is unchanged.
pub trait Dup: View + Sized {
    /// A fresh value with the same abstraction.
    fn dup(&self) -> (r: Self)
        ensures
            r@ == self@,
    ;
}

impl Dup for u128 {
    fn dup(&self) -> (r: Self)
        ensures
            r@ == self@,
    {
        *self
    }
}

/// String-keyed association map. The entries of every registry in the crate
/// live in one of these; `wf` (distinct keys) is part of each owner's
/// well-formedness.
pub struct SMap<V> {
    pairs: Vec<(String, V)>,
}

impl<V: View> View for SMap<V> {
    type V = Seq<(Seq<char>, <V as View>::V)>;

    closed spec fn view(&self) -> Seq<(Seq<char>, <V as View>::V)> {
        Seq::new(self.pairs@.len(), |i: int| (self.pairs@[i].0@, self.pairs@[i].1@))
    }
}

impl<V: View> SMap<V> {
    /// Keys are pairwise distinct.
    pub open spec fn wf(&self) -> bool {
        sm_distinct(self@)
    }

    pub fn new() -> (r: Self)
        ensures
            r@ == Seq::<(Seq<char>, <V as View>::V)>::empty(),
            r.wf(),
    {
        let r = SMap { pairs: Vec::new() };
        proof {
            assert(r@ =~= Seq::<(Seq<char>, <V as View>::V)>::empty());
        }
        r
    }

    pub fn len(&self) -> (n: usize)
        ensures
            n == self@.len(),
    {
        self.pairs.len()
    }

    /// The key at a position, for iteration.
    pub fn key_at(&self, i: usize) -> (k: &String)
        requires
            i < self@.len(),
        ensures
            k@ == self@[i as int].0,
    {
        &self.pairs[i].0
    }

    /// The value at a position, for iteration.
    pub fn val_at(&self, i: usize) -> (v: &V)
        requires
            i < self@.len(),
        ensures
            v@ == self@[i as int].1,
    {
        &self.pairs[i].1
    }

    pub fn contains_key(&self, k: &String) -> (r: bool)
        ensures
            r == sm_has(self@, k@),
    {
        let n = self.pairs.len();
        let mut i: usize = 0;
        while i < n
            invariant
                n == self@.len(),
                0 <= i <= n,
                forall|j: int| 0 <= j < i ==> self@[j].0 != k@,
            decreases n - i,
        {
            if self.pairs[i].0 == *k {
                assert(self@[i as int].0 == k@);
                return true;
            }
            i = i + 1;
        }
        false
    }

    pub fn get<'a>(&'a self, k: &String) -> (r: Option<&'a V>)
        requires
            self.wf(),
        ensures
            match r {
                Some(v) => sm_get(self@, k@) == Some(v@) && sm_has(self@, k@),
                None => !sm_has(self@, k@),
            },
    {
        let n = self.pairs.len();
        let mut i: usize = 0;
        while i < n
            invariant
                self.wf(),
                n == self@.len(),
                0 <= i <= n,
                forall|j: int| 0 <= j < i ==> self@[j].0 != k@,
            decreases n - i,
        {
            if self.pairs[i].0 == *k {
                proof {
                    lemma_sm_idx_unique(self@, k@, i as int);
                }
                return Some(&self.pairs[i].1);
            }
            i = i + 1;
        }
        None
    }

    /// Bind `k` to `v`: update in place when present, append otherwise.
    pub fn insert(&mut self, k: String, v: V)
        requires
            old(self).wf(),
        ensures
            final(self).wf(),
            final(self)@ == sm_insert(old(self)@, k@, v@),
    {
        proof {
            lemma_sm_insert(old(self)@, k@, v@);
        }
        let n = self.pairs.len();
        let mut i: usize = 0;
        while i < n
            invariant
                self.wf(),
                self@ == old(self)@,
                n == self@.len(),
                0 <= i <= n,
                forall|j: int| 0 <= j < i ==> self@[j].0 != k@,
            decreases n - i,
        {
            if self.pairs[i].0 == *(&k) {
                proof {
                    lemma_sm_idx_unique(old(self)@, k@, i as int);
                }
                self.pairs[i] = (k, v);
                proof {
                    assert(self@ =~= sm_insert(old(self)@, k@, v@));
                }
                return ;
            }
            i = i + 1;
        }
        assert(!sm_has(old(self)@, k@));
        self.pairs.push((k, v));
        proof {
            assert(self@ =~= sm_insert(old(self)@, k@, v@));
        }
    }

    /// Remove a key; no effect when it is absent.
    pub fn remove(&mut self, k: &String)
        requires
            old(self).wf(),
        ensures
            final(self).wf(),
            final(self)@ == sm_remove(old(self)@, k@),
    {
        proof {
            lemma_sm_remove(old(self)@, k@);
        }
        let n = self.pairs.len();
        let mut i: usize = 0;
        while i < n
            invariant
                self.wf(),
                self@ == old(self)@,
                n == self@.len(),
                0 <= i <= n,
                forall|j: int| 0 <= j < i ==> self@[j].0 != k@,
            decreases n - i,
        {
            if self.pairs[i].0 == *k {
                proof {
                    lemma_sm_idx_unique(old(self)@, k@, i as int);
                }
                self.pairs.remove(i);
                proof {
                    assert(self@ =~= sm_remove(old(self)@, k@));
                }
                return ;
            }
            i = i + 1;
        }
        assert(!sm_has(old(self)@, k@));
        proof {
            assert(self@ =~= sm_remove(old(self)@, k@));
        }
    }

    /// Drop every entry.
    pub fn clear(&mut self)
        ensures
            final(self)@ == Seq::<(Seq<char>, <V as View>::V)>::empty(),
            final(self).wf(),
    {
        self.pairs.clear();
        proof {
            assert(self@ =~= Seq::<(Seq<char>, <V as View>::V)>::empty());
        }
    }
}

impl<V: Dup> SMap<V> {
    /// A fresh map with the same view.
    pub fn duplicate(&self) -> (r: Self)
        ensures
            r@ == self@,
    {
        let n = self.pairs.len();
        let mut out: SMap<V> = SMap { pairs: Vec::new() };
        proof {
            assert(out@ =~= Seq::<(Seq<char>, <V as View>::V)>::empty());
        }
        let mut i: usize = 0;
        while i < n
            invariant
                n == self@.len(),
                0 <= i <= n,
                out@ == self@.take(i as int),
            decreases n - i,
        {
            let key = self.pairs[i].0.clone();
            let value = self.pairs[i].1.dup();
            proof {
                assert(key@ == self@[i as int].0);
                assert(value@ == self@[i as int].1);
            }
            proof {
                assert(out@.len() == i as int);
                assert(out.pairs@.len() == i as int);
            }
            let ghost op = out.pairs@;
            let ghost ov = out@;
            out.pairs.push((key, value));
            proof {
                assert(out.pairs@.len() == i + 1);
                assert(out@.len() == i + 1);
                assert(out@[i as int] == (key@, value@));
                assert forall|j: int| 0 <= j < i implies out@[j] == self@[j] by {
                    assert(out.pairs@[j] == op[j]);
                    assert(out@[j] == (out.pairs@[j].0@, out.pairs@[j].1@));
                    assert(ov[j] == (op[j].0@, op[j].1@));
                    assert(ov[j] == self@[j]);
                }
                assert(out@ =~= self@.take(i as int + 1));
            }
            i = i + 1;
        }
        proof {
            assert(out@ =~= self@);
        }
        out
    }
}

} // verus!
