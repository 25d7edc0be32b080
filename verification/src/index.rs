//! The directed discovery index: for each reporting node id, the ordered list
//! of peer ids it reported, with keys kept in ascending id order.

use vstd::prelude::*;

verus! {

/// Index of the first occurrence of `k` in `keys`, if any.
pub open spec fn find_key(keys: Seq<usize>, k: usize) -> Option<int>
    decreases keys.len(),
{
    if keys.len() == 0 {
        None
    } else if keys[0] == k {
        Some(0int)
    } else {
        match find_key(keys.drop_first(), k) {
            Some(i) => Some(i + 1),
            None => None,
        }
    }
}

/// `find_key` finds exactly the first occurrence.
pub proof fn lemma_find_key(keys: Seq<usize>, k: usize)
    ensures
        match find_key(keys, k) {
            Some(i) => 0 <= i < keys.len() && keys[i] == k && forall|j: int|
                0 <= j < i ==> keys[j] != k,
            None => forall|j: int| 0 <= j < keys.len() ==> keys[j] != k,
        },
    decreases keys.len(),
{
    if keys.len() > 0 && keys[0] != k {
        lemma_find_key(keys.drop_first(), k);
        assert forall|j: int| 0 <= j < keys.len() implies (keys.drop_first()[j - 1] == keys[j] || j
            == 0) by {}
    }
}

/// However records arrived, a well-formed index holds its reporting ids in
/// strictly ascending order, so iteration over `keys` is deterministic.
pub proof fn lemma_keys_ascending(ix: DirectedIndex)
    requires
        ix.wf(),
    ensures
        forall|i: int, j: int| 0 <= i < j < ix.keys@.len() ==> ix.keys@[i] < ix.keys@[j],
{
}

pub struct DirectedIndex {
    pub keys: Vec<usize>,
    pub vals: Vec<Vec<usize>>,
}

impl DirectedIndex {
    pub open spec fn wf(self) -> bool {
        &&& self.keys@.len() == self.vals@.len()
        &&& forall|i: int, j: int| 0 <= i < j < self.keys@.len() ==> self.keys@[i] < self.keys@[j]
    }

    pub open spec fn contains_key(self, k: usize) -> bool {
        find_key(self.keys@, k) is Some
    }

    /// The peer ids recorded under `k`, in recording order; empty if `k` is absent.
    pub open spec fn peers(self, k: usize) -> Seq<usize> {
        match find_key(self.keys@, k) {
            Some(i) => self.vals@[i]@,
            None => Seq::empty(),
        }
    }

    pub fn new() -> (r: Self)
        ensures
            r.wf(),
            r.keys@ == Seq::<usize>::empty(),
            forall|k: usize| !r.contains_key(k) && r.peers(k) == Seq::<usize>::empty(),
    {
        let r = DirectedIndex { keys: Vec::new(), vals: Vec::new() };
        proof {
            assert(r.keys@ =~= Seq::<usize>::empty());
            assert forall|k: usize| !r.contains_key(k) && r.peers(k) == Seq::<usize>::empty() by {
                lemma_find_key(r.keys@, k);
            }
        }
        r
    }

    /// Number of distinct reporting ids recorded.
    pub fn len(&self) -> (r: usize)
        ensures
            r == self.keys@.len(),
    {
        self.keys.len()
    }

    pub fn is_empty(&self) -> (r: bool)
        ensures
            r == (self.keys@.len() == 0),
    {
        self.keys.len() == 0
    }

    /// The reporting ids, in ascending order whenever the index is well formed.
    pub fn keys(&self) -> (r: &Vec<usize>)
        ensures
            r@ == self.keys@,
    {
        &self.keys
    }

    /// The peer list recorded under `k`, if `k` is a key.
    pub fn entries_for(&self, k: usize) -> (r: Option<&Vec<usize>>)
        requires
            self.wf(),
        ensures
            match r {
                Some(v) => self.contains_key(k) && v@ == self.peers(k),
                None => !self.contains_key(k),
            },
    {
        proof {
            lemma_find_key(self.keys@, k);
        }
        let n = self.keys.len();
        let mut i: usize = 0;
        while i < n
            invariant
                self.wf(),
                n == self.keys@.len(),
                i <= n,
                forall|j: int| 0 <= j < i ==> self.keys@[j] != k,
                find_key(self.keys@, k) matches Some(m) ==> 0 <= m < n && self.keys@[m] == k
                    && forall|j: int| 0 <= j < m ==> self.keys@[j] != k,
                find_key(self.keys@, k) is None ==> forall|j: int|
                    0 <= j < n ==> self.keys@[j] != k,
            decreases n - i,
        {
            if self.keys[i] == k {
                return Some(&self.vals[i]);
            }
            i = i + 1;
        }
        None
    }

    /// Appends `p` to the list keyed by `r`, creating the key in its sorted
    /// place; a degenerate self-link is never indexed.
    pub fn record(&mut self, r: usize, p: usize)
        requires
            old(self).wf(),
            old(self).keys@.len() < usize::MAX,
            r != p,
        ensures
            final(self).wf(),
            final(self).peers(r) == old(self).peers(r).push(p),
            final(self).contains_key(r),
            forall|k: usize|
                k != r ==> final(self).contains_key(k) == old(self).contains_key(k)
                    && final(self).peers(k) == old(self).peers(k),
            final(self).keys@.len() == old(self).keys@.len() + (if old(self).contains_key(r) {
                0int
            } else {
                1int
            }),
    {
        proof {
            lemma_find_key(self.keys@, r);
        }
        let n = self.keys.len();
        let mut i: usize = 0;
        while i < n && self.keys[i] < r
            invariant
                self.wf(),
                n == self.keys@.len(),
                i <= n,
                forall|j: int| 0 <= j < i ==> self.keys@[j] < r,
            decreases n - i,
        {
            i = i + 1;
        }
        if i < n && self.keys[i] == r {
            // existing key: append to its list
            proof {
                lemma_find_key(self.keys@, r);
                assert(find_key(self.keys@, r) == Some(i as int));
            }
            self.vals[i].push(p);
            proof {
                assert(final(self).peers(r) =~= old(self).peers(r).push(p));
                assert forall|k: usize| k != r implies final(self).contains_key(k)
                    == old(self).contains_key(k) && final(self).peers(k) == old(self).peers(k) by {
                    lemma_find_key(self.keys@, k);
                    match find_key(self.keys@, k) {
                        Some(m) => {
                            assert(self.keys@[m] == k);
                            assert(m != i);
                            assert(final(self).vals@[m] == old(self).vals@[m]);
                        },
                        None => {},
                    }
                }
            }
        } else {
            // new key: every present key differs from r
            proof {
                assert forall|j: int| 0 <= j < n implies self.keys@[j] != r by {
                    if j >= i {
                        if i < n {
                            assert(i < j ==> self.keys@[i as int] < self.keys@[j]);
                        }
                    }
                }
                lemma_find_key(self.keys@, r);
                assert(!old(self).contains_key(r));
            }
            let ghost okeys = self.keys@;
            let ghost ovals = self.vals@;
            self.keys.insert(i, r);
            let mut row: Vec<usize> = Vec::new();
            row.push(p);
            self.vals.insert(i, row);
            proof {
                let nkeys = self.keys@;
                assert forall|j: int| 0 <= j < i implies nkeys[j] == okeys[j] by {}
                assert(nkeys[i as int] == r);
                assert forall|j: int| i < j < nkeys.len() implies nkeys[j] == okeys[j - 1] by {}
                assert forall|a: int, b: int| 0 <= a < b < nkeys.len() implies nkeys[a]
                    < nkeys[b] by {
                    if b < i {
                        assert(okeys[a] < okeys[b]);
                    } else if b == i {
                        assert(okeys[a] < r);
                    } else if a < i {
                        assert(a < b - 1 ==> okeys[a] < okeys[b - 1]);
                    } else if a == i {
                        assert(i < okeys.len() && r < okeys[i as int]);
                        assert(i < b - 1 ==> okeys[i as int] < okeys[b - 1]);
                    } else {
                        assert(okeys[a - 1] < okeys[b - 1]);
                    }
                }
                assert forall|j: int| 0 <= j < i implies nkeys[j] != r by {}
                assert(nkeys[i as int] == r);
                lemma_find_key(nkeys, r);
                assert(find_key(nkeys, r) == Some(i as int));
                assert(final(self).peers(r) =~= old(self).peers(r).push(p));
                assert forall|k: usize| k != r implies final(self).contains_key(k)
                    == old(self).contains_key(k) && final(self).peers(k) == old(self).peers(k) by {
                    lemma_find_key(okeys, k);
                    lemma_find_key(nkeys, k);
                    match find_key(okeys, k) {
                        Some(m) => {
                            if m < i {
                                assert(nkeys[m] == k);
                                assert(forall|j: int| 0 <= j < m ==> nkeys[j] == okeys[j]);
                                assert(find_key(nkeys, k) == Some(m));
                                assert(final(self).vals@[m] == ovals[m]);
                            } else {
                                assert(nkeys[m + 1] == okeys[m]);
                                assert forall|j: int| 0 <= j < m + 1 implies nkeys[j] != k by {
                                    if j < i {
                                        assert(nkeys[j] == okeys[j]);
                                    } else if j > i {
                                        assert(nkeys[j] == okeys[j - 1]);
                                    }
                                }
                                assert(find_key(nkeys, k) == Some(m + 1));
                                assert(final(self).vals@[m + 1] == ovals[m]);
                            }
                        },
                        None => {
                            assert forall|j: int| 0 <= j < nkeys.len() implies nkeys[j] != k by {
                                if j < i {
                                    assert(nkeys[j] == okeys[j]);
                                } else if j > i {
                                    assert(nkeys[j] == okeys[j - 1]);
                                }
                            }
                            assert(find_key(nkeys, k) is None);
                        },
                    }
                }
            }
        }
    }
}

} // verus!
