//! The topology graph: node identity assignment (first-seen order) and the
//! undirected edge set discovered from the protocol's link reports.

use vstd::prelude::*;

verus! {

/// Index of the first occurrence of `name` in `names`, if any.
pub open spec fn find_name(names: Seq<Seq<char>>, name: Seq<char>) -> Option<int>
    decreases names.len(),
{
    if names.len() == 0 {
        None
    } else if names[0] == name {
        Some(0int)
    } else {
        match find_name(names.drop_first(), name) {
            Some(i) => Some(i + 1),
            None => None,
        }
    }
}

/// The id `get_or_create_id` hands out for `name` against the name list `names`.
pub open spec fn goc_id(names: Seq<Seq<char>>, name: Seq<char>) -> int {
    match find_name(names, name) {
        Some(i) => i,
        None => names.len() as int,
    }
}

/// The name list after `get_or_create_id` has seen `name`.
pub open spec fn goc_names(names: Seq<Seq<char>>, name: Seq<char>) -> Seq<Seq<char>> {
    match find_name(names, name) {
        Some(_) => names,
        None => names.push(name),
    }
}

/// `find_name` finds exactly the first occurrence.
pub proof fn lemma_find_name(names: Seq<Seq<char>>, name: Seq<char>)
    ensures
        match find_name(names, name) {
            Some(i) => 0 <= i < names.len() && names[i] == name && forall|j: int|
                0 <= j < i ==> names[j] != name,
            None => forall|j: int| 0 <= j < names.len() ==> names[j] != name,
        },
    decreases names.len(),
{
    if names.len() > 0 && names[0] != name {
        lemma_find_name(names.drop_first(), name);
        assert forall|j: int| 0 <= j < names.len() implies (names.drop_first()[j - 1] == names[j]
            || j == 0) by {}
    }
}

/// Ids are handed out in first-seen order, one past the last: a name that is
/// new gets the next sequential id and extends the name list by itself alone.
pub proof fn lemma_new_name_next_id(names: Seq<Seq<char>>, name: Seq<char>)
    requires
        find_name(names, name) is None,
    ensures
        goc_id(names, name) == names.len(),
        goc_names(names, name) == names.push(name),
{
}

/// Re-reporting an already-seen pair is idempotent: both ids resolve to their
/// first-seen indices and no new id is created.
pub proof fn lemma_seen_pair_idempotent(names: Seq<Seq<char>>, left: Seq<char>, right: Seq<char>)
    requires
        find_name(names, left) is Some,
        find_name(names, right) is Some,
    ensures
        goc_names(goc_names(names, left), right) == names,
        goc_id(names, left) == find_name(names, left).unwrap(),
        goc_id(goc_names(names, left), right) == find_name(names, right).unwrap(),
{
}

pub struct TopologyGraph {
    pub names: Vec<String>,
    pub adj: Vec<Vec<usize>>,
}

impl TopologyGraph {
    /// The node names, indexed by node id.
    pub open spec fn name_seq(self) -> Seq<Seq<char>> {
        self.names@.map_values(|s: String| s@)
    }

    /// Whether the undirected edge set links nodes `i` and `j`.
    pub open spec fn has_edge(self, i: int, j: int) -> bool {
        &&& 0 <= i < self.adj@.len()
        &&& exists|k: int| 0 <= k < self.adj@[i]@.len() && self.adj@[i]@[k] as int == j
    }

    pub open spec fn wf(self) -> bool {
        &&& self.adj@.len() == self.names@.len()
        &&& forall|i: int, k: int|
            0 <= i < self.adj@.len() && 0 <= k < self.adj@[i]@.len() ==> (
            #[trigger] self.adj@[i]@[k] as int) < self.names@.len()
        &&& forall|i: int, j: int|
            0 <= i < j < self.name_seq().len() ==> self.name_seq()[i] != self.name_seq()[j]
        &&& forall|i: int, j: int| self.has_edge(i, j) <==> self.has_edge(j, i)
    }

    pub fn new() -> (r: Self)
        ensures
            r.wf(),
            r.name_seq() == Seq::<Seq<char>>::empty(),
            forall|i: int, j: int| !r.has_edge(i, j),
    {
        let r = TopologyGraph { names: Vec::new(), adj: Vec::new() };
        proof {
            assert(r.name_seq() =~= Seq::<Seq<char>>::empty());
        }
        r
    }

    pub fn node_count(&self) -> (r: usize)
        ensures
            r == self.name_seq().len(),
    {
        self.names.len()
    }

    /// The name a node id was assigned for; ids never outlive the graph.
    pub fn name_of(&self, id: usize) -> (r: &String)
        requires
            id < self.name_seq().len(),
        ensures
            r@ == self.name_seq()[id as int],
    {
        &self.names[id]
    }

    /// The id `name` is known under, if it was seen before; no mutation.
    pub fn id_of(&self, name: &String) -> (r: Option<usize>)
        requires
            self.wf(),
        ensures
            match r {
                Some(i) => find_name(self.name_seq(), name@) == Some(i as int),
                None => find_name(self.name_seq(), name@) is None,
            },
    {
        proof {
            lemma_find_name(self.name_seq(), name@);
        }
        let n = self.names.len();
        let mut i: usize = 0;
        while i < n
            invariant
                n == self.name_seq().len(),
                i <= n,
                forall|j: int| 0 <= j < i ==> self.name_seq()[j] != name@,
                find_name(self.name_seq(), name@) matches Some(k) ==> 0 <= k < n
                    && self.name_seq()[k] == name@,
                find_name(self.name_seq(), name@) is None ==> forall|j: int|
                    0 <= j < n ==> self.name_seq()[j] != name@,
            decreases n - i,
        {
            if self.names[i].eq(name) {
                proof {
                    assert(self.name_seq()[i as int] == name@);
                    lemma_find_name(self.name_seq(), name@);
                }
                return Some(i);
            }
            i = i + 1;
        }
        None
    }

    /// Existing id if `name` was seen before, else the next sequential id.
    pub fn get_or_create_id(&mut self, name: String) -> (r: usize)
        requires
            old(self).wf(),
            old(self).name_seq().len() < usize::MAX,
        ensures
            final(self).wf(),
            r as int == goc_id(old(self).name_seq(), name@),
            final(self).name_seq() == goc_names(old(self).name_seq(), name@),
            r < final(self).name_seq().len(),
            forall|i: int, j: int| final(self).has_edge(i, j) == old(self).has_edge(i, j),
    {
        proof {
            lemma_find_name(self.name_seq(), name@);
        }
        match self.id_of(&name) {
            Some(i) => {
                proof {
                    assert(final(self).name_seq() =~= goc_names(old(self).name_seq(), name@));
                }
                i
            },
            None => {
                let id = self.names.len();
                self.names.push(name);
                self.adj.push(Vec::new());
                proof {
                    assert(final(self).name_seq() =~= old(self).name_seq().push(name@));
                    assert forall|i: int, j: int|
                        final(self).has_edge(i, j) == old(self).has_edge(i, j) by {
                        if 0 <= i && i < old(self).adj@.len() {
                            assert(final(self).adj@[i] == old(self).adj@[i]);
                        } else if i == old(self).adj@.len() {
                            assert(final(self).adj@[i]@.len() == 0);
                        }
                    }
                }
                id
            },
        }
    }

    /// Resolves or creates both endpoints and records the undirected edge.
    pub fn add_edge(&mut self, left: String, right: String) -> (r: (usize, usize))
        requires
            old(self).wf(),
            old(self).name_seq().len() + 2 < usize::MAX,
        ensures
            final(self).wf(),
            r.0 as int == goc_id(old(self).name_seq(), left@),
            r.1 as int == goc_id(goc_names(old(self).name_seq(), left@), right@),
            final(self).name_seq() == goc_names(
                goc_names(old(self).name_seq(), left@),
                right@,
            ),
            r.0 < final(self).name_seq().len(),
            r.1 < final(self).name_seq().len(),
            forall|i: int, j: int|
                final(self).has_edge(i, j) <==> (old(self).has_edge(i, j) || (i == r.0 && j
                    == r.1) || (i == r.1 && j == r.0)),
    {
        let lid = self.get_or_create_id(left);
        let rid = self.get_or_create_id(right);
        let ghost mid = *self;
        self.adj[lid].push(rid);
        let ghost mid2 = *self;
        proof {
            assert forall|i: int, j: int|
                mid2.has_edge(i, j) <==> (mid.has_edge(i, j) || (i == lid && j == rid)) by {
                if i == lid {
                    assert(mid2.adj@[i]@ == mid.adj@[i]@.push(rid));
                    if mid2.has_edge(i, j) {
                        let k = choose|k: int|
                            0 <= k < mid2.adj@[i]@.len() && mid2.adj@[i]@[k] as int == j;
                        if k < mid.adj@[i]@.len() {
                            assert(mid.has_edge(i, j));
                        } else {
                            assert(j == rid);
                        }
                    }
                    if mid.has_edge(i, j) {
                        let k = choose|k: int|
                            0 <= k < mid.adj@[i]@.len() && mid.adj@[i]@[k] as int == j;
                        assert(mid2.adj@[i]@[k] as int == j);
                    }
                    assert(mid2.adj@[i]@[mid.adj@[i]@.len() as int] as int == rid);
                } else {
                    if 0 <= i && i < mid.adj@.len() {
                        assert(mid2.adj@[i] == mid.adj@[i]);
                    }
                }
            }
        }
        self.adj[rid].push(lid);
        proof {
            assert forall|i: int, j: int|
                final(self).has_edge(i, j) <==> (mid2.has_edge(i, j) || (i == rid && j == lid)) by {
                if i == rid {
                    assert(final(self).adj@[i]@ == mid2.adj@[i]@.push(lid));
                    if final(self).has_edge(i, j) {
                        let k = choose|k: int|
                            0 <= k < final(self).adj@[i]@.len() && final(self).adj@[i]@[k] as int
                                == j;
                        if k < mid2.adj@[i]@.len() {
                            assert(mid2.has_edge(i, j));
                        } else {
                            assert(j == lid);
                        }
                    }
                    if mid2.has_edge(i, j) {
                        let k = choose|k: int|
                            0 <= k < mid2.adj@[i]@.len() && mid2.adj@[i]@[k] as int == j;
                        assert(final(self).adj@[i]@[k] as int == j);
                    }
                    assert(final(self).adj@[i]@[mid2.adj@[i]@.len() as int] as int == lid);
                } else {
                    if 0 <= i && i < mid2.adj@.len() {
                        assert(final(self).adj@[i] == mid2.adj@[i]);
                    }
                }
            }
        }
        proof {
            assert forall|i: int, j: int|
                final(self).has_edge(i, j) <==> (old(self).has_edge(i, j) || (i == lid && j == rid)
                    || (i == rid && j == lid)) by {
                assert(final(self).has_edge(i, j) <==> (mid2.has_edge(i, j) || (i == rid && j
                    == lid)));
                assert(mid2.has_edge(i, j) <==> (mid.has_edge(i, j) || (i == lid && j == rid)));
                assert(mid.has_edge(i, j) == old(self).has_edge(i, j));
            }
        }
        (lid, rid)
    }
}

} // verus!
