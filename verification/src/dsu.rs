//! A standalone disjoint-set (union-find) structure over the index space
//! `0..len`, with size-based union and path compression.
//!
//! The abstract state is `rep()`: the canonical representative of every
//! element.  Two elements are in the same set exactly when their
//! representatives are equal.  `union` merges the two classes of its
//! arguments and leaves every other class untouched.

use vstd::prelude::*;

verus! {

pub struct DisjointSet {
    parents: Vec<usize>,
    sizes: Vec<usize>,
    reps: Ghost<Seq<usize>>,
    depth: Ghost<Seq<int>>,
}

impl DisjointSet {
    pub closed spec fn len(self) -> nat {
        self.parents@.len()
    }

    /// The canonical representative of each element.
    pub closed spec fn rep(self) -> Seq<usize> {
        self.reps@
    }

    pub closed spec fn wf(self) -> bool {
        let n = self.parents@.len() as int;
        let p = self.parents@;
        let r = self.reps@;
        let d = self.depth@;
        &&& self.sizes@.len() == n
        &&& r.len() == n
        &&& d.len() == n
        &&& forall|i: int| 0 <= i < n ==> #[trigger] p[i] < n
        &&& forall|i: int| 0 <= i < n ==> #[trigger] r[i] < n
        &&& forall|i: int| 0 <= i < n ==> 0 <= #[trigger] d[i]
        &&& forall|i: int| 0 <= i < n ==> r[#[trigger] p[i] as int] == r[i]
        &&& forall|i: int| 0 <= i < n && #[trigger] p[i] == i ==> r[i] == i
        &&& forall|i: int| 0 <= i < n ==> p[#[trigger] r[i] as int] == r[i]
        &&& forall|i: int| 0 <= i < n ==> r[#[trigger] r[i] as int] == r[i]
        &&& forall|i: int| 0 <= i < n && #[trigger] p[i] != i ==> d[p[i] as int] < d[i]
        &&& forall|i: int| 0 <= i < n && #[trigger] r[i] != i ==> d[r[i] as int] < d[i]
    }

    /// `n` singleton sets: every element starts as its own representative.
    pub fn new(n: usize) -> (r: DisjointSet)
        ensures
            r.wf(),
            r.len() == n,
            r.rep().len() == n,
            forall|i: int| 0 <= i < n ==> r.rep()[i] == i,
    {
        let mut parents: Vec<usize> = Vec::new();
        let mut sizes: Vec<usize> = Vec::new();
        let mut i: usize = 0;
        while i < n
            invariant
                i <= n,
                parents@.len() == i,
                sizes@.len() == i,
                forall|j: int| 0 <= j < i ==> parents@[j] == j,
            decreases n - i,
        {
            parents.push(i);
            sizes.push(1);
            i = i + 1;
        }
        DisjointSet {
            parents,
            sizes,
            reps: Ghost(Seq::new(n as nat, |j: int| j as usize)),
            depth: Ghost(Seq::new(n as nat, |j: int| 0int)),
        }
    }

    /// The representative of `x`'s set, compressing the path behind it.
    pub fn find(&mut self, x: usize) -> (r: usize)
        requires
            old(self).wf(),
            x < old(self).len(),
        ensures
            final(self).wf(),
            final(self).len() == old(self).len(),
            final(self).rep() == old(self).rep(),
            r == final(self).rep()[x as int],
            r < final(self).len(),
    {
        let mut cur = x;
        while self.parents[cur] != cur
            invariant
                self.wf(),
                *self == *old(self),
                cur < self.len(),
                self.reps@[cur as int] == self.reps@[x as int],
            decreases self.depth@[cur as int],
        {
            cur = self.parents[cur];
        }
        let root = cur;
        proof {
            assert(self.reps@[root as int] == root);
        }
        let mut cur = x;
        while self.parents[cur] != cur
            invariant
                self.wf(),
                self.len() == old(self).len(),
                self.reps@ == old(self).reps@,
                self.depth@ == old(self).depth@,
                cur < self.len(),
                root < self.len(),
                root == self.reps@[x as int],
                self.reps@[cur as int] == root,
            decreases self.depth@[cur as int],
        {
            let next = self.parents[cur];
            self.parents[cur] = root;
            proof {
                let n = self.parents@.len() as int;
                let p = self.parents@;
                let r = self.reps@;
                assert(r[root as int] == root);
                assert forall|i: int| 0 <= i < n ==> r[#[trigger] p[i] as int] == r[i] by {
                    if 0 <= i < n && p[i] == root as usize {
                    }
                }
            }
            cur = next;
        }
        root
    }

    /// Hangs the root `loser` below the root `winner` and merges the ghost
    /// class map accordingly.
    fn link(&mut self, winner: usize, loser: usize)
        requires
            old(self).wf(),
            winner < old(self).len(),
            loser < old(self).len(),
            old(self).rep()[winner as int] == winner,
            old(self).rep()[loser as int] == loser,
            winner != loser,
        ensures
            final(self).wf(),
            final(self).len() == old(self).len(),
            final(self).rep().len() == old(self).rep().len(),
            forall|i: int|
                0 <= i < final(self).len() ==> final(self).rep()[i] == (if old(self).rep()[i]
                    == loser {
                    winner
                } else {
                    old(self).rep()[i]
                }),
    {
        let ghost n = self.parents@.len() as int;
        let ghost r0 = self.reps@;
        let ghost d0 = self.depth@;
        let ghost dw = d0[winner as int];
        let ghost dl = d0[loser as int];
        let ghost delta: int = if dw + 1 > dl {
            dw + 1 - dl
        } else {
            0
        };
        self.parents[loser] = winner;
        let grown = match self.sizes[winner].checked_add(self.sizes[loser]) {
            Some(s) => s,
            None => usize::MAX,
        };
        self.sizes[winner] = grown;
        proof {
            self.reps@ = Seq::new(
                n as nat,
                |i: int|
                    if r0[i] == loser {
                        winner
                    } else {
                        r0[i]
                    },
            );
            self.depth@ = Seq::new(
                n as nat,
                |i: int|
                    if r0[i] == loser {
                        d0[i] + delta
                    } else {
                        d0[i]
                    },
            );
            let p = self.parents@;
            let r = self.reps@;
            let d = self.depth@;
            assert forall|i: int| 0 <= i < n ==> r[#[trigger] p[i] as int] == r[i] by {}
            assert forall|i: int| 0 <= i < n && #[trigger] p[i] != i implies d[p[i] as int] < d[i] by {
                if i == loser as int {
                    assert(d[winner as int] == dw);
                    assert(d[loser as int] == dl + delta);
                } else {
                    assert(r0[p[i] as int] == r0[i]);
                }
            }
            assert forall|i: int| 0 <= i < n && #[trigger] r[i] != i implies d[r[i] as int] < d[i] by {
                if r0[i] == loser {
                    assert(r[i] == winner);
                    assert(d[winner as int] == dw);
                    if i == loser as int {
                        assert(d[i] == dl + delta);
                    } else {
                        assert(d0[loser as int] < d0[i]);
                        assert(d[i] == d0[i] + delta);
                    }
                }
            }
        }
    }

    /// Merges the sets of `x` and `y`; the larger set's root absorbs the
    /// smaller, and every member of either old class gets the surviving
    /// representative.
    pub fn union(&mut self, x: usize, y: usize)
        requires
            old(self).wf(),
            x < old(self).len(),
            y < old(self).len(),
        ensures
            final(self).wf(),
            final(self).len() == old(self).len(),
            final(self).rep().len() == old(self).rep().len(),
            forall|i: int|
                0 <= i < final(self).len() ==> final(self).rep()[i] == (if old(self).rep()[i]
                    == old(self).rep()[x as int] || old(self).rep()[i] == old(self).rep()[y as int] {
                    final(self).rep()[x as int]
                } else {
                    old(self).rep()[i]
                }),
            final(self).rep()[x as int] == final(self).rep()[y as int],
            final(self).rep()[x as int] == old(self).rep()[x as int] || final(self).rep()[x as int]
                == old(self).rep()[y as int],
    {
        let root_x = self.find(x);
        let root_y = self.find(y);
        if root_x == root_y {
            return ;
        }
        if self.sizes[root_x] < self.sizes[root_y] {
            self.link(root_y, root_x);
        } else {
            self.link(root_x, root_y);
        }
    }
}

/// Two class maps name the same partition of their index space.
pub open spec fn same_partition(a: Seq<usize>, b: Seq<usize>) -> bool {
    &&& a.len() == b.len()
    &&& forall|k: int, l: int|
        0 <= k < a.len() && 0 <= l < a.len() ==> ((#[trigger] a[k] == #[trigger] a[l]) <==> (b[k]
            == b[l]))
}

/// The canonical merge of the classes of `a` and `b`: every member of `b`'s
/// class moves to `a`'s class.
pub open spec fn spec_merge_classes(cls: Seq<usize>, a: int, b: int) -> Seq<usize> {
    Seq::new(
        cls.len(),
        |k: int|
            if cls[k] == cls[b] {
                cls[a]
            } else {
                cls[k]
            },
    )
}

/// A `union(x, y)` and the canonical merge move equivalent class maps to
/// equivalent class maps.
pub proof fn lemma_union_matches_merge(
    em0: Seq<usize>,
    em1: Seq<usize>,
    cls: Seq<usize>,
    x: int,
    y: int,
)
    requires
        same_partition(em0, cls),
        0 <= x < em0.len(),
        0 <= y < em0.len(),
        em1.len() == em0.len(),
        forall|i: int|
            0 <= i < em0.len() ==> em1[i] == (if em0[i] == em0[x] || em0[i] == em0[y] {
                em1[x]
            } else {
                em0[i]
            }),
        em1[x] == em0[x] || em1[x] == em0[y],
    ensures
        same_partition(em1, spec_merge_classes(cls, x, y)),
{
    let cls1 = spec_merge_classes(cls, x, y);
    assert forall|k: int, l: int| 0 <= k < em1.len() && 0 <= l < em1.len() implies ((#[trigger] em1[k]
        == #[trigger] em1[l]) <==> (cls1[k] == cls1[l])) by {
        let mk = em0[k] == em0[x] || em0[k] == em0[y];
        let ml = em0[l] == em0[x] || em0[l] == em0[y];
        assert(cls1[k] == (if cls[k] == cls[y] { cls[x] } else { cls[k] }));
        assert(cls1[l] == (if cls[l] == cls[y] { cls[x] } else { cls[l] }));
        if mk && ml {
        } else if !mk && !ml {
            assert(em1[k] == em0[k] && em1[l] == em0[l]);
            assert(cls[k] != cls[y] && cls[l] != cls[y]);
        } else if mk && !ml {
            assert(em1[k] == em1[x]);
            if em1[k] == em1[l] {
                assert(em1[l] == em0[l]);
                assert(em0[l] == em0[x] || em0[l] == em0[y]);
            }
            assert(em1[k] != em1[l]);
            assert(cls1[k] == cls[x] && cls1[l] == cls[l]);
            assert(cls[l] != cls[x] && cls[l] != cls[y]);
        } else {
            assert(em1[l] == em1[x]);
            if em1[k] == em1[l] {
                assert(em1[k] == em0[k]);
                assert(em0[k] == em0[x] || em0[k] == em0[y]);
            }
            assert(em1[k] != em1[l]);
            assert(cls1[l] == cls[x] && cls1[k] == cls[k]);
            assert(cls[k] != cls[x] && cls[k] != cls[y]);
        }
    }
}

/// First position of `c` in `roots` at or after `p`.
pub open spec fn spec_index_in(roots: Seq<usize>, c: usize, p: int) -> Option<int>
    decreases roots.len() - p,
{
    if p < 0 || p >= roots.len() {
        None
    } else if roots[p] == c {
        Some(p)
    } else {
        spec_index_in(roots, c, p + 1)
    }
}

/// Grouping of indices `0..k` by their class, groups ordered by first
/// occurrence: returns the class of each group and the members of each.
pub open spec fn spec_group_indices(cls: Seq<usize>, k: int) -> (Seq<usize>, Seq<Seq<usize>>)
    decreases k,
{
    if k <= 0 {
        (Seq::empty(), Seq::empty())
    } else {
        let (roots, groups) = spec_group_indices(cls, k - 1);
        let c = cls[k - 1];
        match spec_index_in(roots, c, 0) {
            Some(p) => (roots, groups.update(p, groups[p].push((k - 1) as usize))),
            None => (roots.push(c), groups.push(seq![(k - 1) as usize])),
        }
    }
}

impl DisjointSet {
    /// The members of each set among `0..n`, grouped in first-occurrence
    /// order, exactly as the canonical class map `cls` groups them.
    pub fn group_by_class(&mut self, n: usize, cls: Ghost<Seq<usize>>) -> (groups: Vec<Vec<usize>>)
        requires
            old(self).wf(),
            n == old(self).len(),
            cls@.len() == n,
            same_partition(old(self).rep(), cls@),
        ensures
            final(self).wf(),
            final(self).len() == old(self).len(),
            final(self).rep() == old(self).rep(),
            groups@.map_values(|g: Vec<usize>| g@) == spec_group_indices(cls@, n as int).1,
            forall|p: int, q: int|
                0 <= p < groups@.len() && 0 <= q < groups@[p]@.len() ==> #[trigger] groups@[p]@[q]
                    < n,
    {
        let mut roots: Vec<usize> = Vec::new();
        let mut groups: Vec<Vec<usize>> = Vec::new();
        let ghost mut firsts: Seq<usize> = Seq::empty();
        let mut i: usize = 0;
        proof {
            assert(groups@.map_values(|g: Vec<usize>| g@) =~= spec_group_indices(cls@, 0).1);
        }
        while i < n
            invariant
                self.wf(),
                self.len() == old(self).len(),
                self.rep() == old(self).rep(),
                n == self.len(),
                cls@.len() == n,
                same_partition(self.rep(), cls@),
                i <= n,
                roots@.len() == groups@.len(),
                firsts.len() == roots@.len(),
                roots@.len() == spec_group_indices(cls@, i as int).0.len(),
                groups@.map_values(|g: Vec<usize>| g@) == spec_group_indices(cls@, i as int).1,
                forall|p: int|
                    0 <= p < firsts.len() ==> #[trigger] firsts[p] < i && roots@[p]
                        == self.rep()[firsts[p] as int] && spec_group_indices(cls@, i as int).0[p]
                        == cls@[firsts[p] as int],
                forall|p: int, q: int|
                    0 <= p < groups@.len() && 0 <= q < groups@[p]@.len() ==> #[trigger] groups@[p]@[q]
                        < i,
            decreases n - i,
        {
            let r = self.find(i);
            let ghost sroots = spec_group_indices(cls@, i as int).0;
            let ghost sgroups = spec_group_indices(cls@, i as int).1;
            let mut p: usize = 0;
            let mut found = false;
            while p < roots.len() && !found
                invariant
                    i < n,
                    n == self.len(),
                    cls@.len() == n,
                    same_partition(self.rep(), cls@),
                    r == self.rep()[i as int],
                    p <= roots@.len(),
                    roots@.len() == sroots.len(),
                    firsts.len() == roots@.len(),
                    forall|t: int|
                        0 <= t < firsts.len() ==> #[trigger] firsts[t] < i && roots@[t]
                            == self.rep()[firsts[t] as int] && sroots[t] == cls@[firsts[t] as int],
                    found ==> p < roots@.len() && roots@[p as int] == r,
                    !found ==> spec_index_in(sroots, cls@[i as int], 0) == spec_index_in(
                        sroots,
                        cls@[i as int],
                        p as int,
                    ),
                    found ==> spec_index_in(sroots, cls@[i as int], 0) == Some(p as int),
                decreases roots@.len() - p, (if found { 0int } else { 1int }),
            {
                if roots[p] == r {
                    found = true;
                    proof {
                        assert(self.rep()[firsts[p as int] as int] == self.rep()[i as int]);
                        assert(cls@[firsts[p as int] as int] == cls@[i as int]);
                        assert(sroots[p as int] == cls@[i as int]);
                    }
                } else {
                    proof {
                        assert(self.rep()[firsts[p as int] as int] != self.rep()[i as int]);
                        assert(cls@[firsts[p as int] as int] != cls@[i as int]);
                        assert(sroots[p as int] != cls@[i as int]);
                    }
                    p = p + 1;
                }
            }
            if found {
                let mut member = groups.remove(p);
                member.push(i);
                groups.insert(p, member);
                proof {
                    assert(groups@.map_values(|g: Vec<usize>| g@) =~= spec_group_indices(
                        cls@,
                        i + 1,
                    ).1);
                    assert(spec_group_indices(cls@, i + 1).0 == sroots);
                }
            } else {
                proof {
                    assert(spec_index_in(sroots, cls@[i as int], p as int) is None);
                }
                roots.push(r);
                let mut single: Vec<usize> = Vec::new();
                single.push(i);
                groups.push(single);
                proof {
                    firsts = firsts.push(i);
                    assert(groups@.map_values(|g: Vec<usize>| g@) =~= spec_group_indices(
                        cls@,
                        i + 1,
                    ).1);
                    assert(spec_group_indices(cls@, i + 1).0 =~= sroots.push(cls@[i as int]));
                }
            }
            i = i + 1;
        }
        groups
    }
}

} // verus!
