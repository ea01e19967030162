use std::collections::BTreeMap;

use rustc_hash::{FxBuildHasher, FxHashSet};
use vstd::prelude::*;
use vstd::std_specs::btree::group_btree_axioms;

use crate::snapshot::ProcessInfo;

verus! {

broadcast use group_btree_axioms;

#[verifier::external_type_specification]
#[verifier::external_body]
pub struct ExFxBuildHasher(FxBuildHasher);

/// The parent links of a snapshot: each id mapped to its parent's id, a later
/// record taking the place of an earlier one with the same id.
pub open spec fn parent_links<P: ProcessInfo>(procs: Seq<P>) -> Map<u32, u32>
    decreases procs.len(),
{
    if procs.len() == 0 {
        Map::empty()
    } else {
        parent_links(procs.drop_last()).insert(
            procs.last().spec_pid(),
            procs.last().spec_parent_pid(),
        )
    }
}

/// The ancestor `n` parent links above `p`, where each link is known and
/// non-zero; `None` once the walk has reached a root.
pub open spec fn ancestor(links: Map<u32, u32>, p: u32, n: nat) -> Option<u32>
    decreases n,
{
    if n == 0 {
        Some(p)
    } else {
        match ancestor(links, p, (n - 1) as nat) {
            Some(q) => if links.contains_key(q) && links[q] != 0 {
                Some(links[q])
            } else {
                None
            },
            None => None,
        }
    }
}

/// `p` is in the tree of `root`: it is `root`, or `root` is one of its
/// ancestors, reached without passing `wall` on the way up when a wall is
/// set.
pub open spec fn in_tree(links: Map<u32, u32>, wall: Option<u32>, root: u32, p: u32) -> bool {
    p == root || exists|n: nat|
        n > 0 && #[trigger] ancestor(links, p, n) == Some(root) && forall|m: nat|
            0 < m < n ==> !(wall is Some && #[trigger] ancestor(links, p, m) == wall)
}

/// Once the walk has reached a root it stays there.
proof fn lemma_ancestor_none_stays(links: Map<u32, u32>, p: u32, a: nat, b: nat)
    requires
        a <= b,
        ancestor(links, p, a) is None,
    ensures
        ancestor(links, p, b) is None,
    decreases b - a,
{
    if a < b {
        lemma_ancestor_none_stays(links, p, a, (b - 1) as nat);
    }
}

/// Two points of the walk that meet go on together.
proof fn lemma_ancestor_shift(links: Map<u32, u32>, p: u32, a: nat, b: nat, m: nat)
    requires
        ancestor(links, p, a) == ancestor(links, p, b),
    ensures
        ancestor(links, p, a + m) == ancestor(links, p, b + m),
    decreases m,
{
    if m > 0 {
        lemma_ancestor_shift(links, p, a, b, (m - 1) as nat);
        assert(ancestor(links, p, a + m) == ancestor(links, p, b + m)) by {
            assert((a + m - 1) as nat == a + (m - 1) as nat);
            assert((b + m - 1) as nat == b + (m - 1) as nat);
        }
    }
}

/// When the step after `path` lands back on `path`, the walk never leaves it.
proof fn lemma_cycle_closed(links: Map<u32, u32>, p: u32, path: Seq<u32>, j: nat, n: nat)
    requires
        1 <= j <= path.len(),
        forall|i: int| 0 <= i < path.len() ==> ancestor(links, p, (i + 1) as nat) == Some(
            #[trigger] path[i],
        ),
        ancestor(links, p, path.len() + 1) == ancestor(links, p, j),
        n >= 1,
    ensures
        match ancestor(links, p, n) {
            Some(x) => path.contains(x),
            None => true,
        },
    decreases n,
{
    let k = path.len();
    if n <= k {
        let i = n - 1;
        assert(ancestor(links, p, (i + 1) as nat) == Some(path[i]));
        assert(path.contains(path[i]));
    } else {
        let m = (n - (k + 1)) as nat;
        lemma_ancestor_shift(links, p, k + 1, j, m);
        assert(k + 1 + m == n);
        lemma_cycle_closed(links, p, path, j, j + m);
    }
}

/// The parent links of one process snapshot, frozen at construction, and
/// an optional boundary process that no walk climbs past.
///
/// A boundary (such as the process that starts the system's services) keeps
/// the processes above it out of every tree below it: a query whose walk
/// reaches the boundary before the root answers `false`.
pub struct ProcTree {
    parent_map: BTreeMap<u32, u32>,
    boundary: Option<u32>,
}

impl View for ProcTree {
    type V = Map<u32, u32>;

    closed spec fn view(&self) -> Map<u32, u32> {
        self.parent_map@
    }
}

/// Relies on std's `HashSet::insert`, on a set built with rustc_hash's
/// `FxBuildHasher`, whose hashers are deterministic: the key is added.
#[verifier::external_body]
fn mark_visited(met: &mut FxHashSet<u32>, pid: u32)
    ensures
        final(met)@ == old(met)@.insert(pid),
{
    met.insert(pid);
}

/// Relies on std's `HashSet::contains`, on a set built with rustc_hash's
/// `FxBuildHasher`: true exactly when the key is in the set.
#[verifier::external_body]
fn was_visited(met: &FxHashSet<u32>, pid: u32) -> (r: bool)
    ensures
        r == met@.contains(pid),
{
    met.contains(&pid)
}

impl ProcTree {
    /// The boundary process, if one is set.
    pub closed spec fn boundary_pid(&self) -> Option<u32> {
        self.boundary
    }

    /// Freezes the parent links of a snapshot, with no boundary.
    pub fn new<P: ProcessInfo>(procs: &Vec<P>) -> (r: ProcTree)
        ensures
            r@ == parent_links(procs@),
            r.boundary_pid() is None,
    {
        let parent_map = Self::links(procs);
        ProcTree { parent_map, boundary: None }
    }

    /// Freezes the parent links of a snapshot; no walk climbs past
    /// `boundary`.
    pub fn with_boundary<P: ProcessInfo>(procs: &Vec<P>, boundary: u32) -> (r: ProcTree)
        ensures
            r@ == parent_links(procs@),
            r.boundary_pid() == Some(boundary),
    {
        let parent_map = Self::links(procs);
        ProcTree { parent_map, boundary: Some(boundary) }
    }

    fn links<P: ProcessInfo>(procs: &Vec<P>) -> (r: BTreeMap<u32, u32>)
        ensures
            r@ == parent_links(procs@),
    {
        let mut parent_map: BTreeMap<u32, u32> = BTreeMap::new();
        let mut i: usize = 0;
        while i < procs.len()
            invariant
                i <= procs.len(),
                parent_map@ == parent_links(procs@.take(i as int)),
            decreases procs.len() - i,
        {
            let p = &procs[i];
            parent_map.insert(p.pid(), p.parent_pid());
            assert(procs@.take(i + 1).drop_last() == procs@.take(i as int));
            i += 1;
        }
        assert(procs@.take(procs.len() as int) == procs@);
        parent_map
    }

    /// Whether `pid` is `root` or a descendant of it in this snapshot.
    ///
    /// The walk climbs parent links and stops at a root (a zero or unknown
    /// parent), at the boundary, or at a process that it has passed before,
    /// so a cycle in the links ends it with `false`.
    pub fn is_in_tree(&self, root: u32, pid: u32) -> (r: bool)
        ensures
            r == in_tree(self@, self.boundary_pid(), root, pid),
    {
        if pid == root {
            return true;
        }
        let ghost links = self@;
        let ghost start = pid;
        let ghost mut path: Seq<u32> = Seq::empty();
        let mut cur = pid;
        let mut met: FxHashSet<u32> = FxHashSet::default();
        proof {
            assert(links.dom().finite());
        }
        loop
            invariant
                links == self@,
                links.dom().finite(),
                start == pid,
                start != root,
                ancestor(links, start, path.len()) == Some(cur),
                forall|i: int| 0 <= i < path.len() ==> ancestor(links, start, (i + 1) as nat)
                    == Some(#[trigger] path[i]),
                forall|i: int| 0 <= i < path.len() ==> #[trigger] path[i] != root,
                forall|i: int| 0 <= i < path.len() ==> Some(#[trigger] path[i]) != self.boundary,
                forall|i: int| 0 <= i < path.len() - 1 ==> links.contains_key(#[trigger] path[i]),
                path.no_duplicates(),
                met@ == path.to_set(),
            decreases links.dom().len() + 1 - path.len(),
        {
            let parent = match self.parent_map.get(&cur) {
                Some(v) => *v,
                None => {
                    proof {
                        assert(ancestor(links, start, path.len() + 1) is None);
                        self.lemma_walk_ends(start, root, path);
                    }
                    return false;
                },
            };
            if parent == 0 {
                proof {
                    assert(ancestor(links, start, path.len() + 1) is None);
                    self.lemma_walk_ends(start, root, path);
                }
                return false;
            }
            if was_visited(&met, parent) {
                proof {
                    assert(ancestor(links, start, path.len() + 1) == Some(parent));
                    assert(path.to_set().contains(parent));
                    let j = choose|j: int| 0 <= j < path.len() && path[j] == parent;
                    assert forall|n: nat| n > 0 implies ancestor(links, start, n) != Some(
                        root,
                    ) by {
                        lemma_cycle_closed(links, start, path, (j + 1) as nat, n);
                    }
                }
                return false;
            }
            if parent == root {
                proof {
                    let n: nat = path.len() + 1;
                    assert(ancestor(links, start, n) == Some(root));
                    assert forall|m: nat| 0 < m < n implies !(self.boundary is Some && #[trigger] ancestor(
                        links,
                        start,
                        m,
                    ) == self.boundary) by {
                        assert(ancestor(links, start, m) == Some(path[m - 1]));
                    }
                }
                return true;
            }
            if self.boundary == Some(parent) {
                proof {
                    let k: nat = path.len() + 1;
                    assert(ancestor(links, start, k) == Some(parent));
                    assert forall|n: nat|
                        n > 0 && #[trigger] ancestor(links, start, n) == Some(root) implies !(forall|m: nat|
                        0 < m < n ==> !(self.boundary is Some && #[trigger] ancestor(links, start, m)
                            == self.boundary)) by {
                        if n < k {
                            assert(ancestor(links, start, n) == Some(path[n - 1]));
                        } else if n > k {
                            assert(ancestor(links, start, k) == self.boundary);
                        }
                    }
                }
                return false;
            }
            proof {
                assert(ancestor(links, start, path.len() + 1) == Some(parent));
                let old_path = path;
                path = path.push(parent);
                assert(path.drop_last() == old_path);
                assert(path.drop_last().to_set().subset_of(links.dom()));
                path.drop_last().unique_seq_to_set();
                vstd::set_lib::lemma_len_subset(path.drop_last().to_set(), links.dom());
                old_path.lemma_push_to_set_commute(parent);
                assert(path.no_duplicates()) by {
                    assert(!old_path.contains(parent));
                }
            }
            cur = parent;
            mark_visited(&mut met, cur);
        }
    }

    /// A walk that reaches a root without meeting `root` never meets it.
    proof fn lemma_walk_ends(&self, start: u32, root: u32, path: Seq<u32>)
        requires
            start != root,
            ancestor(self@, start, path.len() + 1) is None,
            forall|i: int| 0 <= i < path.len() ==> ancestor(self@, start, (i + 1) as nat)
                == Some(#[trigger] path[i]),
            forall|i: int| 0 <= i < path.len() ==> #[trigger] path[i] != root,
        ensures
            forall|n: nat| n > 0 ==> #[trigger] ancestor(self@, start, n) != Some(root),
            !in_tree(self@, self.boundary_pid(), root, start),
    {
        assert forall|n: nat| n > 0 implies ancestor(self@, start, n) != Some(root) by {
            if n <= path.len() {
                assert(ancestor(self@, start, n) == Some(path[n - 1]));
            } else {
                lemma_ancestor_none_stays(self@, start, path.len() + 1, n);
            }
        }
    }
}

/// A walk that starts on a cycle of parent links stays on it.
proof fn lemma_walk_stays_on_cycle(links: Map<u32, u32>, cycle: Seq<u32>, i: int, n: nat)
    requires
        0 <= i < cycle.len(),
        forall|k: int|
            0 <= k < cycle.len() ==> links.contains_key(#[trigger] cycle[k]) && links[cycle[k]]
                == cycle[(k + 1) % (cycle.len() as int)],
    ensures
        match ancestor(links, cycle[i], n) {
            Some(x) => cycle.contains(x),
            None => true,
        },
    decreases n,
{
    if n == 0 {
        assert(cycle.contains(cycle[i]));
    } else {
        lemma_walk_stays_on_cycle(links, cycle, i, (n - 1) as nat);
        if let Some(q) = ancestor(links, cycle[i], (n - 1) as nat) {
            let k = choose|k: int| 0 <= k < cycle.len() && cycle[k] == q;
            let next = (k + 1) % (cycle.len() as int);
            assert(0 <= next < cycle.len());
            assert(cycle.contains(cycle[next]));
        }
    }
}

impl ProcTree {
    /// A cycle of parent links does not make the walk run forever, and no
    /// process on the cycle is in the tree of a root outside it: `cycle[k]`'s
    /// parent is `cycle[k + 1]`, and the last one's is the first.
    pub proof fn lemma_cycle_not_in_tree(&self, cycle: Seq<u32>, root: u32)
        requires
            cycle.len() > 0,
            forall|k: int|
                0 <= k < cycle.len() ==> self@.contains_key(#[trigger] cycle[k]) && self@[cycle[k]]
                    == cycle[(k + 1) % (cycle.len() as int)],
            !cycle.contains(root),
        ensures
            forall|k: int| 0 <= k < cycle.len() ==> !in_tree(self@, self.boundary_pid(), root, #[trigger] cycle[k]),
    {
        assert forall|k: int| 0 <= k < cycle.len() implies !in_tree(
            self@,
            self.boundary_pid(),
            root,
            #[trigger] cycle[k],
        ) by {
            assert(cycle.contains(cycle[k]));
            assert forall|n: nat| n > 0 implies ancestor(self@, cycle[k], n) != Some(root) by {
                lemma_walk_stays_on_cycle(self@, cycle, k, n);
            }
        }
    }

    /// Every process is in its own tree.
    pub proof fn lemma_self_in_tree(&self, p: u32)
        ensures
            in_tree(self@, self.boundary_pid(), p, p),
    {
    }

    /// Along a chain `p -> q -> r -> 0`, `p` is in the tree of `r` (unless `q`
    /// is the boundary), and `r` is not in the tree of `p`.
    pub proof fn lemma_chain_not_symmetric(&self, p: u32, q: u32, r: u32)
        requires
            self@.contains_key(p),
            self@[p] == q,
            self@.contains_key(q),
            self@[q] == r,
            self@.contains_key(r),
            self@[r] == 0,
            q != 0,
            r != 0,
            r != p,
            self.boundary_pid() != Some(q),
        ensures
            in_tree(self@, self.boundary_pid(), r, p),
            !in_tree(self@, self.boundary_pid(), p, r),
    {
        assert(ancestor(self@, p, 0) == Some(p));
        assert(ancestor(self@, p, 1) == Some(q));
        assert(ancestor(self@, p, 2) == Some(r));
        assert(ancestor(self@, r, 0) == Some(r));
        assert(ancestor(self@, r, 1) is None);
        assert forall|n: nat| n > 0 implies ancestor(self@, r, n) != Some(p) by {
            lemma_ancestor_none_stays(self@, r, 1, n);
        }
    }
}

} // verus!
