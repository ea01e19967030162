use vstd::prelude::*;

use crate::bypass::{should_bypass, NameSet};
use crate::proc_tree::{in_tree, parent_links, ProcTree};
use crate::snapshot::Process;

verus! {

/// The power hint that a sweep applies to each process it touches.
#[derive(Clone, Copy, Debug, PartialEq, Eq, Structural)]
pub enum PowerMode {
    /// Efficiency mode on: lower scheduling priority and power budget.
    Throttle,
    /// Efficiency mode off: the process runs at normal priority.
    Boost,
    /// No hint: the system decides again, as before any sweep.
    Recover,
}

impl PowerMode {
    /// The mode that the tri-state `enable` flag of the power-mode call names:
    /// `Some(true)` throttles, `Some(false)` boosts, `None` recovers.
    pub fn from_enable(enable: Option<bool>) -> (r: PowerMode)
        ensures
            r == match enable {
                Some(true) => PowerMode::Throttle,
                Some(false) => PowerMode::Boost,
                None => PowerMode::Recover,
            },
    {
        match enable {
            Some(true) => PowerMode::Throttle,
            Some(false) => PowerMode::Boost,
            None => PowerMode::Recover,
        }
    }

    /// The tri-state `enable` flag that the power-mode call takes for this mode.
    pub fn enable(&self) -> (r: Option<bool>)
        ensures
            r == match *self {
                PowerMode::Throttle => Some(true),
                PowerMode::Boost => Some(false),
                PowerMode::Recover => None,
            },
    {
        match *self {
            PowerMode::Throttle => Some(true),
            PowerMode::Boost => Some(false),
            PowerMode::Recover => None,
        }
    }
}

/// The ids of the records that `keep` selects, in snapshot order.
pub open spec fn pick_ids(procs: Seq<Process>, keep: spec_fn(Process) -> bool) -> Seq<u32>
    decreases procs.len(),
{
    if procs.len() == 0 {
        Seq::empty()
    } else {
        let rest = pick_ids(procs.drop_last(), keep);
        if keep(procs.last()) {
            rest.push(procs.last().process_id)
        } else {
            rest
        }
    }
}

/// Ids are unique within the snapshot.
pub open spec fn ids_unique(procs: Seq<Process>) -> bool {
    forall|i: int, j: int|
        0 <= i < procs.len() && 0 <= j < procs.len() && i != j ==> #[trigger] procs[i].process_id
            != #[trigger] procs[j].process_id
}

/// The calls of a sweep over all processes: every process that the bypass
/// policy does not exempt.
pub open spec fn all_targets(procs: Seq<Process>, bypass: Set<Seq<char>>) -> Seq<u32> {
    pick_ids(procs, |p: Process| !bypass.contains(p.process_name@))
}

/// The first record with this id, if the snapshot holds one.
pub open spec fn find_process(procs: Seq<Process>, pid: u32) -> Option<Process>
    decreases procs.len(),
{
    if procs.len() == 0 {
        None
    } else if procs[0].process_id == pid {
        Some(procs[0])
    } else {
        find_process(procs.drop_first(), pid)
    }
}

/// The members of `root`'s tree that the bypass policy does not exempt.
pub open spec fn tree_members(procs: Seq<Process>, bypass: Set<Seq<char>>, root: u32) -> Seq<u32> {
    pick_ids(
        procs,
        |p: Process|
            in_tree(parent_links(procs), None, root, p.process_id) && !bypass.contains(
                p.process_name@,
            ),
    )
}

/// The calls of a sweep over the tree of `root`: none when the root's own
/// record is exempt, else every member of the tree that is not exempt.
pub open spec fn tree_targets(procs: Seq<Process>, bypass: Set<Seq<char>>, root: u32) -> Seq<u32> {
    match find_process(procs, root) {
        Some(p) => if bypass.contains(p.process_name@) {
            Seq::empty()
        } else {
            tree_members(procs, bypass, root)
        },
        None => tree_members(procs, bypass, root),
    }
}

/// The power modes after the calls `calls[i]` with `mode`, the `i`-th taking
/// effect when `outcomes[i]` reports success; a failed call changes nothing.
pub open spec fn modes_after(
    modes: Map<u32, PowerMode>,
    mode: PowerMode,
    calls: Seq<u32>,
    outcomes: Seq<bool>,
) -> Map<u32, PowerMode>
    decreases calls.len(),
{
    if calls.len() == 0 {
        modes
    } else {
        let before = modes_after(modes, mode, calls.drop_last(), outcomes);
        if outcomes[calls.len() - 1] {
            before.insert(calls.last(), mode)
        } else {
            before
        }
    }
}

/// One sweep: the power-mode calls planned from one snapshot, handed out in
/// order, with the outcome of each call as it is reported.
///
/// A failed call is recorded and the sweep goes on to the next one; no call
/// is retried.
pub struct Sweep {
    mode: PowerMode,
    targets: Vec<u32>,
    results: Vec<bool>,
}

impl Sweep {
    /// The mode that every call of the sweep applies.
    pub closed spec fn spec_mode(&self) -> PowerMode {
        self.mode
    }

    /// The processes to call, in order.
    pub closed spec fn planned(&self) -> Seq<u32> {
        self.targets@
    }

    /// The outcomes reported so far, one for each call made.
    pub closed spec fn outcomes(&self) -> Seq<bool> {
        self.results@
    }

    /// No more outcomes than planned calls: every sweep that `new` builds
    /// and `record` advances is well formed.
    pub closed spec fn wf(&self) -> bool {
        self.results@.len() <= self.targets@.len()
    }

    /// A sweep that has made no call yet.
    pub fn new(mode: PowerMode, targets: Vec<u32>) -> (r: Sweep)
        ensures
            r.wf(),
            r.spec_mode() == mode,
            r.planned() == targets@,
            r.outcomes() == Seq::<bool>::empty(),
    {
        Sweep { mode, targets, results: Vec::new() }
    }

    /// The mode that every call of the sweep applies.
    pub fn mode(&self) -> (r: PowerMode)
        ensures
            r == self.spec_mode(),
    {
        self.mode
    }

    /// The processes to call, in order.
    pub fn targets(&self) -> (r: &Vec<u32>)
        ensures
            r@ == self.planned(),
    {
        &self.targets
    }

    /// The next process to call, or `None` once every planned call has been
    /// made.
    pub fn next_call(&self) -> (r: Option<u32>)
        requires
            self.wf(),
        ensures
            r == if self.outcomes().len() < self.planned().len() {
                Some(self.planned()[self.outcomes().len() as int])
            } else {
                None::<u32>
            },
    {
        if self.results.len() < self.targets.len() {
            Some(self.targets[self.results.len()])
        } else {
            None
        }
    }

    /// Whether every planned call has been made.
    pub fn is_done(&self) -> (r: bool)
        requires
            self.wf(),
        ensures
            r == (self.outcomes().len() == self.planned().len()),
    {
        self.results.len() == self.targets.len()
    }

    /// Records the outcome of the call that `next_call` handed out. Success
    /// and failure alike move the sweep on to the next process.
    pub fn record(&mut self, ok: bool)
        requires
            old(self).wf(),
            old(self).outcomes().len() < old(self).planned().len(),
        ensures
            final(self).wf(),
            final(self).spec_mode() == old(self).spec_mode(),
            final(self).planned() == old(self).planned(),
            final(self).outcomes() == old(self).outcomes().push(ok),
    {
        self.results.push(ok);
    }

    /// The processes whose call failed, in call order.
    pub fn failed(&self) -> (r: Vec<u32>)
        requires
            self.wf(),
        ensures
            r@ == failed_calls(self.planned(), self.outcomes()),
    {
        let mut r: Vec<u32> = Vec::new();
        let mut i: usize = 0;
        while i < self.results.len()
            invariant
                self.wf(),
                i <= self.results.len(),
                r@ == failed_calls(self.targets@, self.results@.take(i as int)),
            decreases self.results.len() - i,
        {
            if !self.results[i] {
                r.push(self.targets[i]);
            }
            assert(self.results@.take(i + 1).drop_last() == self.results@.take(i as int));
            i += 1;
        }
        assert(self.results@.take(self.results.len() as int) == self.results@);
        r
    }
}

/// The calls whose outcome reports a failure, in call order.
pub open spec fn failed_calls(calls: Seq<u32>, outcomes: Seq<bool>) -> Seq<u32>
    decreases outcomes.len(),
{
    if outcomes.len() == 0 {
        Seq::empty()
    } else {
        let rest = failed_calls(calls, outcomes.drop_last());
        if outcomes.last() {
            rest
        } else {
            rest.push(calls[outcomes.len() - 1])
        }
    }
}

/// Plans a sweep over every process of the snapshot: each one that the
/// bypass policy does not exempt gets one call with `mode`.
pub fn toggle_all(mode: PowerMode, procs: &Vec<Process>, bypass: &NameSet) -> (r: Sweep)
    ensures
        r.wf(),
        r.spec_mode() == mode,
        r.planned() == all_targets(procs@, bypass@),
        r.outcomes() == Seq::<bool>::empty(),
{
    let ghost keep = |p: Process| !bypass@.contains(p.process_name@);
    let mut targets: Vec<u32> = Vec::new();
    let mut i: usize = 0;
    while i < procs.len()
        invariant
            i <= procs.len(),
            keep == (|p: Process| !bypass@.contains(p.process_name@)),
            targets@ == pick_ids(procs@.take(i as int), keep),
        decreases procs.len() - i,
    {
        if !should_bypass(bypass, procs[i].process_name.as_str()) {
            targets.push(procs[i].process_id);
        }
        assert(procs@.take(i + 1).drop_last() == procs@.take(i as int));
        i += 1;
    }
    assert(procs@.take(procs.len() as int) == procs@);
    Sweep::new(mode, targets)
}

/// Finds the first record with this id.
fn find_process_index(procs: &Vec<Process>, pid: u32) -> (r: Option<usize>)
    ensures
        match r {
            Some(i) => i < procs.len() && find_process(procs@, pid) == Some(procs@[i as int]),
            None => find_process(procs@, pid) is None,
        },
{
    let mut i: usize = 0;
    assert(procs@.skip(0) == procs@);
    while i < procs.len()
        invariant
            i <= procs.len(),
            find_process(procs@, pid) == find_process(procs@.skip(i as int), pid),
        decreases procs.len() - i,
    {
        if procs[i].process_id == pid {
            assert(procs@.skip(i as int)[0] == procs@[i as int]);
            return Some(i);
        }
        assert(procs@.skip(i as int).drop_first() == procs@.skip(i + 1));
        i += 1;
    }
    None
}

/// Plans a sweep over the tree of `main_pid`: nothing when the snapshot's
/// record of `main_pid` is exempt by the bypass policy, else one call with
/// `mode` for each member of the tree that is not exempt.
pub fn process_child_process(
    mode: PowerMode,
    main_pid: u32,
    procs: &Vec<Process>,
    bypass: &NameSet,
) -> (r: Sweep)
    ensures
        r.wf(),
        r.spec_mode() == mode,
        r.planned() == tree_targets(procs@, bypass@, main_pid),
        r.outcomes() == Seq::<bool>::empty(),
{
    if let Some(k) = find_process_index(procs, main_pid) {
        if should_bypass(bypass, procs[k].process_name.as_str()) {
            return Sweep::new(mode, Vec::new());
        }
    }
    let relations = ProcTree::new(procs);
    let ghost keep = |p: Process|
        in_tree(parent_links(procs@), None, main_pid, p.process_id) && !bypass@.contains(
            p.process_name@,
        );
    let mut targets: Vec<u32> = Vec::new();
    let mut i: usize = 0;
    while i < procs.len()
        invariant
            i <= procs.len(),
            relations@ == parent_links(procs@),
            relations.boundary_pid() is None,
            keep == (|p: Process|
                in_tree(parent_links(procs@), None, main_pid, p.process_id) && !bypass@.contains(
                    p.process_name@,
                )),
            targets@ == pick_ids(procs@.take(i as int), keep),
        decreases procs.len() - i,
    {
        if relations.is_in_tree(main_pid, procs[i].process_id) && !should_bypass(
            bypass,
            procs[i].process_name.as_str(),
        ) {
            targets.push(procs[i].process_id);
        }
        assert(procs@.take(i + 1).drop_last() == procs@.take(i as int));
        i += 1;
    }
    assert(procs@.take(procs.len() as int) == procs@);
    Sweep::new(mode, targets)
}

/// Every id that `pick_ids` gives is that of a selected record, and every
/// selected record's id is given.
proof fn lemma_pick_ids_members(procs: Seq<Process>, keep: spec_fn(Process) -> bool)
    ensures
        forall|x: u32|
            #[trigger] pick_ids(procs, keep).contains(x) ==> exists|i: int|
                0 <= i < procs.len() && procs[i].process_id == x && keep(#[trigger] procs[i]),
        forall|i: int|
            0 <= i < procs.len() && keep(#[trigger] procs[i]) ==> pick_ids(procs, keep).contains(
                procs[i].process_id,
            ),
    decreases procs.len(),
{
    if procs.len() > 0 {
        let init = procs.drop_last();
        lemma_pick_ids_members(init, keep);
        let rest = pick_ids(init, keep);
        assert forall|x: u32| #[trigger] pick_ids(procs, keep).contains(x) implies exists|i: int|
            0 <= i < procs.len() && procs[i].process_id == x && keep(#[trigger] procs[i]) by {
            if rest.contains(x) {
                let i = choose|i: int|
                    0 <= i < init.len() && init[i].process_id == x && keep(#[trigger] init[i]);
                assert(procs[i] == init[i]);
            } else {
                assert(procs[procs.len() - 1] == procs.last());
            }
        }
        assert forall|i: int|
            0 <= i < procs.len() && keep(#[trigger] procs[i]) implies pick_ids(
            procs,
            keep,
        ).contains(procs[i].process_id) by {
            if i < procs.len() - 1 {
                assert(init[i] == procs[i]);
                assert(rest.contains(procs[i].process_id));
                if keep(procs.last()) {
                    let j = choose|j: int| 0 <= j < rest.len() && rest[j] == procs[i].process_id;
                    assert(rest.push(procs.last().process_id)[j] == procs[i].process_id);
                }
            } else {
                let r = rest.push(procs.last().process_id);
                assert(r[r.len() - 1] == procs[i].process_id);
            }
        }
    }
}

/// With unique ids in the snapshot, `pick_ids` names no process twice.
proof fn lemma_pick_ids_no_duplicates(procs: Seq<Process>, keep: spec_fn(Process) -> bool)
    requires
        ids_unique(procs),
    ensures
        pick_ids(procs, keep).no_duplicates(),
    decreases procs.len(),
{
    if procs.len() > 0 {
        let init = procs.drop_last();
        assert(ids_unique(init)) by {
            assert forall|i: int, j: int|
                0 <= i < init.len() && 0 <= j < init.len() && i != j implies #[trigger] init[i].process_id
                != #[trigger] init[j].process_id by {
                assert(init[i] == procs[i]);
                assert(init[j] == procs[j]);
            }
        }
        lemma_pick_ids_no_duplicates(init, keep);
        lemma_pick_ids_members(init, keep);
        let rest = pick_ids(init, keep);
        if keep(procs.last()) {
            let x = procs.last().process_id;
            if rest.contains(x) {
                let i = choose|i: int|
                    0 <= i < init.len() && init[i].process_id == x && keep(#[trigger] init[i]);
                assert(procs[i] == init[i]);
                assert(procs[procs.len() - 1] == procs.last());
            }
            assert(rest.push(x).no_duplicates()) by {
                assert forall|a: int, b: int|
                    0 <= a < rest.len() + 1 && 0 <= b < rest.len() + 1 && a != b implies rest.push(
                    x,
                )[a] != rest.push(x)[b] by {
                    if a < rest.len() && b < rest.len() {
                    } else if a < rest.len() {
                        assert(rest.contains(rest[a]));
                    } else {
                        assert(rest.contains(rest[b]));
                    }
                }
            }
        }
    }
}

/// A successful call, among calls that name no process twice, leaves its
/// process in the sweep's mode, whatever the other calls reported.
proof fn lemma_modes_after_success(
    modes: Map<u32, PowerMode>,
    mode: PowerMode,
    calls: Seq<u32>,
    outcomes: Seq<bool>,
    i: int,
)
    requires
        calls.no_duplicates(),
        0 <= i < calls.len(),
        outcomes[i],
    ensures
        modes_after(modes, mode, calls, outcomes).contains_key(calls[i]),
        modes_after(modes, mode, calls, outcomes)[calls[i]] == mode,
    decreases calls.len(),
{
    if i < calls.len() - 1 {
        let init = calls.drop_last();
        assert(init[i] == calls[i]);
        lemma_modes_after_success(modes, mode, init, outcomes, i);
        assert(calls[calls.len() - 1] != calls[i]);
    }
}

/// A process that no call names keeps its mode.
proof fn lemma_modes_after_untouched(
    modes: Map<u32, PowerMode>,
    mode: PowerMode,
    calls: Seq<u32>,
    outcomes: Seq<bool>,
    x: u32,
)
    requires
        !calls.contains(x),
    ensures
        modes_after(modes, mode, calls, outcomes).contains_key(x) == modes.contains_key(x),
        modes_after(modes, mode, calls, outcomes)[x] == modes[x],
    decreases calls.len(),
{
    if calls.len() > 0 {
        let init = calls.drop_last();
        assert forall|k: int| 0 <= k < init.len() implies init[k] != x by {
            assert(init[k] == calls[k]);
        }
        lemma_modes_after_untouched(modes, mode, init, outcomes, x);
        assert(calls[calls.len() - 1] != x);
    }
}

/// No sweep ever calls a process that the bypass policy exempts: neither a
/// sweep over all processes nor one over any tree, so its mode stays as it
/// was whatever the outcomes.
pub proof fn lemma_bypassed_never_called(
    procs: Seq<Process>,
    bypass: Set<Seq<char>>,
    root: u32,
    k: int,
    modes: Map<u32, PowerMode>,
    mode: PowerMode,
    outcomes: Seq<bool>,
)
    requires
        ids_unique(procs),
        0 <= k < procs.len(),
        bypass.contains(procs[k].process_name@),
    ensures
        !all_targets(procs, bypass).contains(procs[k].process_id),
        !tree_targets(procs, bypass, root).contains(procs[k].process_id),
        modes_after(modes, mode, all_targets(procs, bypass), outcomes)[procs[k].process_id]
            == modes[procs[k].process_id],
        modes_after(modes, mode, tree_targets(procs, bypass, root), outcomes)[procs[k].process_id]
            == modes[procs[k].process_id],
{
    let x = procs[k].process_id;
    let keep_all = |p: Process| !bypass.contains(p.process_name@);
    let keep_tree = |p: Process|
        in_tree(parent_links(procs), None, root, p.process_id) && !bypass.contains(p.process_name@);
    lemma_pick_ids_members(procs, keep_all);
    lemma_pick_ids_members(procs, keep_tree);
    if all_targets(procs, bypass).contains(x) {
        let i = choose|i: int|
            0 <= i < procs.len() && procs[i].process_id == x && keep_all(#[trigger] procs[i]);
        assert(i != k);
    }
    if tree_members(procs, bypass, root).contains(x) {
        let i = choose|i: int|
            0 <= i < procs.len() && procs[i].process_id == x && keep_tree(#[trigger] procs[i]);
        assert(i != k);
    }
    lemma_modes_after_untouched(modes, mode, all_targets(procs, bypass), outcomes, x);
    lemma_modes_after_untouched(modes, mode, tree_targets(procs, bypass, root), outcomes, x);
}

/// After a sweep over all processes with `Recover` whose calls all succeed,
/// every process that the bypass policy does not exempt has no power hint,
/// whatever mode it had before.
pub proof fn lemma_recover_restores_all(
    procs: Seq<Process>,
    bypass: Set<Seq<char>>,
    modes: Map<u32, PowerMode>,
    outcomes: Seq<bool>,
)
    requires
        ids_unique(procs),
        outcomes.len() == all_targets(procs, bypass).len(),
        forall|i: int| 0 <= i < outcomes.len() ==> #[trigger] outcomes[i],
    ensures
        forall|k: int|
            0 <= k < procs.len() && !bypass.contains(#[trigger] procs[k].process_name@)
                ==> modes_after(
                modes,
                PowerMode::Recover,
                all_targets(procs, bypass),
                outcomes,
            )[procs[k].process_id] == PowerMode::Recover,
{
    let calls = all_targets(procs, bypass);
    let keep_all = |p: Process| !bypass.contains(p.process_name@);
    lemma_pick_ids_members(procs, keep_all);
    lemma_pick_ids_no_duplicates(procs, keep_all);
    assert forall|k: int|
        0 <= k < procs.len() && !bypass.contains(#[trigger] procs[k].process_name@) implies modes_after(
        modes,
        PowerMode::Recover,
        calls,
        outcomes,
    )[procs[k].process_id] == PowerMode::Recover by {
        assert(keep_all(procs[k]));
        assert(calls.contains(procs[k].process_id));
        let i = choose|i: int| 0 <= i < calls.len() && calls[i] == procs[k].process_id;
        lemma_modes_after_success(modes, PowerMode::Recover, calls, outcomes, i);
    }
}

/// A failed call in a sweep does not keep the other calls from taking
/// effect: with the failure at `k`, every other call that succeeded leaves its
/// process in the sweep's mode.
pub proof fn lemma_failure_isolated(
    modes: Map<u32, PowerMode>,
    mode: PowerMode,
    calls: Seq<u32>,
    outcomes: Seq<bool>,
    k: int,
)
    requires
        calls.no_duplicates(),
        outcomes.len() == calls.len(),
        0 <= k < calls.len(),
        !outcomes[k],
    ensures
        forall|i: int|
            0 <= i < calls.len() && i != k && #[trigger] outcomes[i] ==> modes_after(
                modes,
                mode,
                calls,
                outcomes,
            )[calls[i]] == mode,
{
    assert forall|i: int| 0 <= i < calls.len() && i != k && #[trigger] outcomes[i] implies modes_after(
        modes,
        mode,
        calls,
        outcomes,
    )[calls[i]] == mode by {
        lemma_modes_after_success(modes, mode, calls, outcomes, i);
    }
}

/// With unique ids in the snapshot, no sweep plans two calls for one process.
pub proof fn lemma_targets_distinct(procs: Seq<Process>, bypass: Set<Seq<char>>, root: u32)
    requires
        ids_unique(procs),
    ensures
        all_targets(procs, bypass).no_duplicates(),
        tree_targets(procs, bypass, root).no_duplicates(),
{
    lemma_pick_ids_no_duplicates(procs, |p: Process| !bypass.contains(p.process_name@));
    lemma_pick_ids_no_duplicates(
        procs,
        |p: Process|
            in_tree(parent_links(procs), None, root, p.process_id) && !bypass.contains(
                p.process_name@,
            ),
    );
}

} // verus!
