use vstd::prelude::*;

verus! {

/// What one accepted foreground change asks for: throttle the tree of the
/// previous foreground process (unless that step is suppressed), then boost
/// the tree of the new one, in that order.
#[derive(Clone, Copy, Debug, PartialEq, Eq, Structural)]
pub struct Transition {
    pub throttle: Option<u32>,
    pub boost: u32,
}

/// The transition that a notification for `pid` causes when `last` is the
/// tracked foreground process and `busy` tells whether a fullscreen or
/// do-not-disturb state is active: none for a repeat of the tracked process.
pub open spec fn transition_for(last: Option<u32>, pid: u32, busy: bool) -> Option<Transition> {
    match last {
        Some(prev) => if prev == pid {
            None
        } else if busy {
            Some(Transition { throttle: None, boost: pid })
        } else {
            Some(Transition { throttle: Some(prev), boost: pid })
        },
        None => Some(Transition { throttle: None, boost: pid }),
    }
}

/// Tracks the foreground process across a stream of foreground-change
/// notifications, which may repeat the same process many times.
///
/// The state is `Idle` (no process tracked yet) or the tracked process.
pub struct ForegroundTracker {
    last_pid: Option<u32>,
}

impl ForegroundTracker {
    /// The tracked foreground process, `None` while idle.
    pub closed spec fn current(&self) -> Option<u32> {
        self.last_pid
    }

    /// An idle tracker.
    pub fn new() -> (r: ForegroundTracker)
        ensures
            r.current() is None,
    {
        ForegroundTracker { last_pid: None }
    }

    /// The tracked foreground process.
    pub fn last_pid(&self) -> (r: Option<u32>)
        ensures
            r == self.current(),
    {
        self.last_pid
    }

    /// Whether the fullscreen state decides what a notification for `pid`
    /// does: only when another process is tracked, whose tree would be
    /// throttled.
    pub fn needs_busy_query(&self, pid: u32) -> (r: bool)
        ensures
            r == (self.current() is Some && self.current() != Some(pid)),
    {
        match self.last_pid {
            Some(prev) => prev != pid,
            None => false,
        }
    }

    /// Handles one notification for `pid`.
    ///
    /// A repeat of the tracked process does nothing. Otherwise the new process
    /// is tracked and its tree is to be boosted, after the previous one's tree
    /// is throttled, a step that `busy` (fullscreen or do-not-disturb)
    /// suppresses.
    pub fn on_foreground(&mut self, pid: u32, busy: bool) -> (r: Option<Transition>)
        ensures
            r == transition_for(old(self).current(), pid, busy),
            final(self).current() == Some(pid),
    {
        match self.last_pid {
            Some(prev) => {
                if prev == pid {
                    return None;
                }
                self.last_pid = Some(pid);
                if busy {
                    Some(Transition { throttle: None, boost: pid })
                } else {
                    Some(Transition { throttle: Some(prev), boost: pid })
                }
            },
            None => {
                self.last_pid = Some(pid);
                Some(Transition { throttle: None, boost: pid })
            },
        }
    }
}

/// The number of transitions that a run of notifications enacts from the
/// tracked state `last`, the `i`-th notification seeing `busy[i]`.
pub open spec fn transitions_enacted(last: Option<u32>, pids: Seq<u32>, busy: Seq<bool>) -> nat
    decreases pids.len(),
{
    if pids.len() == 0 {
        0
    } else {
        let rest = transitions_enacted(Some(pids[0]), pids.drop_first(), busy.drop_first());
        if transition_for(last, pids[0], busy[0]) is Some {
            rest + 1
        } else {
            rest
        }
    }
}

/// The number of positions where a run of notifications names a process
/// other than the one before it (the first counting when nothing is tracked
/// or another process is).
pub open spec fn changes(last: Option<u32>, pids: Seq<u32>) -> nat
    decreases pids.len(),
{
    if pids.len() == 0 {
        0
    } else {
        let rest = changes(Some(pids[0]), pids.drop_first());
        if last == Some(pids[0]) {
            rest
        } else {
            rest + 1
        }
    }
}

/// Debounce: a run of notifications enacts one transition for each change of
/// process and none for a repeat, whatever the fullscreen state.
pub proof fn lemma_debounce(last: Option<u32>, pids: Seq<u32>, busy: Seq<bool>)
    ensures
        transitions_enacted(last, pids, busy) == changes(last, pids),
    decreases pids.len(),
{
    if pids.len() > 0 {
        lemma_debounce(Some(pids[0]), pids.drop_first(), busy.drop_first());
    }
}

/// Whether a process image name is the host that frames UWP applications,
/// whose foreground windows belong to the hosted application instead.
pub fn is_frame_host(name: &str) -> (r: bool)
    ensures
        r == (name@ == "ApplicationFrameHost.exe"@),
{
    let host = "ApplicationFrameHost.exe".to_owned();
    name.to_owned() == host
}

/// The process that really owns a UWP host's window: of the owners of its
/// child windows, in enumeration order, the last one that is not the host
/// itself; zero when there is none.
pub fn try_find_uwp_process(process_id: u32, child_owners: &Vec<u32>) -> (r: u32)
    ensures
        r == uwp_owner(process_id, child_owners@),
{
    let mut found: u32 = 0;
    let mut i: usize = 0;
    while i < child_owners.len()
        invariant
            i <= child_owners.len(),
            found == uwp_owner(process_id, child_owners@.take(i as int)),
        decreases child_owners.len() - i,
    {
        if child_owners[i] != process_id {
            found = child_owners[i];
        }
        assert(child_owners@.take(i + 1).drop_last() == child_owners@.take(i as int));
        i += 1;
    }
    assert(child_owners@.take(child_owners.len() as int) == child_owners@);
    found
}

/// The last owner in `owners` other than `host`, or zero.
pub open spec fn uwp_owner(host: u32, owners: Seq<u32>) -> u32
    decreases owners.len(),
{
    if owners.len() == 0 {
        0
    } else if owners.last() != host {
        owners.last()
    } else {
        uwp_owner(host, owners.drop_last())
    }
}

/// The process that a foreground notification for `process_id` stands for:
/// for the UWP host, the application found among the owners of its child
/// windows, if any; otherwise `process_id` itself.
pub fn resolve_foreground(process_id: u32, is_host: bool, child_owners: &Vec<u32>) -> (r: u32)
    ensures
        r == if is_host && uwp_owner(process_id, child_owners@) != 0 {
            uwp_owner(process_id, child_owners@)
        } else {
            process_id
        },
{
    if is_host {
        let real_pid = try_find_uwp_process(process_id, child_owners);
        if real_pid != 0 {
            return real_pid;
        }
    }
    process_id
}

} // verus!
