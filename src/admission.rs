use vstd::prelude::*;

use crate::bypass::NameSet;
use crate::config::ListenNewProcessMode;
use crate::proc_tree::{in_tree, ProcTree};

verus! {

/// Whether a newly created process is throttled at once.
///
/// In `Normal` mode every new process is, unless the bypass policy exempts
/// its name, or a foreground process is published (non-zero) and the snapshot
/// taken for the decision (`links`, absent when it could not be read) puts the
/// new process in the foreground process's tree (`links` holds its parent links
/// and its boundary). In `BlacklistOnly` mode only a process whose name is in
/// the blacklist is.
pub open spec fn throttles_new_process(
    mode: ListenNewProcessMode,
    whitelist: Set<Seq<char>>,
    blacklist: Set<Seq<char>>,
    process_id: u32,
    name: Seq<char>,
    foreground: u32,
    links: Option<(Map<u32, u32>, Option<u32>)>,
) -> bool {
    match mode {
        ListenNewProcessMode::Normal => {
            &&& !whitelist.contains(name)
            &&& !(foreground != 0 && match links {
                Some((l, wall)) => in_tree(l, wall, foreground, process_id),
                None => false,
            })
        },
        ListenNewProcessMode::BlacklistOnly => blacklist.contains(name),
    }
}

/// The parent links and the boundary of a snapshot, if one was read.
pub open spec fn links_of(tree: Option<&ProcTree>) -> Option<(Map<u32, u32>, Option<u32>)> {
    match tree {
        Some(t) => Some((t@, t.boundary_pid())),
        None => None,
    }
}

/// Whether deciding on a new process needs a snapshot of the process table:
/// only in `Normal` mode, for a name that is not exempt, while a foreground
/// process is published.
pub fn needs_snapshot(
    mode: ListenNewProcessMode,
    whitelist: &NameSet,
    name: &str,
    foreground: u32,
) -> (r: bool)
    ensures
        r == (mode == ListenNewProcessMode::Normal && !whitelist@.contains(name@) && foreground
            != 0),
{
    match mode {
        ListenNewProcessMode::Normal => !whitelist.contains(name) && foreground != 0,
        ListenNewProcessMode::BlacklistOnly => false,
    }
}

/// Decides whether a newly created process is throttled at once; `tree` is
/// the snapshot taken when `needs_snapshot` asked for one, if it could be read.
pub fn should_throttle_new_process(
    mode: ListenNewProcessMode,
    whitelist: &NameSet,
    blacklist: &NameSet,
    process_id: u32,
    name: &str,
    foreground: u32,
    tree: Option<&ProcTree>,
) -> (r: bool)
    ensures
        r == throttles_new_process(
            mode,
            whitelist@,
            blacklist@,
            process_id,
            name@,
            foreground,
            links_of(tree),
        ),
{
    match mode {
        ListenNewProcessMode::Normal => {
            if whitelist.contains(name) {
                return false;
            }
            if foreground != 0 {
                if let Some(t) = tree {
                    if t.is_in_tree(foreground, process_id) {
                        return false;
                    }
                }
            }
            true
        },
        ListenNewProcessMode::BlacklistOnly => blacklist.contains(name),
    }
}

/// In `Normal` mode, a new process whose parent is the published foreground
/// process is not throttled, while one outside the foreground tree is, and so
/// is any process when no snapshot could be read; a name that the bypass
/// policy exempts is never throttled.
pub proof fn lemma_normal_admission(
    whitelist: Set<Seq<char>>,
    blacklist: Set<Seq<char>>,
    process_id: u32,
    name: Seq<char>,
    foreground: u32,
    links: Map<u32, u32>,
    wall: Option<u32>,
)
    requires
        foreground != 0,
    ensures
        links.contains_key(process_id) && links[process_id] == foreground ==> !throttles_new_process(
            ListenNewProcessMode::Normal,
            whitelist,
            blacklist,
            process_id,
            name,
            foreground,
            Some((links, wall)),
        ),
        !whitelist.contains(name) && !in_tree(links, wall, foreground, process_id)
            ==> throttles_new_process(
            ListenNewProcessMode::Normal,
            whitelist,
            blacklist,
            process_id,
            name,
            foreground,
            Some((links, wall)),
        ),
        !whitelist.contains(name) ==> throttles_new_process(
            ListenNewProcessMode::Normal,
            whitelist,
            blacklist,
            process_id,
            name,
            foreground,
            None,
        ),
        whitelist.contains(name) ==> !throttles_new_process(
            ListenNewProcessMode::Normal,
            whitelist,
            blacklist,
            process_id,
            name,
            foreground,
            Some((links, wall)),
        ),
{
    if links.contains_key(process_id) && links[process_id] == foreground {
        assert(crate::proc_tree::ancestor(links, process_id, 0) == Some(process_id));
        assert(crate::proc_tree::ancestor(links, process_id, 1) == Some(foreground));
    }
}

} // verus!
