use std::collections::HashMap;

use rustystar::{
    encode_path, fold_doc, is_frame_host, needs_snapshot, os_support, process_child_process,
    resolve_foreground, should_bypass, should_throttle_new_process, toggle_all,
    try_find_uwp_process, whitelisted, Config, ForegroundTracker, ListenForegroundEvents,
    ListenNewProcess, ListenNewProcessMode, NameSet, OsSupport, PowerMode, ProcTree, Process,
    ProcessInfo, Sweep, Transition,
};

fn proc(id: u32, parent: u32, name: &str) -> Process {
    Process::new(id, parent, name.to_string())
}

fn names(list: &[&str]) -> NameSet {
    NameSet::from_names(&list.iter().map(|s| s.to_string()).collect())
}

/// Runs a sweep, reporting a failure for each process in `failing`, and
/// returns the calls that were made.
fn drive(sweep: &mut Sweep, failing: &[u32]) -> Vec<u32> {
    let mut calls = Vec::new();
    while let Some(pid) = sweep.next_call() {
        calls.push(pid);
        sweep.record(!failing.contains(&pid));
    }
    calls
}

#[test]
fn process_info_reads_the_record() {
    let p = proc(12, 4, "a.exe");
    assert_eq!(p.pid(), 12);
    assert_eq!(p.parent_pid(), 4);
}

#[test]
fn every_process_is_in_its_own_tree() {
    let tree = ProcTree::new(&vec![proc(1, 0, "a"), proc(2, 1, "b")]);
    assert!(tree.is_in_tree(2, 2));
    assert!(tree.is_in_tree(77, 77));
    assert!(tree.is_in_tree(0, 0));
}

#[test]
fn chain_membership_is_not_symmetric() {
    // 10 -> 20 -> 30 -> 0
    let tree = ProcTree::new(&vec![proc(10, 20, "p"), proc(20, 30, "q"), proc(30, 0, "r")]);
    assert!(tree.is_in_tree(30, 10));
    assert!(tree.is_in_tree(20, 10));
    assert!(tree.is_in_tree(30, 20));
    assert!(!tree.is_in_tree(10, 30));
    assert!(!tree.is_in_tree(10, 20));
}

#[test]
fn cycle_ends_the_walk_with_false() {
    // 1 -> 2 -> 3 -> 1, and 9 stands outside the cycle
    let tree = ProcTree::new(&vec![
        proc(1, 2, "a"),
        proc(2, 3, "b"),
        proc(3, 1, "c"),
        proc(9, 0, "root"),
    ]);
    for pid in [1, 2, 3] {
        assert!(!tree.is_in_tree(9, pid));
    }
    // a member of the cycle is still in the tree of another member
    assert!(tree.is_in_tree(3, 1));
}

#[test]
fn self_parent_is_a_cycle() {
    let tree = ProcTree::new(&vec![proc(5, 5, "loop"), proc(6, 5, "child")]);
    assert!(!tree.is_in_tree(1, 5));
    assert!(!tree.is_in_tree(1, 6));
    assert!(tree.is_in_tree(5, 6));
}

#[test]
fn unknown_parent_and_zero_root_end_the_walk() {
    let tree = ProcTree::new(&vec![proc(2, 99, "orphan"), proc(3, 0, "top")]);
    assert!(tree.is_in_tree(99, 2));
    assert!(!tree.is_in_tree(1, 2));
    assert!(!tree.is_in_tree(0, 3));
    assert!(!tree.is_in_tree(3, 42));
}

#[test]
fn later_record_takes_the_place_of_an_earlier_one() {
    let tree = ProcTree::new(&vec![proc(2, 1, "old"), proc(2, 7, "new")]);
    assert!(tree.is_in_tree(7, 2));
    assert!(!tree.is_in_tree(1, 2));
}

#[test]
fn boundary_keeps_the_walk_below_it() {
    // 4 -> 600 -> 700, and 600 is the boundary
    let procs = vec![proc(4, 0, "wininit.exe"), proc(600, 4, "services.exe"), proc(700, 600, "svchost.exe")];
    let walled = ProcTree::with_boundary(&procs, 600);
    assert!(!walled.is_in_tree(4, 700));
    assert!(walled.is_in_tree(600, 700));
    assert!(walled.is_in_tree(4, 600));
    assert!(walled.is_in_tree(700, 700));
    let plain = ProcTree::new(&procs);
    assert!(plain.is_in_tree(4, 700));
}

#[test]
fn name_set_matches_exact_names() {
    let mut set = NameSet::new();
    assert!(!set.contains("a.exe"));
    set.insert("a.exe".to_string());
    assert!(set.contains("a.exe"));
    assert!(!set.contains("A.exe"));
    assert!(!set.contains("a.ex"));
    let set = names(&["x.exe", "y.exe"]);
    assert!(should_bypass(&set, "y.exe"));
    assert!(whitelisted(&set, "x.exe"));
    assert!(!should_bypass(&set, "z.exe"));
}

#[test]
fn power_mode_matches_the_enable_flag() {
    assert_eq!(PowerMode::from_enable(Some(true)), PowerMode::Throttle);
    assert_eq!(PowerMode::from_enable(Some(false)), PowerMode::Boost);
    assert_eq!(PowerMode::from_enable(None), PowerMode::Recover);
    assert_eq!(PowerMode::Throttle.enable(), Some(true));
    assert_eq!(PowerMode::Boost.enable(), Some(false));
    assert_eq!(PowerMode::Recover.enable(), None);
}

fn snapshot() -> Vec<Process> {
    vec![
        proc(4, 0, "System"),
        proc(100, 4, "explorer.exe"),
        proc(200, 100, "app.exe"),
        proc(201, 200, "helper.exe"),
        proc(202, 200, "svchost.exe"),
        proc(300, 100, "other.exe"),
    ]
}

#[test]
fn toggle_all_skips_bypassed_processes() {
    let bypass = names(&["System", "explorer.exe", "svchost.exe"]);
    let sweep = toggle_all(PowerMode::Throttle, &snapshot(), &bypass);
    assert_eq!(sweep.mode(), PowerMode::Throttle);
    assert_eq!(sweep.targets(), &vec![200, 201, 300]);
}

#[test]
fn tree_sweep_covers_the_tree_but_not_bypassed_members() {
    let bypass = names(&["svchost.exe"]);
    let sweep = process_child_process(PowerMode::Boost, 200, &snapshot(), &bypass);
    assert_eq!(sweep.mode(), PowerMode::Boost);
    assert_eq!(sweep.targets(), &vec![200, 201]);
}

#[test]
fn tree_sweep_of_a_bypassed_root_does_nothing() {
    let bypass = names(&["explorer.exe"]);
    let mut sweep = process_child_process(PowerMode::Throttle, 100, &snapshot(), &bypass);
    assert!(sweep.targets().is_empty());
    assert!(sweep.is_done());
    assert_eq!(drive(&mut sweep, &[]), Vec::<u32>::new());
}

#[test]
fn tree_sweep_of_an_unknown_root_touches_its_known_children() {
    let procs = vec![proc(5, 50, "child.exe"), proc(6, 0, "x.exe")];
    let sweep = process_child_process(PowerMode::Throttle, 50, &procs, &NameSet::new());
    assert_eq!(sweep.targets(), &vec![5]);
}

#[test]
fn one_failure_does_not_stop_the_sweep() {
    let procs: Vec<Process> = (1..=5).map(|i| proc(i, 0, "p.exe")).collect();
    let mut sweep = toggle_all(PowerMode::Throttle, &procs, &NameSet::new());
    let calls = drive(&mut sweep, &[2]);
    assert_eq!(calls, vec![1, 2, 3, 4, 5]);
    assert!(sweep.is_done());
    assert_eq!(sweep.next_call(), None);
    assert_eq!(sweep.failed(), vec![2]);
}

#[test]
fn every_call_can_fail_and_all_are_still_made() {
    let procs: Vec<Process> = (1..=3).map(|i| proc(i, 0, "p.exe")).collect();
    let mut sweep = toggle_all(PowerMode::Boost, &procs, &NameSet::new());
    assert_eq!(drive(&mut sweep, &[1, 2, 3]), vec![1, 2, 3]);
    assert_eq!(sweep.failed(), vec![1, 2, 3]);
}

#[test]
fn recover_sweep_unsets_every_non_bypassed_process() {
    let procs = snapshot();
    let bypass = names(&["System", "svchost.exe"]);
    let mut modes: HashMap<u32, PowerMode> = HashMap::new();
    for p in &procs {
        modes.insert(p.process_id, if p.process_id % 2 == 0 { PowerMode::Throttle } else { PowerMode::Boost });
    }
    let mut sweep = toggle_all(PowerMode::Recover, &procs, &bypass);
    while let Some(pid) = sweep.next_call() {
        modes.insert(pid, sweep.mode());
        sweep.record(true);
    }
    for p in &procs {
        if bypass.contains(&p.process_name) {
            assert_eq!(modes[&p.process_id], PowerMode::Throttle);
        } else {
            assert_eq!(modes[&p.process_id], PowerMode::Recover);
        }
    }
}

#[test]
fn debounce_enacts_one_transition_per_change() {
    let mut tracker = ForegroundTracker::new();
    let mut enacted = Vec::new();
    for pid in [5, 5, 5, 7, 7, 5] {
        if let Some(t) = tracker.on_foreground(pid, false) {
            enacted.push(t);
        }
    }
    assert_eq!(
        enacted,
        vec![
            Transition { throttle: None, boost: 5 },
            Transition { throttle: Some(5), boost: 7 },
            Transition { throttle: Some(7), boost: 5 },
        ]
    );
    assert_eq!(tracker.last_pid(), Some(5));
}

#[test]
fn fullscreen_suppresses_only_the_throttle_step() {
    let mut tracker = ForegroundTracker::new();
    assert!(!tracker.needs_busy_query(5));
    assert_eq!(tracker.on_foreground(5, true), Some(Transition { throttle: None, boost: 5 }));
    assert!(!tracker.needs_busy_query(5));
    assert!(tracker.needs_busy_query(7));
    assert_eq!(tracker.on_foreground(7, true), Some(Transition { throttle: None, boost: 7 }));
    assert_eq!(tracker.last_pid(), Some(7));
    assert_eq!(tracker.on_foreground(7, false), None);
    assert_eq!(tracker.on_foreground(8, false), Some(Transition { throttle: Some(7), boost: 8 }));
}

#[test]
fn uwp_host_resolves_to_the_last_foreign_child_owner() {
    assert!(is_frame_host("ApplicationFrameHost.exe"));
    assert!(!is_frame_host("applicationframehost.exe"));
    assert!(!is_frame_host("app.exe"));
    assert_eq!(try_find_uwp_process(10, &vec![10, 33, 10, 44, 10]), 44);
    assert_eq!(try_find_uwp_process(10, &vec![10, 10]), 0);
    assert_eq!(try_find_uwp_process(10, &vec![]), 0);
    assert_eq!(resolve_foreground(10, true, &vec![10, 33]), 33);
    assert_eq!(resolve_foreground(10, true, &vec![10]), 10);
    assert_eq!(resolve_foreground(10, false, &vec![33]), 10);
}

#[test]
fn normal_admission_spares_the_foreground_tree() {
    let whitelist = names(&["svchost.exe"]);
    let blacklist = NameSet::new();
    let procs = vec![proc(500, 0, "game.exe"), proc(501, 500, "child.exe"), proc(600, 0, "new.exe")];
    let tree = ProcTree::new(&procs);
    let normal = ListenNewProcessMode::Normal;
    assert!(needs_snapshot(normal, &whitelist, "child.exe", 500));
    assert!(!should_throttle_new_process(normal, &whitelist, &blacklist, 501, "child.exe", 500, Some(&tree)));
    assert!(should_throttle_new_process(normal, &whitelist, &blacklist, 600, "new.exe", 500, Some(&tree)));
    // no snapshot could be read: the new process is throttled
    assert!(should_throttle_new_process(normal, &whitelist, &blacklist, 501, "child.exe", 500, None));
    // no foreground process published yet
    assert!(!needs_snapshot(normal, &whitelist, "child.exe", 0));
    assert!(should_throttle_new_process(normal, &whitelist, &blacklist, 501, "child.exe", 0, Some(&tree)));
    // bypassed names are never throttled and need no snapshot
    assert!(!needs_snapshot(normal, &whitelist, "svchost.exe", 500));
    assert!(!should_throttle_new_process(normal, &whitelist, &blacklist, 600, "svchost.exe", 500, Some(&tree)));
}

#[test]
fn blacklist_only_admission_throttles_listed_names() {
    let whitelist = names(&["both.exe"]);
    let blacklist = names(&["bad.exe", "both.exe"]);
    let mode = ListenNewProcessMode::BlacklistOnly;
    assert!(!needs_snapshot(mode, &whitelist, "bad.exe", 500));
    assert!(should_throttle_new_process(mode, &whitelist, &blacklist, 1, "bad.exe", 500, None));
    assert!(!should_throttle_new_process(mode, &whitelist, &blacklist, 1, "good.exe", 0, None));
    assert!(should_throttle_new_process(mode, &whitelist, &blacklist, 1, "both.exe", 0, None));
}

#[test]
fn default_configuration() {
    let config = Config::default();
    assert!(!config.autostart_on_boot);
    assert!(config.throttle_all_startup);
    assert!(config.system_process);
    assert!(config.listen_new_process.enabled);
    assert_eq!(config.listen_new_process.mode, ListenNewProcessMode::Normal);
    assert!(config.listen_new_process.blacklist.is_empty());
    assert!(config.listen_foreground_events.enabled);
    assert_eq!(config.whitelist.len(), 20);
    assert_eq!(config.whitelist[0], "RustyStar.exe");
    assert_eq!(config.whitelist[12], "ApplicationFrameHost.exe");
    assert_eq!(config.whitelist[19], "SecurityHealthService.exe");
    assert!(ListenForegroundEvents::default().enabled);
    assert_eq!(ListenNewProcess::default().mode, ListenNewProcessMode::Normal);
    assert_eq!(ListenNewProcessMode::default(), ListenNewProcessMode::Normal);
}

#[test]
fn fold_doc_turns_lines_into_comments() {
    assert_eq!(fold_doc("listen foreground window change events"), "\n# listen foreground window change events");
    assert_eq!(
        fold_doc("blacklist_only: only throttle blacklisted\n   normal: throttle all new process  "),
        "\n# blacklist_only: only throttle blacklisted\n# normal: throttle all new process"
    );
    assert_eq!(fold_doc(" a \r\n\n  \n\tb\n"), "\n# a\n# b");
    assert_eq!(fold_doc(""), "");
    assert_eq!(fold_doc("\n \n"), "");
    assert_eq!(fold_doc("\u{3000}wide\u{a0}"), "\n# wide");
}

#[test]
fn encode_path_is_zero_terminated_utf16() {
    assert_eq!(encode_path(""), vec![0]);
    assert_eq!(encode_path("C:\\a"), vec![0x43, 0x3A, 0x5C, 0x61, 0]);
    assert_eq!(encode_path("é"), vec![0xE9, 0]);
    assert_eq!(encode_path("\u{1F600}"), vec![0xD83D, 0xDE00, 0]);
    let s = "x\u{10FFFF}y";
    let expected: Vec<u16> = s.encode_utf16().chain(std::iter::once(0)).collect();
    assert_eq!(encode_path(s), expected);
}

#[test]
fn os_support_by_build() {
    assert_eq!(os_support(0), OsSupport::Unsupported);
    assert_eq!(os_support(21358), OsSupport::Unsupported);
    assert_eq!(os_support(21359), OsSupport::Limited);
    assert_eq!(os_support(22620), OsSupport::Limited);
    assert_eq!(os_support(22621), OsSupport::Full);
    assert_eq!(os_support(u32::MAX), OsSupport::Full);
}
