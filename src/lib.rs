//! A foreground-scoped process power governor.
//!
//! The library holds the decisions: which processes belong to the tree of a
//! root process, which of them a sweep touches, how a stream of foreground
//! notifications becomes throttle and boost transitions, and whether a newly
//! created process is throttled at once. Reading the process table and setting
//! a process's power mode are left to the caller, which hands the library plain
//! values and performs the calls that the library plans.

pub mod snapshot;
pub mod proc_tree;
pub mod bypass;
pub mod power;
pub mod foreground;
pub mod config;
pub mod admission;
pub mod text;
pub mod platform;

pub use snapshot::{Process, ProcessInfo};
pub use proc_tree::ProcTree;
pub use bypass::{should_bypass, whitelisted, NameSet};
pub use power::{process_child_process, toggle_all, PowerMode, Sweep};
pub use foreground::{
    is_frame_host, resolve_foreground, try_find_uwp_process, ForegroundTracker, Transition,
};
pub use config::{Config, ListenForegroundEvents, ListenNewProcess, ListenNewProcessMode};
pub use admission::{needs_snapshot, should_throttle_new_process};
pub use text::{encode_path, fold_doc};
pub use platform::{os_support, OsSupport, FIRST_ECOQOS_BUILD, FULL_ECOQOS_BUILD};
