use vstd::prelude::*;

verus! {

/// Settings of the foreground tracker.
#[derive(Clone, Copy, Debug, PartialEq, Eq, Structural)]
pub struct ListenForegroundEvents {
    /// Listen to foreground window changes.
    pub enabled: bool,
}

impl Default for ListenForegroundEvents {
    fn default() -> (r: ListenForegroundEvents)
        ensures
            r.enabled,
    {
        ListenForegroundEvents { enabled: true }
    }
}

/// How the new-process filter picks the processes it throttles.
#[derive(Clone, Copy, Debug, PartialEq, Eq, Structural)]
pub enum ListenNewProcessMode {
    /// Throttle every new process, except those the bypass policy exempts
    /// and those in the foreground process's tree.
    Normal,
    /// Throttle only new processes whose name is in the blacklist.
    BlacklistOnly,
}

impl Default for ListenNewProcessMode {
    fn default() -> (r: ListenNewProcessMode)
        ensures
            r == ListenNewProcessMode::Normal,
    {
        ListenNewProcessMode::Normal
    }
}

/// Settings of the new-process filter.
#[derive(Clone, Debug)]
pub struct ListenNewProcess {
    /// Listen to process creation.
    pub enabled: bool,
    pub mode: ListenNewProcessMode,
    /// The names that `BlacklistOnly` throttles.
    pub blacklist: Vec<String>,
}

impl Default for ListenNewProcess {
    fn default() -> (r: ListenNewProcess)
        ensures
            r.enabled,
            r.mode == ListenNewProcessMode::Normal,
            r.blacklist@.len() == 0,
    {
        ListenNewProcess {
            enabled: true,
            mode: ListenNewProcessMode::default(),
            blacklist: Vec::new(),
        }
    }
}

/// The governor's settings, as loaded from the configuration file.
#[derive(Clone, Debug)]
pub struct Config {
    /// Register the governor to start at logon.
    pub autostart_on_boot: bool,
    pub listen_new_process: ListenNewProcess,
    pub listen_foreground_events: ListenForegroundEvents,
    /// Throttle every process once at startup.
    pub throttle_all_startup: bool,
    /// Ask for the debug privilege, to reach processes of the system account.
    pub system_process: bool,
    /// The names of the bypass policy: processes that are never touched.
    pub whitelist: Vec<String>,
}

/// The bypass policy of a fresh configuration: the governor itself, the
/// shell, input methods, the UWP host, and the system's own processes.
pub open spec fn default_whitelist() -> Seq<Seq<char>> {
    seq![
        "RustyStar.exe"@,
        "explorer.exe"@,
        "dwm.exe"@,
        "csrss.exe"@,
        "svchost.exe"@,
        "Taskmgr.exe"@,
        "smss.exe"@,
        "ChsIME.exe"@,
        "ctfmon.exe"@,
        "WUDFRd.exe"@,
        "WUDFHost.exe"@,
        "msedge.exe"@,
        "ApplicationFrameHost.exe"@,
        "[System Process]"@,
        "System"@,
        "Registry"@,
        "wininit.exe"@,
        "services.exe"@,
        "lsass.exe"@,
        "SecurityHealthService.exe"@,
    ]
}

impl Default for Config {
    fn default() -> (r: Config)
        ensures
            !r.autostart_on_boot,
            r.listen_new_process.enabled,
            r.listen_new_process.mode == ListenNewProcessMode::Normal,
            r.listen_new_process.blacklist@.len() == 0,
            r.listen_foreground_events.enabled,
            r.throttle_all_startup,
            r.system_process,
            r.whitelist@.len() == default_whitelist().len(),
            forall|i: int|
                0 <= i < r.whitelist@.len() ==> #[trigger] r.whitelist@[i]@ == default_whitelist()[i],
    {
        let whitelist = vec![
            // the governor itself
            "RustyStar.exe".to_owned(),
            // the shell
            "explorer.exe".to_owned(),
            // the desktop window manager
            "dwm.exe".to_owned(),
            // the client/server runtime subsystem
            "csrss.exe".to_owned(),
            // the service host
            "svchost.exe".to_owned(),
            // the task manager
            "Taskmgr.exe".to_owned(),
            // the session manager subsystem
            "smss.exe".to_owned(),
            // the Chinese input method
            "ChsIME.exe".to_owned(),
            // speech, on-screen keyboard and handwriting input
            "ctfmon.exe".to_owned(),
            // the user-mode driver framework
            "WUDFRd.exe".to_owned(),
            "WUDFHost.exe".to_owned(),
            // Edge manages its own power use
            "msedge.exe".to_owned(),
            // the UWP host, resolved to the hosted application instead
            "ApplicationFrameHost.exe".to_owned(),
            // the system itself
            "[System Process]".to_owned(),
            "System".to_owned(),
            "Registry".to_owned(),
            // the parent of services.exe
            "wininit.exe".to_owned(),
            // the parent of svchost.exe and WUDFHost.exe
            "services.exe".to_owned(),
            // the local security authority
            "lsass.exe".to_owned(),
            // the security center's health service
            "SecurityHealthService.exe".to_owned(),
        ];
        Config {
            autostart_on_boot: false,
            listen_new_process: ListenNewProcess::default(),
            listen_foreground_events: ListenForegroundEvents::default(),
            throttle_all_startup: true,
            system_process: true,
            whitelist,
        }
    }
}

} // verus!
