//! The data that every template sees besides the user's own values.
use vstd::prelude::*;

verus! {

/// The values that every template sees besides the user's own.
pub struct ContextData {
    pub dirs: ContextDirs,
    pub system: SystemData,
    pub flags: Flags,
}

/// What is known of the machine.
pub struct SystemData {
    pub os: String,
    pub family: String,
    pub os_release: String,
    pub arch: String,
    pub hostname: String,
    pub cpu_num: u32,
}

/// The directories that templates can refer to.
pub struct ContextDirs {
    pub home: String,
    pub config: String,
    pub data: String,
    pub global_config: String,
    pub global_data: String,
}

/// Which kind of platform the program was built for.
pub struct Flags {
    pub windows: bool,
    pub unix: bool,
    pub linux: bool,
    pub macos: bool,
}

pub open spec fn or_else(found: Option<String>, fallback: Seq<char>) -> Seq<char> {
    match found {
        Some(s) => s@,
        None => fallback,
    }
}

impl ContextDirs {
    /// The directories from what the platform reports: each one not found
    /// falls back to its conventional place under `~`, and the global ones
    /// depend on whether the platform is Windows.
    pub fn resolve(home: Option<String>, config: Option<String>, data: Option<String>, windows: bool) -> (r: ContextDirs)
        ensures
            r.home@ == or_else(home, "~"@),
            r.config@ == or_else(config, "~/.config"@),
            r.data@ == or_else(data, "~/.local/share"@),
            r.global_config@ == (if windows { "~/AppData/Roaming"@ } else { "/etc"@ }),
            r.global_data@ == (if windows { "~/AppData/Local"@ } else { "/usr/share"@ }),
    {
        ContextDirs {
            home: match home {
                Some(h) => h,
                None => "~".to_owned(),
            },
            config: match config {
                Some(c) => c,
                None => "~/.config".to_owned(),
            },
            data: match data {
                Some(d) => d,
                None => "~/.local/share".to_owned(),
            },
            global_config: if windows {
                "~/AppData/Roaming".to_owned()
            } else {
                "/etc".to_owned()
            },
            global_data: if windows {
                "~/AppData/Local".to_owned()
            } else {
                "/usr/share".to_owned()
            },
        }
    }
}

} // verus!
