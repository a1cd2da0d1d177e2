//! Runtime policy: where snapshots are stored and which subvolumes are
//! taken by default.
//!
//! The configuration is loaded at startup, with defaults standing in
//! for anything missing or unreadable, and is replaced as a whole on
//! reload.

use vstd::prelude::*;

verus! {

/// Runtime policy for the snapshot engine.
#[derive(Debug, Clone, PartialEq, Eq)]
pub struct Config {
    /// The path, relative to the base subvolume of the root volume, of
    /// the directory holding snapshot clones and metadata. The storage
    /// path is always excluded from snapshotting.
    pub snapshot_path: String,
    /// Subvolumes excluded by default, by prefix match.
    pub exclude_subvolumes: Vec<String>,
    /// An explicit allow-list; when present it takes precedence over
    /// the exclusion list.
    pub include_subvolumes: Option<Vec<String>>,
    /// The diagnostic verbosity.
    pub log_level: String,
}

/// The field values of the default configuration.
pub open spec fn spec_default_config(c: &Config) -> bool {
    &&& c.snapshot_path@ == "@snapshots/pop-snapshots"@
    &&& c.exclude_subvolumes.deep_view() =~= seq!["@home"@]
    &&& c.include_subvolumes is None
    &&& c.log_level@ == "info"@
}

impl Default for Config {
    /// Snapshots live under `@snapshots/pop-snapshots`, the home
    /// subvolume is excluded, no allow-list is set, and the verbosity
    /// is `info`.
    fn default() -> (r: Config)
        ensures
            spec_default_config(&r),
    {
        let exclude = vec![String::from_str("@home")];
        let r = Config {
            snapshot_path: String::from_str("@snapshots/pop-snapshots"),
            exclude_subvolumes: exclude,
            include_subvolumes: None,
            log_level: String::from_str("info"),
        };
        proof {
            assert(r.exclude_subvolumes.deep_view() =~= seq!["@home"@]);
        }
        r
    }
}

impl Config {
    /// Assembles a configuration from the recognized options of a
    /// parsed configuration file: each absent option falls back to its
    /// default.
    pub fn from_parts(
        snapshot_path: Option<String>,
        exclude_subvolumes: Option<Vec<String>>,
        include_subvolumes: Option<Vec<String>>,
        log_level: Option<String>,
    ) -> (r: Config)
        ensures
            match snapshot_path {
                Some(p) => r.snapshot_path == p,
                None => r.snapshot_path@ == "@snapshots/pop-snapshots"@,
            },
            match exclude_subvolumes {
                Some(e) => r.exclude_subvolumes == e,
                None => r.exclude_subvolumes.deep_view() =~= seq!["@home"@],
            },
            r.include_subvolumes == include_subvolumes,
            match log_level {
                Some(l) => r.log_level == l,
                None => r.log_level@ == "info"@,
            },
    {
        let defaults = Config::default();
        Config {
            snapshot_path: match snapshot_path {
                Some(p) => p,
                None => defaults.snapshot_path,
            },
            exclude_subvolumes: match exclude_subvolumes {
                Some(e) => e,
                None => defaults.exclude_subvolumes,
            },
            include_subvolumes,
            log_level: match log_level {
                Some(l) => l,
                None => defaults.log_level,
            },
        }
    }
}

} // verus!
