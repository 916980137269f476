//! The settings of the program.

use crate::query;
use crate::volumes;
use crate::volumes::{add_name, drop_name};
use vstd::prelude::*;

verus! {

broadcast use vstd::string::group_string_axioms;

/// After how many seconds changes are asked for.
pub const UPDATE_INTERVAL_SECS: u32 = 5;

/// An interval at which the list is refreshed too often.
pub const HASTY_INTERVAL_SECS: u32 = 2;

/// The settings of the index.
#[derive(Clone, Copy, Debug, PartialEq, Eq, Structural)]
pub struct IndexSettings {
    pub enable_usn_journal: bool,
    pub include_hidden_files: bool,
    pub include_system_files: bool,
    /// After how many seconds changes are asked for; 0 for never.
    pub update_interval: u32,
}

/// The settings of the program.
#[derive(Debug)]
pub struct Config {
    pub scan_all_volumes: bool,
    pub default_volume: String,
    pub max_cache_items: usize,
    pub max_history_items: usize,
    pub index_settings: IndexSettings,
    pub monitored_volumes: Vec<String>,
    pub startup: bool,
}

impl Default for IndexSettings {
    fn default() -> (r: Self)
        ensures
            r == (IndexSettings {
                enable_usn_journal: true,
                include_hidden_files: false,
                include_system_files: false,
                update_interval: 5,
            }),
    {
        IndexSettings {
            enable_usn_journal: true,
            include_hidden_files: false,
            include_system_files: false,
            update_interval: UPDATE_INTERVAL_SECS,
        }
    }
}

impl Default for Config {
    fn default() -> (r: Self)
        ensures
            !r.scan_all_volumes,
            r.default_volume@ == "D:"@,
            r.max_cache_items == 50,
            r.max_history_items == 20,
            r.index_settings == (IndexSettings {
                enable_usn_journal: true,
                include_hidden_files: false,
                include_system_files: false,
                update_interval: 5,
            }),
            query::strings(r.monitored_volumes@) == seq!["D:"@],
            !r.startup,
    {
        let mut monitored_volumes: Vec<String> = Vec::new();
        monitored_volumes.push("D:".to_string());
        assert(query::strings(monitored_volumes@) =~= seq!["D:"@]);
        Config {
            scan_all_volumes: false,
            default_volume: "D:".to_string(),
            max_cache_items: 50,
            max_history_items: 20,
            index_settings: IndexSettings::default(),
            monitored_volumes,
            startup: false,
        }
    }
}

impl Config {
    /// Brings settings that were read up to date: where changes are asked for every two
    /// seconds, which refreshes the list too often, they are asked for every five. Every
    /// other interval stays as it was set. Tells whether anything was changed, so that the
    /// settings are saved.
    pub fn migrate(&mut self) -> (r: bool)
        ensures
            r == (old(self).index_settings.update_interval == HASTY_INTERVAL_SECS),
            *final(self) == (if r {
                Config {
                    index_settings: IndexSettings {
                        update_interval: UPDATE_INTERVAL_SECS,
                        ..old(self).index_settings
                    },
                    ..*old(self)
                }
            } else {
                *old(self)
            }),
    {
        if self.index_settings.update_interval == HASTY_INTERVAL_SECS {
            self.index_settings.update_interval = UPDATE_INTERVAL_SECS;
            true
        } else {
            false
        }
    }

    /// Adds a volume to those that are followed. Tells whether it was not among them.
    pub fn add_monitored(&mut self, volume: &str) -> (r: bool)
        ensures
            r == !query::strings(old(self).monitored_volumes@).contains(volume@),
            query::strings(final(self).monitored_volumes@) == volumes::with_name(
                query::strings(old(self).monitored_volumes@),
                volume@,
            ),
            *final(self) == (Config {
                monitored_volumes: final(self).monitored_volumes,
                ..*old(self)
            }),
    {
        add_name(&mut self.monitored_volumes, volume)
    }

    /// Removes a volume from those that are followed.
    pub fn remove_monitored(&mut self, volume: &str)
        ensures
            query::strings(final(self).monitored_volumes@) == volumes::without_name(
                query::strings(old(self).monitored_volumes@),
                volume@,
            ),
            *final(self) == (Config {
                monitored_volumes: final(self).monitored_volumes,
                ..*old(self)
            }),
    {
        self.monitored_volumes = drop_name(&self.monitored_volumes, volume);
    }
}

/// The settings as they are shown: without groups, and with what the system says about
/// starting the program.
#[derive(Debug)]
pub struct ConfigResponse {
    pub scan_all_volumes: bool,
    pub default_volume: String,
    pub max_cache_items: usize,
    pub max_history_items: usize,
    pub enable_usn_journal: bool,
    pub include_hidden_files: bool,
    pub include_system_files: bool,
    pub update_interval: u32,
    pub monitored_volumes: Vec<String>,
    pub startup: bool,
}

/// The settings as they are changed.
#[derive(Debug)]
pub struct SaveConfigParams {
    pub scan_all_volumes: bool,
    pub default_volume: String,
    pub max_cache_items: usize,
    pub max_history_items: usize,
    pub enable_usn_journal: bool,
    pub include_hidden_files: bool,
    pub include_system_files: bool,
    pub update_interval: u32,
    pub monitored_volumes: Vec<String>,
    pub startup: bool,
}

impl ConfigResponse {
    /// The settings as they are shown. Whether the program starts with the system is not
    /// read from the settings but told.
    pub fn of_config(c: Config, startup: bool) -> (r: ConfigResponse)
        ensures
            r == (ConfigResponse {
                scan_all_volumes: c.scan_all_volumes,
                default_volume: c.default_volume,
                max_cache_items: c.max_cache_items,
                max_history_items: c.max_history_items,
                enable_usn_journal: c.index_settings.enable_usn_journal,
                include_hidden_files: c.index_settings.include_hidden_files,
                include_system_files: c.index_settings.include_system_files,
                update_interval: c.index_settings.update_interval,
                monitored_volumes: c.monitored_volumes,
                startup,
            }),
    {
        ConfigResponse {
            scan_all_volumes: c.scan_all_volumes,
            default_volume: c.default_volume,
            max_cache_items: c.max_cache_items,
            max_history_items: c.max_history_items,
            enable_usn_journal: c.index_settings.enable_usn_journal,
            include_hidden_files: c.index_settings.include_hidden_files,
            include_system_files: c.index_settings.include_system_files,
            update_interval: c.index_settings.update_interval,
            monitored_volumes: c.monitored_volumes,
            startup,
        }
    }
}

impl SaveConfigParams {
    /// The settings that are asked for.
    pub open spec fn settings(self) -> Config {
        Config {
            scan_all_volumes: self.scan_all_volumes,
            default_volume: self.default_volume,
            max_cache_items: self.max_cache_items,
            max_history_items: self.max_history_items,
            index_settings: IndexSettings {
                enable_usn_journal: self.enable_usn_journal,
                include_hidden_files: self.include_hidden_files,
                include_system_files: self.include_system_files,
                update_interval: self.update_interval,
            },
            monitored_volumes: self.monitored_volumes,
            startup: self.startup,
        }
    }

    /// The settings that are asked for.
    pub fn into_config(self) -> (r: Config)
        ensures
            r == self.settings(),
    {
        Config {
            scan_all_volumes: self.scan_all_volumes,
            default_volume: self.default_volume,
            max_cache_items: self.max_cache_items,
            max_history_items: self.max_history_items,
            index_settings: IndexSettings {
                enable_usn_journal: self.enable_usn_journal,
                include_hidden_files: self.include_hidden_files,
                include_system_files: self.include_system_files,
                update_interval: self.update_interval,
            },
            monitored_volumes: self.monitored_volumes,
            startup: self.startup,
        }
    }
}

/// What a scan takes up by the settings: hidden and system files only where settings could
/// be read and say so.
pub fn scan_kinds(config: &Option<Config>) -> (r: (bool, bool))
    ensures
        r == (match *config {
            Some(c) => (
                c.index_settings.include_hidden_files,
                c.index_settings.include_system_files,
            ),
            None => (false, false),
        }),
{
    match config {
        Some(c) => (c.index_settings.include_hidden_files, c.index_settings.include_system_files),
        None => (false, false),
    }
}

} // verus!
