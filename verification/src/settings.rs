//! App-wide settings (everything that is not a preset): the file
//! `settings.toml`, next to `presets.toml`. Small and forgiving: a missing or
//! unreadable file means defaults, never an error.

use crate::paths::{inside, FilePath, PathModel};
use vstd::prelude::*;

verus! {

#[derive(Debug, PartialEq, Eq)]
pub struct Settings {
    /// Opt-in: ask once a day which release is the latest. Off by default; no
    /// network request is made unless this is on.
    pub check_updates: bool,
    /// Unix seconds of the last completed check (0 = never).
    pub last_update_check: u64,
    /// The newest version the last check reported, e.g. "2.9.0" ("" = none).
    pub latest_seen: String,
}

/// What the settings hold.
#[verifier::ext_equal]
pub struct SettingsModel {
    pub check_updates: bool,
    pub last_update_check: u64,
    pub latest_seen: Seq<char>,
}

impl View for Settings {
    type V = SettingsModel;

    open spec fn view(&self) -> SettingsModel {
        SettingsModel {
            check_updates: self.check_updates,
            last_update_check: self.last_update_check,
            latest_seen: self.latest_seen@,
        }
    }
}

/// The settings before anything was set: no check was asked for or made.
pub open spec fn unset() -> SettingsModel {
    SettingsModel { check_updates: false, last_update_check: 0, latest_seen: seq![] }
}

impl Default for Settings {
    fn default() -> (r: Settings)
        ensures
            r@ == unset(),
    {
        Settings { check_updates: false, last_update_check: 0, latest_seen: String::new() }
    }
}

impl Clone for Settings {
    fn clone(&self) -> (r: Settings)
        ensures
            r@ == self@,
    {
        Settings {
            check_updates: self.check_updates,
            last_update_check: self.last_update_check,
            latest_seen: self.latest_seen.clone(),
        }
    }
}

/// Where the settings are written.
pub struct SaveTarget {
    /// The folder that has to be there.
    pub folder: FilePath,
    pub file: FilePath,
}

/// The file of the settings under a config directory.
pub open spec fn settings_file(config: PathModel) -> PathModel {
    inside(inside(config, "Kuvatin"@), "settings.toml"@)
}

impl Settings {
    /// `<config dir>/Kuvatin/settings.toml`, or `None` when the platform has no
    /// config directory.
    pub fn path(config_dir: Option<&FilePath>) -> (r: Option<FilePath>)
        ensures
            match config_dir {
                Some(dir) => r is Some && r->0@ == settings_file(dir@),
                None => r is None,
            },
    {
        match config_dir {
            Some(dir) => Some(dir.join("Kuvatin").join("settings.toml")),
            None => None,
        }
    }

    /// The settings to start with, from what the file held; defaults when it is
    /// absent or unreadable.
    pub fn load(read: Option<Settings>) -> (r: Settings)
        ensures
            r@ == match read {
                Some(s) => s@,
                None => unset(),
            },
    {
        match read {
            Some(s) => s,
            None => Settings::default(),
        }
    }

    /// Where to save to; an error when the platform has no config directory.
    pub fn save(config_dir: Option<&FilePath>) -> (r: Result<SaveTarget, &'static str>)
        ensures
            match config_dir {
                Some(dir) => {
                    &&& r matches Ok(target)
                    &&& target.folder@ == inside(dir@, "Kuvatin"@)
                    &&& target.file@ == settings_file(dir@)
                },
                None => r matches Err(e) && e@ == "no config directory"@,
            },
    {
        match config_dir {
            Some(dir) => {
                let folder = dir.join("Kuvatin");
                let file = folder.join("settings.toml");
                Ok(SaveTarget { folder, file })
            },
            None => Err("no config directory"),
        }
    }
}

/// The settings are in the file `settings.toml` of the folder `Kuvatin` of the
/// configuration directory, and are saved to where they are read from.
pub proof fn the_settings_are_saved_where_they_are_read(
    config: Option<&FilePath>,
    path: Option<FilePath>,
    target: Result<SaveTarget, &'static str>,
)
    requires
        call_ensures(Settings::path, (config,), path),
        call_ensures(Settings::save, (config,), target),
    ensures
        config is None ==> path is None && target is Err,
        config is Some ==> {
            &&& path is Some && target is Ok
            &&& path->0@ == target->Ok_0.file@
            &&& target->Ok_0.folder@ == inside(config->0@, "Kuvatin"@)
            &&& target->Ok_0.file@ == inside(target->Ok_0.folder@, "settings.toml"@)
        },
{
}

/// What was read is what counts. Where nothing could be read no check is asked for,
/// none was made and no version was seen.
pub proof fn what_was_read_counts(read: Option<Settings>, r: Settings)
    requires
        call_ensures(Settings::load, (read,), r),
    ensures
        read is Some ==> r.check_updates == read->0.check_updates && r.last_update_check
            == read->0.last_update_check && r.latest_seen@ == read->0.latest_seen@,
        read is None ==> !r.check_updates && r.last_update_check == 0 && r.latest_seen@.len() == 0,
{
    assert(r@.check_updates == r.check_updates && r@.last_update_check == r.last_update_check);
    assert(r@.latest_seen == r.latest_seen@);
}

} // verus!
