//! The configuration aggregate: resolved settings plus the lens registry,
//! and the decision core of initialization.

use std::collections::HashMap;

use vstd::prelude::*;

use crate::decode::parse_settings;
use crate::decode::parse_settings_text;
use crate::decode::ParseError;
use crate::encode::enc_settings;
use crate::encode::encode_settings;
use crate::paths::join_path;
use crate::paths::project_data_dir;
use crate::paths::project_preference_dir;
use crate::settings::default_model;
use crate::settings::Lense;
use crate::settings::UserSettings;

verus! {

/// A path that names the settings file inside some directory.
pub open spec fn is_settings_file_path(p: Seq<char>) -> bool {
    exists|d: Seq<char>| p == #[trigger] (d + seq!['/'] + "settings.ron"@)
}

/// A path that names the lens-definition directory inside some directory.
pub open spec fn is_lenses_dir_path(p: Seq<char>) -> bool {
    exists|d: Seq<char>| p == #[trigger] (d + seq!['/'] + "lenses"@)
}

/// The configuration a process runs with: the persisted user settings, and
/// the registry of named lenses that an external loader fills later.
#[derive(Clone, Debug)]
pub struct Config {
    pub user_settings: UserSettings,
    pub lenses: HashMap<String, Lense>,
}

impl Config {
    /// Platform data directory for the fixed application identity, or `None`
    /// when the platform offers no home directory — an environment failure
    /// the caller treats as fatal.
    pub fn data_dir() -> (r: Option<String>) {
        match directories::ProjectDirs::from("com", "athlabs", "carto") {
            Some(dirs) => Some(project_data_dir(&dirs)),
            None => None,
        }
    }

    /// Platform preference directory for the fixed application identity, or
    /// `None` when the platform offers no home directory.
    pub fn prefs_dir() -> (r: Option<String>) {
        match directories::ProjectDirs::from("com", "athlabs", "carto") {
            Some(dirs) => Some(project_preference_dir(&dirs)),
            None => None,
        }
    }

    /// The settings file name joined onto a preference directory.
    pub fn prefs_file_in(prefs_dir: &str) -> (r: String)
        ensures
            r@ == prefs_dir@ + seq!['/'] + "settings.ron"@,
    {
        join_path(prefs_dir, "settings.ron")
    }

    /// The lens-definition subdirectory joined onto a data directory.
    pub fn lenses_dir_in(data_dir: &str) -> (r: String)
        ensures
            r@ == data_dir@ + seq!['/'] + "lenses"@,
    {
        join_path(data_dir, "lenses")
    }

    /// User preferences file: the settings file inside the platform
    /// preference directory.
    pub fn prefs_file() -> (r: Option<String>)
        ensures
            r matches Some(p) ==> is_settings_file_path(p@),
    {
        match Self::prefs_dir() {
            Some(dir) => {
                let p = Self::prefs_file_in(dir.as_str());
                proof {
                    assert(p@ == dir@ + seq!['/'] + "settings.ron"@);
                }
                Some(p)
            },
            None => None,
        }
    }

    /// The lens-definition directory inside the platform data directory.
    pub fn lenses_dir() -> (r: Option<String>)
        ensures
            r matches Some(p) ==> is_lenses_dir_path(p@),
    {
        match Self::data_dir() {
            Some(dir) => {
                let p = Self::lenses_dir_in(dir.as_str());
                proof {
                    assert(p@ == dir@ + seq!['/'] + "lenses"@);
                }
                Some(p)
            },
            None => None,
        }
    }

    /// The decision core of initialization, over what was found at the
    /// preferences file path: `None` when the file does not exist, otherwise
    /// its text.
    ///
    /// A missing file yields the defaults together with the document the
    /// caller must write back; an existing file is parsed, and a malformed
    /// one is an error — fatal at the initialization edge, never silently
    /// defaulted. The lens registry starts empty in every case.
    pub fn new(prefs_file_contents: Option<&str>) -> (r: Result<
        (Config, Option<String>),
        ParseError,
    >)
        ensures
            match prefs_file_contents {
                None => {
                    &&& r matches Ok((c, w))
                    &&& c.user_settings@ == default_model()
                    &&& c.lenses@ == Map::<String, Lense>::empty()
                    &&& w matches Some(doc)
                    &&& doc@ == enc_settings(default_model())
                },
                Some(text) => match parse_settings_text(text@) {
                    Some(m) => {
                        &&& r matches Ok((c, w))
                        &&& c.user_settings@ == m
                        &&& c.lenses@ == Map::<String, Lense>::empty()
                        &&& w is None
                    },
                    None => r is Err,
                },
            },
    {
        match prefs_file_contents {
            None => {
                let settings = UserSettings::default();
                let doc = encode_settings(&settings);
                let config = Config { user_settings: settings, lenses: HashMap::new() };
                Ok((config, Some(doc)))
            },
            Some(text) => match parse_settings(text) {
                Ok(settings) => {
                    let config = Config { user_settings: settings, lenses: HashMap::new() };
                    Ok((config, None))
                },
                Err(e) => Err(e),
            },
        }
    }
}

} // verus!
