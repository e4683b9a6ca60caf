//! Settings and history, and what is made of the files they are kept in.
use vstd::prelude::*;

verus! {

/// A folder that is watched.
#[derive(Debug, PartialEq)]
pub struct WatchedFolder {
    pub path: String,
    /// Whether the folders below it are watched too.
    pub recursive: bool,
}

#[derive(Debug)]
pub struct AppConfig {
    pub enabled: bool,
    pub folders: Vec<WatchedFolder>,
}

/// A rename that was made.
#[derive(Debug)]
pub struct RenameRecord {
    /// Milliseconds since the Unix epoch.
    pub at: u64,
    pub dir: String,
    pub from: String,
    pub to: String,
}

/// How many renames the history keeps.
pub const HISTORY_LIMIT: usize = 300;

/// A file of the configuration directory.
pub enum Stored<T> {
    /// It cannot be read.
    Missing,
    /// It holds something else than what it is for.
    Malformed,
    Parsed(T),
}

pub struct FolderView {
    pub path: Seq<char>,
    pub recursive: bool,
}

pub struct ConfigView {
    pub enabled: bool,
    pub folders: Seq<FolderView>,
}

pub struct RecordView {
    pub at: u64,
    pub dir: Seq<char>,
    pub from: Seq<char>,
    pub to: Seq<char>,
}

impl View for WatchedFolder {
    type V = FolderView;

    open spec fn view(&self) -> FolderView {
        FolderView { path: self.path@, recursive: self.recursive }
    }
}

pub open spec fn folder_views(folders: Seq<WatchedFolder>) -> Seq<FolderView> {
    folders.map_values(|f: WatchedFolder| f@)
}

impl View for AppConfig {
    type V = ConfigView;

    open spec fn view(&self) -> ConfigView {
        ConfigView { enabled: self.enabled, folders: folder_views(self.folders@) }
    }
}

impl View for RenameRecord {
    type V = RecordView;

    open spec fn view(&self) -> RecordView {
        RecordView { at: self.at, dir: self.dir@, from: self.from@, to: self.to@ }
    }
}

pub open spec fn record_views(records: Seq<RenameRecord>) -> Seq<RecordView> {
    records.map_values(|r: RenameRecord| r@)
}

impl Clone for WatchedFolder {
    fn clone(&self) -> (r: Self)
        ensures
            r == *self,
    {
        WatchedFolder { path: self.path.clone(), recursive: self.recursive }
    }
}

impl Clone for AppConfig {
    fn clone(&self) -> (r: Self)
        ensures
            r@ == self@,
    {
        let folders: Vec<WatchedFolder> = self.folders.clone();
        assert(folders@ =~= self.folders@);
        AppConfig { enabled: self.enabled, folders }
    }
}

impl Clone for RenameRecord {
    fn clone(&self) -> (r: Self)
        ensures
            r == *self,
    {
        RenameRecord {
            at: self.at,
            dir: self.dir.clone(),
            from: self.from.clone(),
            to: self.to.clone(),
        }
    }
}

/// Off and without folders: the folders are there to be looked at before anything is renamed.
pub open spec fn default_config() -> ConfigView {
    ConfigView { enabled: false, folders: seq![] }
}

impl Default for AppConfig {
    fn default() -> (r: Self)
        ensures
            r@ == default_config(),
    {
        let r = AppConfig { enabled: false, folders: Vec::new() };
        assert(r@.folders =~= seq![]);
        r
    }
}

/// The settings of a first run: the default, with the download folder watched, where there is one.
pub open spec fn first_config(downloads: Option<Seq<char>>) -> ConfigView {
    match downloads {
        Some(path) => ConfigView {
            folders: seq![FolderView { path, recursive: false }],
            ..default_config()
        },
        None => default_config(),
    }
}

/// The settings to start with, and whether they are to be written down: what was stored; the
/// default where that is malformed; those of a first run, written down, where nothing was stored.
pub fn load_config(stored: Stored<AppConfig>, downloads: Option<String>) -> (r: (AppConfig, bool))
    ensures
        match stored {
            Stored::Parsed(config) => r.0@ == config@ && !r.1,
            Stored::Malformed => r.0@ == default_config() && !r.1,
            Stored::Missing => {
                &&& r.0@ == first_config(
                    match downloads {
                        Some(path) => Some(path@),
                        None => None,
                    },
                )
                &&& r.1
            },
        },
{
    match stored {
        Stored::Parsed(config) => (config, false),
        Stored::Malformed => (AppConfig::default(), false),
        Stored::Missing => {
            let mut config = AppConfig::default();
            if let Some(path) = downloads {
                config.folders.push(WatchedFolder { path, recursive: false });
                assert(config@.folders =~= seq![FolderView { path: path@, recursive: false }]);
            }
            (config, true)
        },
    }
}

/// The history to start with: what was stored, or nothing.
pub fn load_history(stored: Stored<Vec<RenameRecord>>) -> (r: Vec<RenameRecord>)
    ensures
        record_views(r@) == (match stored {
            Stored::Parsed(records) => record_views(records@),
            _ => seq![],
        }),
{
    match stored {
        Stored::Parsed(records) => records,
        _ => {
            let r: Vec<RenameRecord> = Vec::new();
            assert(record_views(r@) =~= seq![]);
            r
        },
    }
}

} // verus!
