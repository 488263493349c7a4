//! The configuration and the place where it is kept.
//!
//! The configuration is made once and then only read. A `ConfigCell` holds
//! it: empty at first, filled once, never changed after that.

use crate::text::text_of;
use vstd::prelude::*;
use vstd::string::*;

verus! {

/// The settings of the application.
#[derive(Debug)]
pub struct Config {
    /// The directory that downloaded files are saved to.
    pub download_path: String,
}

/// A `Config` as plain text.
pub struct ConfigView {
    pub download_path: Seq<char>,
}

impl View for Config {
    type V = ConfigView;

    open spec fn view(&self) -> ConfigView {
        ConfigView { download_path: self.download_path@ }
    }
}

/// Why a configuration could not be had.
#[derive(Debug)]
pub enum ConfigError {
    /// The cell was filled before.
    AlreadyInitialized,
    /// The configuration could not be loaded; the text says why.
    Load(String),
}

/// A `ConfigError` as plain text.
pub enum ConfigErrorView {
    AlreadyInitialized,
    Load(Seq<char>),
}

impl View for ConfigError {
    type V = ConfigErrorView;

    open spec fn view(&self) -> ConfigErrorView {
        match self {
            ConfigError::AlreadyInitialized => ConfigErrorView::AlreadyInitialized,
            ConfigError::Load(reason) => ConfigErrorView::Load(reason@),
        }
    }
}

/// The place of the one configuration: empty, or filled for good.
pub struct ConfigCell {
    slot: Option<Config>,
}

impl View for ConfigCell {
    type V = Option<ConfigView>;

    closed spec fn view(&self) -> Option<ConfigView> {
        match self.slot {
            Some(config) => Some(config@),
            None => None,
        }
    }
}

impl ConfigCell {
    /// An empty cell.
    pub fn new() -> (r: ConfigCell)
        ensures
            r@ is None,
    {
        ConfigCell { slot: None }
    }

    /// Whether the cell holds a configuration.
    pub fn is_initialized(&self) -> (r: bool)
        ensures
            r == (self@ is Some),
    {
        self.slot.is_some()
    }
}

/// The name of the user among the two that the system may give, as
/// `USERNAME` and as `USER`: the first that is set, or `User`.
pub open spec fn user_name(first: Option<Seq<char>>, second: Option<Seq<char>>) -> Seq<char> {
    match first {
        Some(name) => name,
        None => match second {
            Some(name) => name,
            None => seq!['U', 's', 'e', 'r'],
        },
    }
}

/// The download directory that a user starts with.
pub open spec fn default_download_path(user: Seq<char>) -> Seq<char> {
    "C:\\Users\\"@ + user + "\\Music\\VK Downloads"@
}

impl Config {
    /// The configuration that a user starts with. `first` and `second` are
    /// the two names that the system may give for the user.
    pub fn new(first: Option<&str>, second: Option<&str>) -> (r: Config)
        ensures
            r@.download_path == default_download_path(
                user_name(text_of(first), text_of(second)),
            ),
    {
        proof {
            reveal_strlit("User");
            assert("User"@ =~= seq!['U', 's', 'e', 'r']);
        }
        let user: &str = match first {
            Some(name) => name,
            None => match second {
                Some(name) => name,
                None => "User",
            },
        };
        let mut path = String::from_str("C:\\Users\\");
        path.append(user);
        path.append("\\Music\\VK Downloads");
        Config { download_path: path }
    }

    /// Puts a loaded configuration into the cell.
    ///
    /// A failure to load is handed on. A cell that is filled already is left
    /// as it is, and the call fails.
    pub fn init(cell: &mut ConfigCell, loaded: Result<Config, ConfigError>) -> (r: Result<
        (),
        ConfigError,
    >)
        ensures
            match loaded {
                Err(e) => r == Err::<(), ConfigError>(e) && final(cell)@ == old(cell)@,
                Ok(config) => if old(cell)@ is Some {
                    &&& r == Err::<(), ConfigError>(ConfigError::AlreadyInitialized)
                    &&& final(cell)@ == old(cell)@
                } else {
                    &&& r is Ok
                    &&& final(cell)@ == Some(config@)
                },
            },
    {
        match loaded {
            Err(e) => Err(e),
            Ok(config) => {
                if cell.slot.is_some() {
                    Err(ConfigError::AlreadyInitialized)
                } else {
                    cell.slot = Some(config);
                    Ok(())
                }
            },
        }
    }

    /// The configuration in the cell. An empty cell is filled first with what
    /// `load` returns; `load` is not called on a filled cell. Where `load`
    /// fails, the cell stays empty and the failure is handed on.
    pub fn get<F: FnOnce() -> Result<Config, ConfigError>>(cell: &mut ConfigCell, load: F) -> (r:
        Result<&Config, ConfigError>)
        requires
            load.requires(()),
        ensures
            old(cell)@ is Some ==> final(cell)@ == old(cell)@ && r is Ok && Some(r->Ok_0@) == old(
                cell,
            )@,
            old(cell)@ is None ==> exists|loaded: Result<Config, ConfigError>|
                #![trigger load.ensures((), loaded)]
                load.ensures((), loaded) && match loaded {
                    Ok(config) => r is Ok && r->Ok_0@ == config@ && final(cell)@ == Some(config@),
                    Err(e) => r == Err::<&Config, ConfigError>(e) && final(cell)@ is None,
                },
    {
        if cell.slot.is_none() {
            match load() {
                Ok(config) => {
                    cell.slot = Some(config);
                },
                Err(e) => {
                    return Err(e);
                },
            }
        }
        Ok(cell.slot.as_ref().unwrap())
    }

    /// Whether the download directory exists, as `probe` tells it: `probe`
    /// is asked about the download path, and its answer is handed back.
    pub fn validate_path<F: FnOnce(&str) -> bool>(&self, probe: F) -> (r: bool)
        requires
            forall|path: &str| path@ == self.download_path@ ==> #[trigger] probe.requires((path,)),
        ensures
            exists|path: &str|
                path@ == self.download_path@ && #[trigger] probe.ensures((path,), r),
    {
        probe(self.download_path.as_str())
    }

    /// The configuration in a filled cell.
    pub fn get_unwrap(cell: &ConfigCell) -> (r: &Config)
        requires
            cell@ is Some,
        ensures
            Some(r@) == cell@,
    {
        cell.slot.as_ref().unwrap()
    }
}

} // verus!
