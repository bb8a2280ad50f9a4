//! The settings of the engine, read once at the start.

use vstd::prelude::*;
use crate::position::Position;

verus! {

/// The settings.
#[derive(Debug, PartialEq, Eq)]
pub struct Config {
    /// The origin of the warehouse.
    pub position: Position,
    /// The fee on a trade, in thousandths of a diamond.
    pub fee: i64,
    /// The account that the agent plays under.
    pub account_email: String,
    /// The server that the agent plays on.
    pub server_address: String,
}

/// The mathematical value of a [`Config`].
pub struct ConfigView {
    pub position: Position,
    pub fee: int,
    pub account_email: Seq<char>,
    pub server_address: Seq<char>,
}

impl View for Config {
    type V = ConfigView;

    open spec fn view(&self) -> ConfigView {
        ConfigView {
            position: self.position,
            fee: self.fee as int,
            account_email: self.account_email@,
            server_address: self.server_address@,
        }
    }
}

/// The settings that are written where none are found.
pub open spec fn default_config() -> ConfigView {
    ConfigView {
        position: Position { x: 0, y: 0, z: 0 },
        fee: 0,
        account_email: Seq::<char>::empty(),
        server_address: "corejourney.org"@,
    }
}

impl Default for Config {
    /// The settings that are written where none are found: the warehouse at the world's
    /// zero point, no fee, no account, and the server `corejourney.org`.
    fn default() -> (c: Config)
        ensures
            c@ == default_config(),
    {
        Config {
            position: Position { x: 0, y: 0, z: 0 },
            fee: 0,
            account_email: String::new(),
            server_address: "corejourney.org".to_owned(),
        }
    }
}

impl Config {
    /// The file that keeps the settings.
    pub const CONFIG_FILE: &'static str = "data/config.json";

    /// The settings to run with, and whether they are to be written: those that were
    /// found, or the default ones, to be written, where none were.
    pub fn load(found: Option<Config>) -> (r: (Config, bool))
        ensures
            match found {
                Some(config) => r.0 == config && !r.1,
                None => r.0@ == default_config() && r.1,
            },
    {
        match found {
            Some(config) => (config, false),
            None => (Config::default(), true),
        }
    }
}

} // verus!
