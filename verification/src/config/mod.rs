pub mod action;
pub mod arg;
pub mod audit;
pub mod contract;
pub mod duration;
pub mod global;
pub mod profile;
pub mod resolve;
pub mod rule;
pub mod subcommand;

use vstd::prelude::*;

use crate::config::contract::Contract;
use crate::config::global::Global;
use crate::config::profile::Profile;
use crate::config::rule::Rule;
use crate::strmap::StrMap;

verus! {

/// Named flag lists that rules and subcommands refer to.
pub type FlagGroups = StrMap<Vec<String>>;

/// Named contracts that templates refer to.
pub type Contracts = StrMap<Contract>;

/// The whole configuration.
#[derive(Debug)]
pub struct Config {
    pub global: Global,
    pub contracts: Contracts,
    pub flag_groups: FlagGroups,
    pub rules: Vec<Rule>,
    /// Allowed filesystem roots (for path checks).
    pub roots: Vec<String>,
    /// Allowed systemd units.
    pub units: Vec<String>,
    /// Named profiles that extend the base config for some users.
    pub profiles: StrMap<Profile>,
}

impl Default for Config {
    fn default() -> (r: Self)
        ensures
            r.rules@.len() == 0,
            r.roots@.len() == 0,
            r.units@.len() == 0,
            forall|k: Seq<char>| #[trigger] r.contracts.lookup(k) is None,
            forall|k: Seq<char>| #[trigger] r.flag_groups.lookup(k) is None,
            forall|k: Seq<char>| #[trigger] r.profiles.lookup(k) is None,
            r.global.help_text@ == Seq::<char>::empty(),
            r.global.max_read_bytes == 1024 * 1024,
            r.global.max_tail_lines == 5000,
            r.global.default_tail_lines == 200,
    {
        Config {
            global: Global::default(),
            contracts: StrMap::new(),
            flag_groups: StrMap::new(),
            rules: Vec::new(),
            roots: Vec::new(),
            units: Vec::new(),
            profiles: StrMap::new(),
        }
    }
}

} // verus!
