//! Run settings, and the configuration errors that stop a run before it starts.

use vstd::prelude::*;

verus! {

/// General settings of a run.
pub struct Settings {
    /// 1: address list, 2: ledger file, 3: node.
    pub mode: u8,
    /// Prefix of the addresses shown for matches.
    pub address_prefix: String,
    /// Stop the whole run at the first match.
    pub stop_at_first: bool,
    /// Report progress while the run lasts.
    pub stats_logging: bool,
    /// Spread the search over several workers.
    pub multithreaded: bool,
}

/// Settings of the address-list mode.
pub struct Address {
    /// The addresses searched for, separated by commas.
    pub addresses: String,
}

/// Settings of the ledger mode.
pub struct Ledger {
    /// Path of the ledger database file.
    pub ledger_path: String,
}

/// A configuration that no run can start from.
#[derive(PartialEq, Eq, Structural, Debug, Clone, Copy)]
pub enum ConfigError {
    /// The mode is not one of 1, 2 and 3.
    UnknownMode,
    /// Address mode was chosen but no address was given.
    NoAddresses,
    /// Several workers were asked for on fewer than two execution units.
    TooFewExecutionUnits,
    /// The ledger file holds no data.
    EmptyLedger,
    /// A batch size of zero was given.
    ZeroBatchSize,
}

/// A ledger file must hold data.
pub fn check_ledger_size(len: u64) -> (r: Result<(), ConfigError>)
    ensures
        len == 0 ==> r == Err::<(), ConfigError>(ConfigError::EmptyLedger),
        len > 0 ==> r is Ok,
{
    if len == 0 {
        Err(ConfigError::EmptyLedger)
    } else {
        Ok(())
    }
}

/// A batch must hold at least one account.
pub fn check_batch_size(size: usize) -> (r: Result<usize, ConfigError>)
    ensures
        size == 0 ==> r == Err::<usize, ConfigError>(ConfigError::ZeroBatchSize),
        size > 0 ==> r == Ok::<usize, ConfigError>(size),
{
    if size == 0 {
        Err(ConfigError::ZeroBatchSize)
    } else {
        Ok(size)
    }
}

/// The 24 words that follow the program name on the command line, and
/// stopping at the first match.
pub fn handle_args(args: &[String]) -> (r: ([&str; 24], bool))
    requires
        args@.len() >= 25,
    ensures
        forall|i: int| 0 <= i < 24 ==> (#[trigger] r.0@[i])@ == args@[i + 1]@,
        r.1,
{
    let words: [&str; 24] = [
        args[1].as_str(),
        args[2].as_str(),
        args[3].as_str(),
        args[4].as_str(),
        args[5].as_str(),
        args[6].as_str(),
        args[7].as_str(),
        args[8].as_str(),
        args[9].as_str(),
        args[10].as_str(),
        args[11].as_str(),
        args[12].as_str(),
        args[13].as_str(),
        args[14].as_str(),
        args[15].as_str(),
        args[16].as_str(),
        args[17].as_str(),
        args[18].as_str(),
        args[19].as_str(),
        args[20].as_str(),
        args[21].as_str(),
        args[22].as_str(),
        args[23].as_str(),
        args[24].as_str(),
    ];
    (words, true)
}

} // verus!
