//! Recovery of a partially known 24-word mnemonic: search-space construction,
//! exact partitioning across workers, candidate enumeration, match oracles,
//! cooperative termination and the verdict of a run.

pub mod text;
pub mod product;
pub mod space;
pub mod template;
pub mod split;
pub mod worker;
pub mod oracle;
pub mod answer;
pub mod control;
pub mod config;
pub mod run;
pub mod report;
