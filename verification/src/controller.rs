//! Blocking and limiting the traffic of processes, threads and users with
//! nftables.

pub mod error;
pub mod laws;
pub mod nft;
pub mod operation;
pub mod ownership;
pub mod procfs;
pub mod registry;
pub mod results;
pub mod rules;
pub mod runs;
pub mod scope;
