//! What the monitor shows of the traffic, and what it does when asked.

pub mod capture;
pub mod control;
pub mod csv;
pub mod dashboard;
pub mod desktop;
pub mod export;
pub mod model;
pub mod ordering;
pub mod results;
pub mod snapshot;
pub mod stats;
pub mod system;
pub mod table;
pub mod units;
