//! The rules and computations of a network monitor: which firewall rules to
//! put in place for a process, a thread or a user, how the kernel's tables are
//! read, and what a monitoring screen shows of the traffic it is handed.

use vstd::prelude::*;

pub mod controller;
pub mod decimal;
pub mod monitor;
pub mod scan;
pub mod text;

verus! {

} // verus!
