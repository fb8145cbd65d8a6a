//! The game on the LAN: the scan for announced servers.
use vstd::prelude::*;

pub mod scanner;

verus! {

} // verus!
