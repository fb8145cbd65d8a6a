//! The local ports the flows ask the system for.
use vstd::prelude::*;

verus! {

/// What a port is for.
#[derive(Debug, Clone, Copy, PartialEq, Eq, Structural)]
pub enum PortRequest {
    EasyTierRPC,
    Scaffolding,
    Minecraft,
}

pub open spec fn request_index(r: PortRequest) -> u16 {
    match r {
        PortRequest::EasyTierRPC => 0,
        PortRequest::Scaffolding => 1,
        PortRequest::Minecraft => 2,
    }
}

/// The first fallback port.
pub const FALLBACK_PORT_BASE: u16 = 35780;

impl PortRequest {
    /// The port used where the system gives none.
    pub fn fallback_port(self) -> (r: u16)
        ensures
            r == FALLBACK_PORT_BASE + request_index(self),
    {
        match self {
            PortRequest::EasyTierRPC => FALLBACK_PORT_BASE,
            PortRequest::Scaffolding => FALLBACK_PORT_BASE + 1,
            PortRequest::Minecraft => FALLBACK_PORT_BASE + 2,
        }
    }

    /// The port to use: the one the system gave, else the fallback.
    pub fn resolve(self, bound: Option<u16>) -> (r: u16)
        ensures
            r == match bound {
                Some(p) => p,
                None => (FALLBACK_PORT_BASE + request_index(self)) as u16,
            },
    {
        match bound {
            Some(p) => p,
            None => self.fallback_port(),
        }
    }
}

} // verus!
