//! Room codes, session state, the scaffolding protocol and the decisions of
//! the host and guest flows of a Terracotta-compatible LAN relay.
use vstd::prelude::*;

pub mod text;
pub mod room;
pub mod net;
pub mod profile;
pub mod session;
pub mod json;
pub mod event;
pub mod snapshot;
pub mod command;
pub mod context;
pub mod scaffolding;
pub mod easytier;
pub mod order;
pub mod flow;
pub mod mc;
pub mod addresses;
pub mod logging;
pub mod ports;
pub mod machine_id;
pub mod ffi;

verus! {

/// The message of the day that a guest announces on the LAN, and that a
/// host's scan ignores.
pub const MOTD: &'static str = "§6§l双击进入陶瓦联机大厅（请保持陶瓦运行）";

/// The vendor string a profile carries.
pub const VENDOR: &'static str = "Conic Terracotta 0.1.0, EasyTier v2.5.0-terracotta.2";

#[derive(Debug, Clone, Copy, PartialEq, Eq, Structural)]
pub enum ErrorCode {
    InvalidRoomCode,
    Busy,
    Internal,
    NotImplemented,
}

pub open spec fn error_code_number(c: ErrorCode) -> u32 {
    match c {
        ErrorCode::InvalidRoomCode => 1,
        ErrorCode::Busy => 2,
        ErrorCode::Internal => 3,
        ErrorCode::NotImplemented => 4,
    }
}

impl ErrorCode {
    /// The number of the error code in events.
    pub fn code(self) -> (r: u32)
        ensures
            r == error_code_number(self),
    {
        match self {
            ErrorCode::InvalidRoomCode => 1,
            ErrorCode::Busy => 2,
            ErrorCode::Internal => 3,
            ErrorCode::NotImplemented => 4,
        }
    }
}

} // verus!
