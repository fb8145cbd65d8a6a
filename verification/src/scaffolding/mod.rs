//! The scaffolding protocol: requests named `namespace:path` with a byte
//! body, answered with a status byte and a byte payload.
use vstd::prelude::*;

pub mod protocols;
pub mod server;

verus! {

/// What a handler answers: status 0 with a payload, or another status.
#[derive(Debug, PartialEq, Eq)]
pub enum PacketResponse {
    Success { data: Vec<u8> },
    Fail { status: u8, data: Vec<u8> },
}

/// Why a handler gave no answer. The connection then answers status 255
/// with the error's text (`HandlerError::text`).
#[derive(Debug, PartialEq, Eq)]
pub enum HandlerError {
    /// A field of the request is missing.
    InvalidInput,
    /// The body is not a JSON document; the text the reader gave.
    Json(String),
    /// A guest claimed the host's machine id.
    CannotModifyHost,
    /// The request needs a running host.
    ExpectingHostOk,
}

/// The status a handler's error is answered with.
pub const ERROR_STATUS: u8 = 255;

pub open spec fn cannot_modify_host_text() -> Seq<char> {
    "Custom { kind: Other, error: \"IllegalStateException: Cannot modify host, machine_id may conflict.\" }"@
}

pub open spec fn expecting_host_ok_text() -> Seq<char> {
    "Custom { kind: Other, error: \"IllegalStateException: Expecting HostOk.\" }"@
}

/// The text an error is answered with: how `std::io::Error` prints the
/// error it stands for with `{:?}`.
pub open spec fn handler_error_text(e: HandlerError) -> Seq<char> {
    match e {
        HandlerError::InvalidInput => "Kind(InvalidInput)"@,
        HandlerError::Json(t) => t@,
        HandlerError::CannotModifyHost => cannot_modify_host_text(),
        HandlerError::ExpectingHostOk => expecting_host_ok_text(),
    }
}

impl HandlerError {
    /// The text the connection answers this error with.
    pub fn text(&self) -> (r: String)
        ensures
            r@ == handler_error_text(*self),
    {
        match self {
            HandlerError::InvalidInput => crate::text::owned("Kind(InvalidInput)"),
            HandlerError::Json(t) => t.clone(),
            HandlerError::CannotModifyHost => crate::text::owned(
                "Custom { kind: Other, error: \"IllegalStateException: Cannot modify host, machine_id may conflict.\" }",
            ),
            HandlerError::ExpectingHostOk => crate::text::owned(
                "Custom { kind: Other, error: \"IllegalStateException: Expecting HostOk.\" }",
            ),
        }
    }
}

impl PacketResponse {
    /// A successful answer.
    pub fn ok(data: Vec<u8>) -> (r: Result<PacketResponse, HandlerError>)
        ensures
            r == Ok::<PacketResponse, HandlerError>(PacketResponse::Success { data }),
    {
        Ok(PacketResponse::Success { data })
    }

    /// An answer with another status.
    pub fn fail(status: u8, data: Vec<u8>) -> (r: Result<PacketResponse, HandlerError>)
        ensures
            r == Ok::<PacketResponse, HandlerError>(PacketResponse::Fail { status, data }),
    {
        Ok(PacketResponse::Fail { status, data })
    }
}

} // verus!
