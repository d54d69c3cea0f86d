//! Application-level errors for HTTP responses.

use vstd::prelude::*;

verus! {

#[derive(Debug, Clone, Copy, PartialEq, Eq, Structural)]
pub enum AppError {
    InvalidRequest,
    NameTooLong,
    CreateForbidden,
    RoomNotFound,
    CodeExhausted,
    RoomCapacityReached,
}

/// The HTTP status each error is answered with.
pub open spec fn status_of(e: AppError) -> u16 {
    match e {
        AppError::InvalidRequest => 400,
        AppError::NameTooLong => 400,
        AppError::CreateForbidden => 403,
        AppError::RoomNotFound => 404,
        AppError::CodeExhausted => 503,
        AppError::RoomCapacityReached => 503,
    }
}

/// The human-readable message each error carries.
pub open spec fn message_of(e: AppError) -> Seq<char> {
    match e {
        AppError::InvalidRequest => "Invalid request"@,
        AppError::NameTooLong => "Name is too long"@,
        AppError::CreateForbidden => "Room creation is not allowed"@,
        AppError::RoomNotFound => "Room not found"@,
        AppError::CodeExhausted => "Could not allocate a unique room code"@,
        AppError::RoomCapacityReached => "Server is at room capacity"@,
    }
}

impl AppError {
    /// HTTP status code for this error.
    pub fn status_code(&self) -> (s: u16)
        ensures
            s == status_of(*self),
    {
        match self {
            AppError::InvalidRequest => 400,
            AppError::NameTooLong => 400,
            AppError::CreateForbidden => 403,
            AppError::RoomNotFound => 404,
            AppError::CodeExhausted => 503,
            AppError::RoomCapacityReached => 503,
        }
    }

    /// Human-readable message carried in the `{"error": ...}` envelope.
    pub fn message(&self) -> (m: &'static str)
        ensures
            m@ == message_of(*self),
    {
        match self {
            AppError::InvalidRequest => "Invalid request",
            AppError::NameTooLong => "Name is too long",
            AppError::CreateForbidden => "Room creation is not allowed",
            AppError::RoomNotFound => "Room not found",
            AppError::CodeExhausted => "Could not allocate a unique room code",
            AppError::RoomCapacityReached => "Server is at room capacity",
        }
    }
}

} // verus!
