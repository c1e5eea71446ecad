//! The library's error type for the credential and backup rules.

use vstd::prelude::*;

verus! {

/// An error with its user-facing message, by area.
#[derive(Clone, Debug, PartialEq, Eq)]
pub enum AppError {
    /// Authentication and key handling.
    Auth(String),
    /// Configuration and input reading.
    Config(String),
    /// Backups.
    Backup(String),
    /// A refusal whose message is meant for the user as it stands.
    UserFacing(String),
}

impl AppError {
    /// The message of the error.
    pub open spec fn message_view(&self) -> Seq<char> {
        match self {
            AppError::Auth(m) => m@,
            AppError::Config(m) => m@,
            AppError::Backup(m) => m@,
            AppError::UserFacing(m) => m@,
        }
    }

    /// The message of the error, as shown to the user.
    pub fn user_message(&self) -> (r: String)
        ensures
            r@ == self.message_view(),
    {
        match self {
            AppError::Auth(m) => m.clone(),
            AppError::Config(m) => m.clone(),
            AppError::Backup(m) => m.clone(),
            AppError::UserFacing(m) => m.clone(),
        }
    }
}

} // verus!
