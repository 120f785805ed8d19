//! The failure taxonomy of a container open.
//!
//! A missing or wrong password is kept apart from other failures so that
//! the caller can prompt the user and retry instead of aborting.

use vstd::prelude::*;

verus! {

/// Why a container could not be opened.
#[derive(Debug)]
pub enum OpenError {
    /// The path has no extension or one of an unsupported format.
    UnsupportedFormat,
    /// An entry is encrypted and the password is missing or wrong.
    NeedPassword,
    /// The container could not be parsed or read; the message describes
    /// the failure for the user.
    Invalid(String),
}

impl OpenError {
    /// Whether the failure is recoverable by prompting for a password.
    pub fn is_need_password(&self) -> (r: bool)
        ensures
            r == (self is NeedPassword),
    {
        match self {
            OpenError::NeedPassword => true,
            _ => false,
        }
    }
}

/// The mathematical value of an optional owned password.
pub open spec fn pwd_view(p: Option<Vec<u8>>) -> Option<Seq<u8>> {
    match p {
        Some(v) => Some(v@),
        None => None,
    }
}

/// The mathematical value of an optional borrowed password.
pub open spec fn pwd_ref_view(p: Option<&Vec<u8>>) -> Option<Seq<u8>> {
    match p {
        Some(v) => Some(v@),
        None => None,
    }
}

} // verus!
