//! Error types.

use vstd::prelude::*;

verus! {

/// An I/O error of std, held by [`RambleError::IO`].
#[verifier::external_type_specification]
#[verifier::external_body]
pub struct ExIoError(std::io::Error);

/// A directory-walking error, held by [`RambleError::Walkdir`].
#[verifier::external_type_specification]
#[verifier::external_body]
pub struct ExWalkdirError(walkdir::Error);

/// A template-engine error, held by [`RambleError::Tera`].
#[verifier::external_type_specification]
#[verifier::external_body]
pub struct ExTeraError(tera::Error);

/// Everything that can go wrong while rambling.
#[derive(Debug)]
pub enum RambleError {
    /// A failure described by the library itself.
    Custom(String),
    /// Reading a word list failed.
    IO(std::io::Error),
    /// Walking a word-list directory failed.
    Walkdir(walkdir::Error),
    /// The template engine refused a template or failed to render it.
    Tera(tera::Error),
}

impl RambleError {
    /// Whether this is a [`RambleError::Custom`] error with the message `m`.
    pub open spec fn is_custom(&self, m: Seq<char>) -> bool {
        match self {
            RambleError::Custom(s) => s@ == m,
            _ => false,
        }
    }

    /// The message shown for the error.
    pub fn message(&self) -> (m: String)
        ensures
            self is Custom ==> m@ == "Ah shit, here we go again…"@,
            self is IO ==> m@ == "std::io says: We ain't found shit!"@,
            self is Walkdir ==> m@ == "walkdir says: We ain't found shit!"@,
            self is Tera ==> m@ == "Can't terraform a blackhole."@,
    {
        match self {
            RambleError::Custom(_) => String::from_str("Ah shit, here we go again…"),
            RambleError::IO(_) => String::from_str("std::io says: We ain't found shit!"),
            RambleError::Walkdir(_) => String::from_str("walkdir says: We ain't found shit!"),
            RambleError::Tera(_) => String::from_str("Can't terraform a blackhole."),
        }
    }
}

} // verus!
