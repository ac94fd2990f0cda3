//! Errors of the grove, and their messages.
use vstd::prelude::*;
use vstd::string::StringExecFns;

use crate::db::{db_error_message, DbError};

verus! {

/// What can go wrong in grove operations that the user asked for.
#[derive(Debug)]
pub enum GroveError {
    NotInitialized(String),
    SkillExists(String),
    SkillNotFound(String),
    InvalidPath(String),
    InvalidOutcome(String),
    DatabaseError(String),
}

/// The message shown for an error.
pub open spec fn error_message(e: GroveError) -> Seq<char> {
    match e {
        GroveError::NotInitialized(p) => "grove not initialized at "@ + p@ + ". Run `grove init` first."@,
        GroveError::SkillExists(p) => "skill already exists at path: "@ + p@,
        GroveError::SkillNotFound(p) => "no skill found at path: "@ + p@,
        GroveError::InvalidPath(p) => "invalid skill path: "@ + p@
            + ". Use slash-separated segments (e.g., coding/review)"@,
        GroveError::InvalidOutcome(o) => "invalid outcome: "@ + o@ + ". Use: success, failure, or partial"@,
        GroveError::DatabaseError(e) => "database error: "@ + e@,
    }
}

impl GroveError {
    /// The message shown for this error.
    pub fn message(&self) -> (r: String)
        ensures
            r@ == error_message(*self),
    {
        match self {
            GroveError::NotInitialized(p) => {
                let mut r = String::from_str("grove not initialized at ");
                r.append(p.as_str());
                r.append(". Run `grove init` first.");
                r
            },
            GroveError::SkillExists(p) => {
                let mut r = String::from_str("skill already exists at path: ");
                r.append(p.as_str());
                r
            },
            GroveError::SkillNotFound(p) => {
                let mut r = String::from_str("no skill found at path: ");
                r.append(p.as_str());
                r
            },
            GroveError::InvalidPath(p) => {
                let mut r = String::from_str("invalid skill path: ");
                r.append(p.as_str());
                r.append(". Use slash-separated segments (e.g., coding/review)");
                r
            },
            GroveError::InvalidOutcome(o) => {
                let mut r = String::from_str("invalid outcome: ");
                r.append(o.as_str());
                r.append(". Use: success, failure, or partial");
                r
            },
            GroveError::DatabaseError(e) => {
                let mut r = String::from_str("database error: ");
                r.append(e.as_str());
                r
            },
        }
    }
}

/// Why a command failed: a grove error, or a store operation the store refused.
#[derive(Debug)]
pub enum CommandError {
    Grove(GroveError),
    Store(DbError),
}

/// The message shown for a failed command.
pub open spec fn command_error_message(e: CommandError) -> Seq<char> {
    match e {
        CommandError::Grove(g) => error_message(g),
        CommandError::Store(d) => db_error_message(d),
    }
}

impl CommandError {
    /// The message shown for this failure.
    pub fn message(&self) -> (r: String)
        ensures
            r@ == command_error_message(*self),
    {
        match self {
            CommandError::Grove(g) => g.message(),
            CommandError::Store(d) => d.message(),
        }
    }
}

} // verus!
