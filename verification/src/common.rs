//! Shared response shapes, the caller's role, and the error taxonomy.

use vstd::prelude::*;

verus! {

/// Who is calling: decided once at the edge and threaded explicitly.
#[derive(Debug, Clone, Copy, PartialEq, Eq, Structural)]
pub enum Role {
    Admin,
    User,
    Unknown,
}

/// The role a request's role string denotes.
pub open spec fn role_of(s: Seq<char>) -> Role {
    if s == "admin"@ {
        Role::Admin
    } else if s == "user"@ {
        Role::User
    } else {
        Role::Unknown
    }
}

/// Map the request's role string to a role.
pub fn check_role(role: &str) -> (r: Role)
    ensures
        r == role_of(role@),
{
    if crate::text::str_eq(role, "admin") {
        Role::Admin
    } else if crate::text::str_eq(role, "user") {
        Role::User
    } else {
        Role::Unknown
    }
}

/// A list response: the rows plus the total count.
#[derive(Debug, PartialEq, Eq)]
pub struct ResponseData<T> {
    pub data: Vec<T>,
    pub total: i64,
}

/// The structured error body every failing request receives.
#[derive(Debug, PartialEq, Eq)]
pub struct ResponseMessage {
    pub message: String,
}

/// A staged temporary file.
#[derive(Debug, PartialEq, Eq)]
pub struct TmpFile {
    pub path: String,
}

/// How an operation failed, by the taxonomy the API surfaces.
#[derive(Debug, Clone, Copy, PartialEq, Eq, Structural)]
pub enum ServiceError {
    /// A required field or file is bad or missing.
    Validation,
    /// The entity, or a parent it references, does not exist.
    NotFound,
    /// The row store refused the write.
    Persistence,
    /// The row was written but one or more staged files never landed:
    /// a partial-commit inconsistency the client must hear about.
    FileExchange,
}

impl ServiceError {
    /// The message body for this error.
    pub fn message_text(&self) -> (r: String)
        ensures
            self is Validation ==> r@ == "Invalid request model"@,
            self is NotFound ==> r@ == "Not found"@,
            self is Persistence ==> r@ == "Internal server error"@,
            self is FileExchange ==> r@ == "Some files lost on data exchanging"@,
    {
        match self {
            ServiceError::Validation => "Invalid request model".to_owned(),
            ServiceError::NotFound => "Not found".to_owned(),
            ServiceError::Persistence => "Internal server error".to_owned(),
            ServiceError::FileExchange => "Some files lost on data exchanging".to_owned(),
        }
    }
}

/// How a row-store call failed.
#[derive(Debug, Clone, Copy, PartialEq, Eq, Structural)]
pub enum RepoError {
    /// No row matched.
    NotFound,
    /// A uniqueness constraint (an entity's UUID) was violated.
    Conflict,
}

/// How multipart ingestion failed.
#[derive(Debug, Clone, Copy, PartialEq, Eq, Structural)]
pub enum IngestError {
    /// A scalar field held bytes that are not UTF-8.
    InvalidUtf8,
    /// The merged field set did not bind to the request schema: a
    /// required field was missing or had the wrong shape.
    Bind,
}

} // verus!
