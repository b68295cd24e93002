//! Error objects, the content of a document that reports failure.
use vstd::prelude::*;
use serde_json::Value;
use crate::links::Link;
use crate::status::StatusCode;

verus! {

/// Links of an error: what it is about, and its type.
#[derive(Debug, Clone)]
pub struct Links {
    pub about: Option<Link>,
    pub kind: Option<Link>,
}

/// What in the request the error points at.
#[derive(Debug, Clone)]
pub enum Source {
    Pointer(String),
    Parameter(String),
    Header(String),
}

#[derive(Debug, Clone)]
pub struct Error {
    pub id: Option<String>,
    pub links: Option<Links>,
    pub status: Option<StatusCode>,
    pub code: Option<String>,
    pub title: Option<String>,
    pub detail: Option<String>,
    pub source: Option<Source>,
    pub meta: Option<Value>,
}

impl Default for Error {
    /// An internal server error with no further information.
    fn default() -> (r: Error)
        ensures
            r.status matches Some(s) && s@ == 500,
            r.code matches Some(c) && c@ == "InternalServerFault"@,
            r.title matches Some(t) && t@ == "An unexpected error occurred. No more information is available."@,
            r.id is None && r.links is None && r.detail is None && r.source is None && r.meta is None,
    {
        Error {
            id: None,
            links: None,
            status: StatusCode::from_u16(500),
            code: Some(String::from_str("InternalServerFault")),
            title: Some(String::from_str("An unexpected error occurred. No more information is available.")),
            detail: None,
            source: None,
            meta: None,
        }
    }
}

} // verus!
