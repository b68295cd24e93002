//! The top-level document: primary content, included resources, links.
use vstd::prelude::*;
use serde_json::Value;
use crate::error::Error;
use crate::links::Link;
use crate::resource::Resource;
use crate::uri::Uri;

verus! {

/// What the document says of the format it follows.
#[derive(Debug)]
pub struct ImplementationInfo {
    pub version: Option<String>,
    pub ext: Option<Vec<Uri>>,
    pub profile: Option<Vec<Uri>>,
    pub meta: Option<Value>,
}

/// The document's own links.
#[derive(Debug)]
pub struct Links {
    pub this: Option<Link>,
    pub related: Option<Link>,
    pub described_by: Option<Link>,
}

/// Either data (one resource or several) or errors, never both.
#[allow(inconsistent_fields)]
#[derive(Debug)]
pub enum PrimaryContent {
    Record { data: Resource },
    Collection { data: Vec<Resource> },
    Errors { errors: Vec<Error> },
}

impl From<Resource> for PrimaryContent {
    fn from(resource: Resource) -> (r: PrimaryContent) {
        PrimaryContent::Record { data: resource }
    }
}

impl vstd::std_specs::convert::FromSpecImpl<Resource> for PrimaryContent {
    open spec fn obeys_from_spec() -> bool {
        true
    }

    open spec fn from_spec(resource: Resource) -> PrimaryContent {
        PrimaryContent::Record { data: resource }
    }
}

impl From<Vec<Resource>> for PrimaryContent {
    fn from(collection: Vec<Resource>) -> (r: PrimaryContent) {
        PrimaryContent::Collection { data: collection }
    }
}

impl vstd::std_specs::convert::FromSpecImpl<Vec<Resource>> for PrimaryContent {
    open spec fn obeys_from_spec() -> bool {
        true
    }

    open spec fn from_spec(collection: Vec<Resource>) -> PrimaryContent {
        PrimaryContent::Collection { data: collection }
    }
}

impl From<Vec<Error>> for PrimaryContent {
    fn from(errors: Vec<Error>) -> (r: PrimaryContent) {
        PrimaryContent::Errors { errors }
    }
}

impl vstd::std_specs::convert::FromSpecImpl<Vec<Error>> for PrimaryContent {
    open spec fn obeys_from_spec() -> bool {
        true
    }

    open spec fn from_spec(errors: Vec<Error>) -> PrimaryContent {
        PrimaryContent::Errors { errors }
    }
}

#[derive(Debug)]
pub struct Document {
    pub content: PrimaryContent,
    pub meta: Option<Value>,
    pub jsonapi: Option<ImplementationInfo>,
    pub links: Option<Links>,
    pub included: Option<Vec<Resource>>,
}

impl Document {
    /// Whether the document carries data (a `data` member).
    pub open spec fn has_data(&self) -> bool {
        !(self.content is Errors)
    }

    /// Whether the document carries errors (an `errors` member).
    pub open spec fn has_errors(&self) -> bool {
        self.content is Errors
    }
}

} // verus!
