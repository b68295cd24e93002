//! Links as a document may carry them: a bare URI or a link object.
use vstd::prelude::*;
use serde_json::Value;
use crate::uri::Uri;

verus! {

/// The language(s) of a link's target.
#[derive(Debug, Clone)]
pub enum LinkLang {
    Single(Uri),
    Multiple(Vec<Uri>),
}

#[derive(Debug, Clone)]
pub struct LinkObject {
    pub href: Uri,
    pub rel: Option<String>,
    pub described_by: Option<Uri>,
    pub title: Option<String>,
    pub kind: Option<String>,
    pub href_lang: Option<LinkLang>,
    pub meta: Option<Value>,
}

#[derive(Debug, Clone)]
pub enum Link {
    Uri(Uri),
    Object(LinkObject),
}

} // verus!
