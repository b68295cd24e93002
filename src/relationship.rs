//! Relationships of a resource and their linkage.
use vstd::prelude::*;
use serde_json::Value;
use crate::identifier::{Identifier, IdentifierView, clone_identifiers};
use crate::uri::Uri;

verus! {

/// The reference-only view of what a relationship points at.
#[derive(Debug)]
pub enum Linkage {
    Empty,
    ToOne(Identifier),
    ToMany(Vec<Identifier>),
}

pub enum LinkageView {
    Empty,
    ToOne(IdentifierView),
    ToMany(Seq<IdentifierView>),
}

pub open spec fn ids_view(v: Seq<Identifier>) -> Seq<IdentifierView> {
    v.map_values(|i: Identifier| i@)
}

impl View for Linkage {
    type V = LinkageView;

    open spec fn view(&self) -> LinkageView {
        match self {
            Linkage::Empty => LinkageView::Empty,
            Linkage::ToOne(i) => LinkageView::ToOne(i@),
            Linkage::ToMany(v) => LinkageView::ToMany(ids_view(v@)),
        }
    }
}

impl Clone for Linkage {
    fn clone(&self) -> (r: Linkage)
        ensures
            r@ == self@,
    {
        match self {
            Linkage::Empty => Linkage::Empty,
            Linkage::ToOne(i) => Linkage::ToOne(i.clone()),
            Linkage::ToMany(v) => Linkage::ToMany(clone_identifiers(v)),
        }
    }
}

impl From<Identifier> for Linkage {
    fn from(identifier: Identifier) -> (r: Linkage) {
        Linkage::ToOne(identifier)
    }
}

impl vstd::std_specs::convert::FromSpecImpl<Identifier> for Linkage {
    open spec fn obeys_from_spec() -> bool {
        true
    }

    open spec fn from_spec(identifier: Identifier) -> Linkage {
        Linkage::ToOne(identifier)
    }
}

impl From<Vec<Identifier>> for Linkage {
    fn from(identifiers: Vec<Identifier>) -> (r: Linkage) {
        Linkage::ToMany(identifiers)
    }
}

impl vstd::std_specs::convert::FromSpecImpl<Vec<Identifier>> for Linkage {
    open spec fn obeys_from_spec() -> bool {
        true
    }

    open spec fn from_spec(identifiers: Vec<Identifier>) -> Linkage {
        Linkage::ToMany(identifiers)
    }
}

/// The links of a relationship: to itself and to what it points at.
#[derive(Debug)]
pub struct Links {
    pub this: Option<Uri>,
    pub related: Option<Uri>,
}

pub open spec fn opt_text(u: Option<Uri>) -> Option<Seq<char>> {
    crate::uri::opt_uri_view(u)
}

pub fn clone_uri(u: &Option<Uri>) -> (r: Option<Uri>)
    ensures
        opt_text(r) == opt_text(*u),
{
    match u {
        Some(x) => Some(x.clone()),
        None => None,
    }
}

#[derive(Debug)]
pub struct Relationship {
    pub links: Option<Links>,
    pub data: Option<Linkage>,
    pub meta: Option<Value>,
}

pub struct RelationshipView {
    /// The `self` and `related` links.
    pub links: Option<(Option<Seq<char>>, Option<Seq<char>>)>,
    pub data: Option<LinkageView>,
    pub meta: Option<Value>,
}

impl View for Relationship {
    type V = RelationshipView;

    open spec fn view(&self) -> RelationshipView {
        RelationshipView {
            links: match self.links {
                Some(l) => Some((opt_text(l.this), opt_text(l.related))),
                None => None,
            },
            data: match self.data {
                Some(d) => Some(d@),
                None => None,
            },
            meta: self.meta,
        }
    }
}

impl Clone for Relationship {
    fn clone(&self) -> (r: Relationship)
        ensures
            r@ == self@,
    {
        Relationship {
            links: match &self.links {
                Some(l) => Some(Links { this: clone_uri(&l.this), related: clone_uri(&l.related) }),
                None => None,
            },
            data: match &self.data {
                Some(d) => Some(d.clone()),
                None => None,
            },
            meta: match &self.meta {
                Some(m) => Some(m.clone()),
                None => None,
            },
        }
    }
}

} // verus!
