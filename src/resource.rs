//! A resource: identifier, attributes, relationships, links and meta.
use vstd::prelude::*;
use serde_json::Value;
use crate::identifier::{Identifier, IdentifierView};
use crate::json::{Attributes, Meta, members_view, clone_members};
use crate::relationship::{Relationship, RelationshipView};
use crate::uri::Uri;

verus! {

/// The links of a resource: to itself.
#[derive(Debug)]
pub struct Links {
    pub this: Uri,
}

#[derive(Debug)]
pub struct Resource {
    pub identifier: Identifier,
    pub attributes: Option<Attributes>,
    pub relationships: Option<Vec<(String, Relationship)>>,
    pub links: Option<Links>,
    pub meta: Option<Meta>,
}

pub struct ResourceView {
    pub identifier: IdentifierView,
    pub attributes: Option<Seq<(Seq<char>, Value)>>,
    pub relationships: Option<Seq<(Seq<char>, RelationshipView)>>,
    /// The `self` link.
    pub links: Option<Seq<char>>,
    pub meta: Option<Seq<(Seq<char>, Value)>>,
}

pub open spec fn relationships_view(v: Seq<(String, Relationship)>) -> Seq<(Seq<char>, RelationshipView)> {
    v.map_values(|p: (String, Relationship)| (p.0@, p.1@))
}

pub open spec fn opt_members(m: Option<Vec<(String, Value)>>) -> Option<Seq<(Seq<char>, Value)>> {
    match m {
        Some(v) => Some(members_view(v@)),
        None => None,
    }
}

impl View for Resource {
    type V = ResourceView;

    open spec fn view(&self) -> ResourceView {
        ResourceView {
            identifier: self.identifier@,
            attributes: opt_members(self.attributes),
            relationships: match self.relationships {
                Some(r) => Some(relationships_view(r@)),
                None => None,
            },
            links: match self.links {
                Some(l) => Some(l.this@),
                None => None,
            },
            meta: opt_members(self.meta),
        }
    }
}

fn clone_opt_members(m: &Option<Vec<(String, Value)>>) -> (r: Option<Vec<(String, Value)>>)
    ensures
        opt_members(r) == opt_members(*m),
{
    match m {
        Some(v) => Some(clone_members(v)),
        None => None,
    }
}

fn clone_relationships(v: &Vec<(String, Relationship)>) -> (r: Vec<(String, Relationship)>)
    ensures
        relationships_view(r@) == relationships_view(v@),
{
    let mut out: Vec<(String, Relationship)> = Vec::new();
    let mut k: usize = 0;
    while k < v.len()
        invariant
            k <= v@.len(),
            out@.len() == k,
            forall|j: int| 0 <= j < k ==> (#[trigger] out@[j]).0@ == v@[j].0@ && out@[j].1@ == v@[j].1@,
        decreases v@.len() - k,
    {
        out.push((v[k].0.clone(), v[k].1.clone()));
        k = k + 1;
    }
    assert(relationships_view(out@) =~= relationships_view(v@));
    out
}

impl Clone for Resource {
    fn clone(&self) -> (r: Resource)
        ensures
            r@ == self@,
    {
        Resource {
            identifier: self.identifier.clone(),
            attributes: clone_opt_members(&self.attributes),
            relationships: match &self.relationships {
                Some(r) => Some(clone_relationships(r)),
                None => None,
            },
            links: match &self.links {
                Some(l) => Some(Links { this: l.this.clone() }),
                None => None,
            },
            meta: clone_opt_members(&self.meta),
        }
    }
}

} // verus!
