//! What a model says about one relationship, before it becomes linkage.
use vstd::prelude::*;
use crate::identifier::{Identifier, IdentifierView};
use crate::relationship::{LinkageView, ids_view};
use crate::resource::Resource;
use crate::cache::resources_view;

verus! {

/// One related model: by identifier only, or built into a resource.
pub enum RelatedRecord {
    Unloaded(Identifier),
    Loaded(Resource),
}

/// Several related models: by identifiers only, or all built into resources.
pub enum RelatedCollection {
    Unloaded(Vec<Identifier>),
    Loaded(Vec<Resource>),
}

pub enum RelatedData {
    /// No related model.
    Empty,
    One(RelatedRecord),
    Many(RelatedCollection),
}

impl Default for RelatedData {
    fn default() -> (r: RelatedData)
        ensures
            r is Empty,
    {
        RelatedData::Empty
    }
}

impl From<Identifier> for RelatedData {
    fn from(identifier: Identifier) -> (r: RelatedData) {
        RelatedData::One(RelatedRecord::Unloaded(identifier))
    }
}

impl vstd::std_specs::convert::FromSpecImpl<Identifier> for RelatedData {
    open spec fn obeys_from_spec() -> bool {
        true
    }

    open spec fn from_spec(identifier: Identifier) -> RelatedData {
        RelatedData::One(RelatedRecord::Unloaded(identifier))
    }
}

impl From<Vec<Identifier>> for RelatedData {
    fn from(identifiers: Vec<Identifier>) -> (r: RelatedData) {
        RelatedData::Many(RelatedCollection::Unloaded(identifiers))
    }
}

impl vstd::std_specs::convert::FromSpecImpl<Vec<Identifier>> for RelatedData {
    open spec fn obeys_from_spec() -> bool {
        true
    }

    open spec fn from_spec(identifiers: Vec<Identifier>) -> RelatedData {
        RelatedData::Many(RelatedCollection::Unloaded(identifiers))
    }
}

impl From<Resource> for RelatedData {
    fn from(resource: Resource) -> (r: RelatedData) {
        RelatedData::One(RelatedRecord::Loaded(resource))
    }
}

impl vstd::std_specs::convert::FromSpecImpl<Resource> for RelatedData {
    open spec fn obeys_from_spec() -> bool {
        true
    }

    open spec fn from_spec(resource: Resource) -> RelatedData {
        RelatedData::One(RelatedRecord::Loaded(resource))
    }
}

impl From<Vec<Resource>> for RelatedData {
    fn from(resources: Vec<Resource>) -> (r: RelatedData) {
        RelatedData::Many(RelatedCollection::Loaded(resources))
    }
}

impl vstd::std_specs::convert::FromSpecImpl<Vec<Resource>> for RelatedData {
    open spec fn obeys_from_spec() -> bool {
        true
    }

    open spec fn from_spec(resources: Vec<Resource>) -> RelatedData {
        RelatedData::Many(RelatedCollection::Loaded(resources))
    }
}

/// The identifiers of a list of resources.
pub open spec fn resource_ids(v: Seq<Resource>) -> Seq<IdentifierView> {
    v.map_values(|r: Resource| r@.identifier)
}

/// The linkage that related data stands for, whether it was loaded or not.
pub open spec fn linkage_of(d: RelatedData) -> LinkageView {
    match d {
        RelatedData::Empty => LinkageView::Empty,
        RelatedData::One(RelatedRecord::Unloaded(id)) => LinkageView::ToOne(id@),
        RelatedData::One(RelatedRecord::Loaded(r)) => LinkageView::ToOne(r@.identifier),
        RelatedData::Many(RelatedCollection::Unloaded(ids)) => LinkageView::ToMany(ids_view(ids@)),
        RelatedData::Many(RelatedCollection::Loaded(rs)) => LinkageView::ToMany(resource_ids(rs@)),
    }
}

/// Whether the related models were built into resources.
pub open spec fn is_loaded(d: RelatedData) -> bool {
    match d {
        RelatedData::One(RelatedRecord::Loaded(_)) => true,
        RelatedData::Many(RelatedCollection::Loaded(_)) => true,
        _ => false,
    }
}

/// The resources that related data carries, in order.
pub open spec fn loaded_resources(d: RelatedData) -> Seq<crate::resource::ResourceView> {
    match d {
        RelatedData::One(RelatedRecord::Loaded(r)) => seq![r@],
        RelatedData::Many(RelatedCollection::Loaded(rs)) => resources_view(rs@),
        _ => Seq::empty(),
    }
}

} // verus!
