//! One document build: the context handed to models, relationship linking,
//! resource construction and document assembly.
use vstd::prelude::*;
use vstd::string::*;
use crate::cache::{Cache, cached, registered, distinct_ids, resources_view, lemma_id_index};
use crate::document::{Document, ImplementationInfo, Links as DocumentLinks, PrimaryContent};
use crate::error::Error;
use crate::identifier::{Identifier, IdentifierView};
use crate::json::{Attributes, Meta};
use crate::links::Link;
use crate::params::{Parameters, ParametersView, fields_for_spec};
use crate::related_data::{RelatedCollection, RelatedData, RelatedRecord, linkage_of, is_loaded, loaded_resources};
use crate::relationship::{Linkage, Links as RelationshipLinks, Relationship, RelationshipView, ids_view};
use crate::resource::{Links as ResourceLinks, Resource, ResourceView, opt_members, relationships_view};
use crate::text::owned;
use crate::uri::{Uri, UriGenerator, opt_uri_view, resource_link_spec, relationship_link_spec, related_link_spec};

verus! {

/// Why a build could not generate a link: the resource was not persisted yet,
/// or the URI parser rejected the generated text.
#[derive(Debug, Clone, Copy, PartialEq, Eq, Structural)]
pub enum LinkError {
    Unpersisted,
    Invalid,
}

/// The relationships of a model, by name.
pub type Relationships = Vec<(String, RelatedData)>;

/// What a domain model provides so that a resource can be built from it.
/// `relationships` describes each relationship with `Context::link_one` or
/// `Context::link_many`.
pub trait Resourceful {
    fn kind(&self) -> &'static str;

    fn identifier(&self) -> Identifier;

    fn attributes<G: UriGenerator>(&self, _context: &Context<G>) -> Option<Attributes> {
        None
    }

    fn relationships<G: UriGenerator>(&self, _context: &mut Context<G>) -> Option<Relationships> {
        None
    }

    fn meta<G: UriGenerator>(&self, _context: &Context<G>) -> Option<Meta> {
        None
    }
}

/// Whether `model.identifier()` may return an identifier whose value is `v`.
pub open spec fn identifies<R: Resourceful>(model: &R, v: IdentifierView) -> bool {
    exists|id: Identifier| call_ensures(R::identifier, (model,), id) && id@ == v
}

/// Whether the relationship `name` is materialised: every one when the query
/// gave no `include`, else those it lists.
pub open spec fn included_in(p: ParametersView, name: Seq<char>) -> bool {
    match p.includes {
        None => true,
        Some(list) => list.contains(name),
    }
}

/// Whether some identifier of `ids` is among `building`.
pub open spec fn overlaps(ids: Seq<IdentifierView>, building: Seq<IdentifierView>) -> bool {
    exists|i: int| 0 <= i < ids.len() && building.contains(#[trigger] ids[i])
}

/// `s` after registering each of `rs` in turn.
pub open spec fn register_all(s: Seq<ResourceView>, rs: Seq<ResourceView>) -> Seq<ResourceView>
    decreases rs.len(),
{
    if rs.len() == 0 {
        s
    } else {
        registered(register_all(s, rs.drop_last()), rs.last())
    }
}

/// Registering never drops an identifier.
pub proof fn lemma_registered_keeps(s: Seq<ResourceView>, r: ResourceView, id: IdentifierView)
    ensures
        cached(s, id) is Some ==> cached(registered(s, r), id) is Some,
        cached(registered(s, r), id) is Some <==> (cached(s, id) is Some || r.identifier == id),
{
    lemma_id_index(s, id);
    lemma_id_index(s, r.identifier);
    let t = registered(s, r);
    lemma_id_index(t, id);
    if cached(s, id) is Some {
        let i = crate::cache::id_index(s, id);
        if t[i].identifier != id {
            assert(t[i] == r);
        }
    }
    if r.identifier == id {
        let i = crate::cache::id_index(s, r.identifier);
        if i >= 0 {
            assert(t[i] == r);
        } else {
            assert(t[t.len() - 1] == r);
        }
    }
    if cached(t, id) is Some {
        let k = crate::cache::id_index(t, id);
        if k < s.len() && t[k] != s[k] {
            assert(t[k] == r);
        }
        if k == s.len() {
            assert(t[k] == r);
        }
    }
}

pub proof fn lemma_register_all_keeps(s: Seq<ResourceView>, rs: Seq<ResourceView>, id: IdentifierView)
    ensures
        cached(register_all(s, rs), id) is Some <==> (cached(s, id) is Some || exists|i: int|
            0 <= i < rs.len() && (#[trigger] rs[i]).identifier == id),
    decreases rs.len(),
{
    if rs.len() > 0 {
        let front = rs.drop_last();
        lemma_register_all_keeps(s, front, id);
        lemma_registered_keeps(register_all(s, front), rs.last(), id);
        if exists|i: int| 0 <= i < front.len() && (#[trigger] front[i]).identifier == id {
            let i = choose|i: int| 0 <= i < front.len() && (#[trigger] front[i]).identifier == id;
            assert(rs[i] == front[i]);
        }
        if exists|i: int| 0 <= i < rs.len() && (#[trigger] rs[i]).identifier == id {
            let i = choose|i: int| 0 <= i < rs.len() && (#[trigger] rs[i]).identifier == id;
            if i < rs.len() - 1 {
                assert(front[i] == rs[i]);
            }
        }
    }
}

/// However many paths reach the same identifier, registering what they loaded
/// leaves exactly one resource per identifier, and every identifier reached is
/// present.
pub proof fn lemma_dedup(s: Seq<ResourceView>, rs: Seq<ResourceView>)
    requires
        distinct_ids(s),
    ensures
        distinct_ids(register_all(s, rs)),
        forall|i: int| 0 <= i < rs.len() ==> cached(register_all(s, rs), (#[trigger] rs[i]).identifier) is Some,
    decreases rs.len(),
{
    if rs.len() > 0 {
        lemma_dedup(s, rs.drop_last());
        crate::cache::lemma_registered_distinct(register_all(s, rs.drop_last()), rs.last());
    }
    assert forall|i: int| 0 <= i < rs.len() implies cached(register_all(s, rs), (#[trigger] rs[i]).identifier) is Some by {
        lemma_register_all_keeps(s, rs, rs[i].identifier);
    }
}

/// Without an `include` parameter every relationship is materialised; with
/// `include=x` only `x` is.
pub proof fn lemma_default_inclusion(p: ParametersView, name: Seq<char>, x: Seq<char>)
    ensures
        p.includes is None ==> included_in(p, name),
        p.includes == Some(seq![x]) ==> (included_in(p, name) <==> name == x),
{
    if p.includes == Some(seq![x]) {
        if name == x {
            assert(seq![x][0] == name);
        }
    }
}

/// The resources that a list of relationships carries, in order.
pub open spec fn loaded_of(rels: Seq<(String, RelatedData)>) -> Seq<ResourceView>
    decreases rels.len(),
{
    if rels.len() == 0 {
        Seq::empty()
    } else {
        loaded_of(rels.drop_last()) + loaded_resources(rels.last().1)
    }
}

pub proof fn lemma_register_all_concat(s: Seq<ResourceView>, a: Seq<ResourceView>, b: Seq<ResourceView>)
    ensures
        register_all(s, a + b) == register_all(register_all(s, a), b),
    decreases b.len(),
{
    if b.len() == 0 {
        assert(a + b =~= a);
    } else {
        lemma_register_all_concat(s, a, b.drop_last());
        assert((a + b).drop_last() =~= a + b.drop_last());
        assert((a + b).last() == b.last());
    }
}

/// The state of one document build, handed to the models it builds.
pub struct Context<'g, G: UriGenerator> {
    cache: Cache,
    params: Parameters,
    uri_generator: &'g G,
    building: Vec<Identifier>,
    failure: Option<LinkError>,
}

impl<'g, G: UriGenerator> Context<'g, G> {
    /// The parameters read from the request.
    pub closed spec fn params_view(&self) -> ParametersView {
        self.params@
    }

    /// The base that links are generated under.
    pub closed spec fn base_view(&self) -> Seq<char> {
        self.uri_generator.base_view()
    }

    /// The resources materialised so far.
    pub closed spec fn cache_view(&self) -> Seq<ResourceView> {
        self.cache@
    }

    /// The identifiers of the models being built, outermost first.
    pub closed spec fn building_view(&self) -> Seq<IdentifierView> {
        ids_view(self.building@)
    }

    /// The first link that could not be generated.
    pub closed spec fn failure_view(&self) -> Option<LinkError> {
        self.failure
    }

    /// A fresh build with an empty cache, generating links with `uri_generator`.
    pub fn new(params: Parameters, uri_generator: &'g G) -> (r: Self)
        ensures
            r.params_view() == params@,
            r.base_view() == uri_generator.base_view(),
            r.cache_view() == Seq::<ResourceView>::empty(),
            r.building_view() == Seq::<IdentifierView>::empty(),
            r.failure_view() is None,
    {
        let r = Context { cache: Cache::new(), params, uri_generator, building: Vec::new(), failure: None };
        assert(r.building_view() =~= Seq::<IdentifierView>::empty());
        r
    }

    /// The allow-list of attribute names for `kind`, if the query gave one.
    pub fn fields_for(&self, kind: &str) -> (r: Option<&Vec<String>>)
        ensures
            match r {
                Some(v) => fields_for_spec(self.params_view(), kind@) == Some(crate::text::views(v@)),
                None => fields_for_spec(self.params_view(), kind@) is None,
            },
    {
        self.params.fields_for(kind)
    }

    /// Whether the relationship `relationship` is to be materialised.
    pub fn is_included(&self, relationship: &str) -> (r: bool)
        ensures
            r == included_in(self.params_view(), relationship@),
    {
        self.params.lists(relationship)
    }

    /// Whether a model with this identifier is being built right now.
    fn in_progress(&self, identifier: &Identifier) -> (r: bool)
        ensures
            r == self.building_view().contains(identifier@),
    {
        let mut k: usize = 0;
        while k < self.building.len()
            invariant
                k <= self.building@.len(),
                forall|j: int| 0 <= j < k ==> (#[trigger] self.building@[j])@ != identifier@,
            decreases self.building@.len() - k,
        {
            if self.building[k] == *identifier {
                assert(self.building_view()[k as int] == identifier@);
                return true;
            }
            k = k + 1;
        }
        assert forall|j: int| 0 <= j < self.building_view().len() implies self.building_view()[j] != identifier@ by {
            assert(self.building_view()[j] == self.building@[j]@);
        }
        false
    }

    /// Keeps the first failure.
    fn fail(&mut self, e: LinkError)
        ensures
            final(self).failure_view() is Some,
            old(self).failure_view() is Some ==> final(self).failure_view() == old(self).failure_view(),
            final(self).cache_view() == old(self).cache_view(),
            final(self).params_view() == old(self).params_view(),
            final(self).base_view() == old(self).base_view(),
            final(self).building_view() == old(self).building_view(),
            final(self).uri_generator == old(self).uri_generator,
    {
        if self.failure.is_none() {
            self.failure = Some(e);
        }
    }

    /// The first link that could not be generated, if any.
    pub fn failure(&self) -> (r: Option<LinkError>)
        ensures
            r == self.failure_view(),
    {
        self.failure
    }

    /// Describes a to-one relationship. With no related model it is empty.
    /// Otherwise the related model is built into a resource when the
    /// relationship is included and the model is not already being built
    /// (which would be a cycle); else only its identifier is kept.
    pub fn link_one<R: Resourceful>(&mut self, relationship: &str, resourceful: Option<R>) -> (r: (
        String,
        RelatedData,
    ))
        ensures
            r.0@ == relationship@,
            resourceful is None ==> r.1 is Empty,
            resourceful is Some ==> r.1 is One,
            r.1 matches RelatedData::One(RelatedRecord::Unloaded(id)) ==> (!included_in(
                old(self).params_view(),
                relationship@,
            ) || old(self).building_view().contains(id@)),
            !included_in(old(self).params_view(), relationship@) ==> !is_loaded(r.1),
            !is_loaded(r.1) ==> *final(self) == *old(self),
            resourceful matches Some(m) ==> related_one::<R, G>(
                &m,
                r.1,
                old(self).cache_view(),
                final(self).cache_view(),
                old(self).base_view(),
            ),
    {
        let name = owned(relationship);
        match resourceful {
            None => (name, RelatedData::Empty),
            Some(model) => {
                let identifier = model.identifier();
                if self.is_included(relationship) && !self.in_progress(&identifier) {
                    let resource = make_resource(&model, self);
                    (name, RelatedData::One(RelatedRecord::Loaded(resource)))
                } else {
                    (name, RelatedData::One(RelatedRecord::Unloaded(identifier)))
                }
            },
        }
    }

    /// Describes a to-many relationship. The related models are all built into
    /// resources when the relationship is included and none of them is already
    /// being built; else only their identifiers are kept, in order.
    pub fn link_many<R: Resourceful>(&mut self, relationship: &str, collection: Vec<R>) -> (r: (
        String,
        RelatedData,
    ))
        ensures
            r.0@ == relationship@,
            r.1 is Many,
            r.1 matches RelatedData::Many(RelatedCollection::Unloaded(ids)) ==> ids@.len()
                == collection@.len() && forall|i: int| 0 <= i < ids@.len() ==> identifies(&collection@[i], (#[trigger] ids@[i])@),
            r.1 matches RelatedData::Many(RelatedCollection::Unloaded(ids)) ==> (!included_in(old(self).params_view(), relationship@)
                || overlaps(ids_view(ids@), old(self).building_view())),
            r.1 matches RelatedData::Many(RelatedCollection::Loaded(rs)) ==> rs@.len() == collection@.len()
                && forall|i: int| 0 <= i < rs@.len() ==> identifies(&collection@[i], (#[trigger] rs@[i])@.identifier),
            r.1 matches RelatedData::Many(RelatedCollection::Loaded(rs)) ==> forall|i: int| 0 <= i < rs@.len()
                ==> built_somehow::<R, G>(&collection@[i], (#[trigger] rs@[i])@),
            r.1 matches RelatedData::Many(RelatedCollection::Loaded(rs)) ==> rs@.len() > 0 ==> exists|after: Seq<ResourceView>|
                built_from::<R, G>(&collection@[0], rs@[0]@, old(self).cache_view(), after, old(self).base_view()),
            !included_in(old(self).params_view(), relationship@) ==> !is_loaded(r.1),
            !is_loaded(r.1) ==> *final(self) == *old(self),
    {
        let name = owned(relationship);
        let mut ids: Vec<Identifier> = Vec::new();
        let mut cyclic = false;
        let mut k: usize = 0;
        while k < collection.len()
            invariant
                k <= collection@.len(),
                ids@.len() == k,
                *self == *old(self),
                forall|i: int| 0 <= i < k ==> identifies(&collection@[i], (#[trigger] ids@[i])@),
                cyclic <==> exists|i: int| 0 <= i < k && self.building_view().contains((#[trigger] ids@[i])@),
            decreases collection@.len() - k,
        {
            let identifier = collection[k].identifier();
            let seen = self.in_progress(&identifier);
            let ghost before = ids@;
            ids.push(identifier);
            proof {
                assert forall|i: int| 0 <= i < k implies ids@[i] == before[i] by {}
                if seen {
                    assert(self.building_view().contains(ids@[k as int]@));
                }
            }
            cyclic = cyclic || seen;
            k = k + 1;
        }
        let included = self.is_included(relationship);
        if included && !cyclic {
            let ghost start_cache = self.cache_view();
            let ghost start_base = self.base_view();
            let mut resources: Vec<Resource> = Vec::new();
            let mut k: usize = 0;
            while k < collection.len()
                invariant
                    k <= collection@.len(),
                    resources@.len() == k,
                    start_cache == old(self).cache_view(),
                    start_base == old(self).base_view(),
                    k == 0 ==> *self == *old(self),
                    forall|i: int| 0 <= i < k ==> identifies(&collection@[i], (#[trigger] resources@[i])@.identifier),
                    forall|i: int| 0 <= i < k ==> built_somehow::<R, G>(&collection@[i], (#[trigger] resources@[i])@),
                    k > 0 ==> exists|after: Seq<ResourceView>|
                        built_from::<R, G>(&collection@[0], resources@[0]@, start_cache, after, start_base),
                decreases collection@.len() - k,
            {
                let ghost c0 = self.cache_view();
                let ghost b0 = self.base_view();
                let ghost w = if k > 0 {
                    choose|after: Seq<ResourceView>|
                        built_from::<R, G>(&collection@[0], resources@[0]@, start_cache, after, start_base)
                } else {
                    Seq::<ResourceView>::empty()
                };
                let resource = make_resource(&collection[k], self);
                let ghost w0 = self.cache_view();
                proof {
                    assert(built_from::<R, G>(&collection@[k as int], resource@, c0, self.cache_view(), b0));
                }
                let ghost before = resources@;
                resources.push(resource);
                proof {
                    assert forall|i: int| 0 <= i < k implies resources@[i] == before[i] by {}
                    assert forall|i: int| 0 <= i < k + 1 implies built_somehow::<R, G>(&collection@[i], (#[trigger] resources@[i])@) by {
                        if i == k {
                            assert(built_from::<R, G>(&collection@[i], resources@[i]@, c0, w0, b0));
                        }
                    }
                    if k > 0 {
                        assert(built_from::<R, G>(&collection@[0], resources@[0]@, start_cache, w, start_base));
                    } else {
                        assert(built_from::<R, G>(&collection@[0], resources@[0]@, start_cache, w0, start_base));
                    }
                }
                k = k + 1;
            }
            (name, RelatedData::Many(RelatedCollection::Loaded(resources)))
        } else {
            proof {
                assert(*self == *old(self));
                if cyclic {
                    let i = choose|i: int| 0 <= i < k && self.building_view().contains((#[trigger] ids@[i])@);
                    assert(old(self).building_view().contains(ids@[i]@));
                    assert(ids_view(ids@)[i] == ids@[i]@);
                    assert(overlaps(ids_view(ids@), old(self).building_view()));
                } else {
                    assert(!included_in(old(self).params_view(), relationship@));
                }
            }
            (name, RelatedData::Many(RelatedCollection::Unloaded(ids)))
        }
    }
}

/// Registers the loaded resources of `data` and gives its linkage.
pub fn link_related_data(data: RelatedData, cache: &mut Cache) -> (r: Linkage)
    ensures
        r@ == linkage_of(data),
        final(cache)@ == register_all(old(cache)@, loaded_resources(data)),
{
    match data {
        RelatedData::Empty => {
            assert(register_all(cache@, Seq::<ResourceView>::empty()) == cache@);
            Linkage::Empty
        },
        RelatedData::One(RelatedRecord::Unloaded(id)) => {
            assert(register_all(cache@, Seq::<ResourceView>::empty()) == cache@);
            Linkage::ToOne(id)
        },
        RelatedData::One(RelatedRecord::Loaded(resource)) => {
            let ghost rv = resource@;
            assert(seq![rv].drop_last() =~= Seq::<ResourceView>::empty());
            assert(register_all(cache@, Seq::<ResourceView>::empty()) == cache@);
            assert(seq![rv].last() == rv);
            assert(loaded_resources(data) == seq![rv]);
            Linkage::ToOne(cache.register(resource))
        },
        RelatedData::Many(RelatedCollection::Unloaded(ids)) => {
            assert(register_all(cache@, Seq::<ResourceView>::empty()) == cache@);
            Linkage::ToMany(ids)
        },
        RelatedData::Many(RelatedCollection::Loaded(resources)) => {
            let ghost orig = resources@;
            let ghost all = resources_view(resources@);
            let ghost start = cache@;
            let mut rest = resources;
            let mut ids: Vec<Identifier> = Vec::new();
            let ghost mut k: int = 0;
            while rest.len() > 0
                invariant
                    0 <= k,
                    k + rest@.len() == all.len(),
                    resources_view(rest@) == all.skip(k),
                    ids_view(ids@) == all.take(k).map_values(|x: ResourceView| x.identifier),
                    cache@ == register_all(start, all.take(k)),
                decreases rest@.len(),
            {
                let ghost before_rest = rest@;
                let ghost before_ids = ids@;
                let resource = rest.remove(0);
                assert(all[k] == resource@) by {
                    assert(resources_view(before_rest)[0] == resource@);
                }
                assert(resources_view(rest@) =~= all.skip(k + 1)) by {
                    assert(rest@ =~= before_rest.subrange(1, before_rest.len() as int));
                    assert forall|j: int| 0 <= j < rest@.len() implies resources_view(rest@)[j] == all.skip(k + 1)[j] by {
                        assert(resources_view(before_rest)[j + 1] == all.skip(k)[j + 1]);
                    }
                }
                assert(all.take(k + 1).drop_last() =~= all.take(k));
                let id = cache.register(resource);
                ids.push(id);
                assert(ids_view(ids@) =~= ids_view(before_ids).push(all[k].identifier));
                assert(all.take(k + 1).map_values(|x: ResourceView| x.identifier) =~= all.take(k).map_values(
                    |x: ResourceView| x.identifier,
                ).push(all[k].identifier));
                proof {
                    k = k + 1;
                }
            }
            assert(all.take(k) =~= all);
            assert(crate::related_data::resource_ids(orig) =~= ids_view(ids@));
            Linkage::ToMany(ids)
        },
    }
}

/// `model.attributes(c)` may return `a`, for some context `c`.
pub open spec fn gave_attributes<'g, R: Resourceful, G: UriGenerator>(model: &R, a: Option<Attributes>) -> bool {
    exists|c: &Context<'g, G>| call_ensures(R::attributes::<G>, (model, c), a)
}

/// `model.relationships(c)` may return `rels`, for some context `c`.
pub open spec fn gave_relationships<'g, R: Resourceful, G: UriGenerator>(model: &R, rels: Option<Relationships>) -> bool {
    exists|c: &mut Context<'g, G>| call_ensures(R::relationships::<G>, (model, c), rels)
}

/// `model.meta(c)` may return `m`, for some context `c`.
pub open spec fn gave_meta<'g, R: Resourceful, G: UriGenerator>(model: &R, m: Option<Meta>) -> bool {
    exists|c: &Context<'g, G>| call_ensures(R::meta::<G>, (model, c), m)
}

/// The resource of a model with identifier `id` that gave these parts, with
/// its relationships linked and its own link generated under `base`.
pub open spec fn assembled(
    id: IdentifierView,
    attributes: Option<Attributes>,
    relationships: Option<Relationships>,
    meta: Option<Meta>,
    base: Seq<char>,
) -> ResourceView {
    ResourceView {
        identifier: id,
        attributes: opt_members(attributes),
        relationships: match relationships {
            Some(rels) => Some(linked_relationships(base, id, rels@)),
            None => None,
        },
        links: resource_link_spec(base, id),
        meta: opt_members(meta),
    }
}

/// `res` is assembled from attributes, relationships and meta that `model`
/// may give, with links under `base`; and the cache ends as `after`: what it
/// held once the model had been asked (`mid`), with the resources that those
/// relationships loaded registered, every one of them present. The resource
/// itself is not registered.
pub open spec fn built_fresh<'g, R: Resourceful, G: UriGenerator>(
    model: &R,
    res: ResourceView,
    after: Seq<ResourceView>,
    base: Seq<char>,
) -> bool {
    exists|parts: (Option<Attributes>, Option<Relationships>, Option<Meta>), mid: Seq<ResourceView>|
        #![trigger gave_relationships::<R, G>(model, parts.1), register_all(mid, loaded_of_opt(parts.1))]
        {
            &&& gave_attributes::<R, G>(model, parts.0)
            &&& gave_relationships::<R, G>(model, parts.1)
            &&& gave_meta::<R, G>(model, parts.2)
            &&& res == assembled(res.identifier, parts.0, parts.1, parts.2, base)
            &&& after == register_all(mid, loaded_of_opt(parts.1))
            &&& forall|j: int| 0 <= j < loaded_of_opt(parts.1).len() ==> cached(
                after,
                (#[trigger] loaded_of_opt(parts.1)[j]).identifier,
            ) is Some
        }
}

/// A resource built for `model`, with the cache going from `before` to
/// `after`: it carries the model's identifier, and is the cached resource for
/// it if there was one (the cache then stays as it was), else one freshly
/// built with links under `base`.
pub open spec fn built_from<'g, R: Resourceful, G: UriGenerator>(
    model: &R,
    res: ResourceView,
    before: Seq<ResourceView>,
    after: Seq<ResourceView>,
    base: Seq<char>,
) -> bool {
    &&& identifies(model, res.identifier)
    &&& match cached(before, res.identifier) {
        Some(c) => res == c && after == before,
        None => linked_under(res, base) && built_fresh::<R, G>(model, res, after, base),
    }
}

/// `res` was built for `model` by some step of a build.
pub open spec fn built_somehow<'g, R: Resourceful, G: UriGenerator>(model: &R, res: ResourceView) -> bool {
    exists|before: Seq<ResourceView>, after: Seq<ResourceView>, base: Seq<char>|
        #[trigger] built_from::<R, G>(model, res, before, after, base)
}

/// What `link_one` gives for a present model: its identifier alone, or the
/// resource built for it.
pub open spec fn related_one<'g, R: Resourceful, G: UriGenerator>(
    model: &R,
    d: RelatedData,
    before: Seq<ResourceView>,
    after: Seq<ResourceView>,
    base: Seq<char>,
) -> bool {
    match d {
        RelatedData::One(RelatedRecord::Unloaded(id)) => identifies(model, id@),
        RelatedData::One(RelatedRecord::Loaded(res)) => built_from::<R, G>(model, res@, before, after, base),
        _ => false,
    }
}

/// The relationships `rels` of the resource `id`, linked under `base`: each
/// keeps its name and gets its linkage and its two links.
pub open spec fn linked_relationships(base: Seq<char>, id: IdentifierView, rels: Seq<(String, RelatedData)>) -> Seq<(Seq<char>, RelationshipView)> {
    rels.map_values(|p: (String, RelatedData)| (p.0@, RelationshipView {
        links: Some((relationship_link_spec(base, id, p.0@), related_link_spec(base, id, p.0@))),
        data: Some(linkage_of(p.1)),
        meta: None,
    }))
}

/// Whether some relationship link of `rels` could not be generated.
pub open spec fn some_link_missing(base: Seq<char>, id: IdentifierView, rels: Seq<(String, RelatedData)>) -> bool {
    exists|i: int| 0 <= i < rels.len() && (relationship_link_spec(base, id, (#[trigger] rels[i]).0@) is None
        || related_link_spec(base, id, rels[i].0@) is None)
}

/// The links of a resource are those generated under `base`: its own, and
/// those of each of its relationships.
pub open spec fn linked_under(r: ResourceView, base: Seq<char>) -> bool {
    &&& r.links == resource_link_spec(base, r.identifier)
    &&& (r.relationships matches Some(rels) ==> forall|i: int| 0 <= i < rels.len() ==> (#[trigger] rels[i]).1.links == Some(
        (relationship_link_spec(base, r.identifier, rels[i].0), related_link_spec(base, r.identifier, rels[i].0)),
    ))
}

/// The link to the relationship `name` of `identifier`; none for an
/// unpersisted resource.
fn relationship_uri<G: UriGenerator>(generator: &G, identifier: &Identifier, name: &str) -> (r: Option<Uri>)
    ensures
        opt_uri_view(r) == relationship_link_spec(generator.base_view(), identifier@, name@),
{
    if identifier.is_existing() {
        generator.uri_for_relationship(identifier, name)
    } else {
        None
    }
}

/// The link to what the relationship `name` of `identifier` points at; none
/// for an unpersisted resource.
fn related_uri<G: UriGenerator>(generator: &G, identifier: &Identifier, name: &str) -> (r: Option<Uri>)
    ensures
        opt_uri_view(r) == related_link_spec(generator.base_view(), identifier@, name@),
{
    if identifier.is_existing() {
        generator.uri_for_related(identifier, name)
    } else {
        None
    }
}

/// The relationships of the resource `identifier`, linked: each with its
/// linkage and its two links. Loaded resources are registered, and a missing
/// link is recorded as a failure.
fn link_relationships<'g, G: UriGenerator>(
    generator: &G,
    identifier: &Identifier,
    relationships: Relationships,
    context: &mut Context<'g, G>,
) -> (r: Vec<(String, Relationship)>)
    ensures
        relationships_view(r@) == linked_relationships(generator.base_view(), identifier@, relationships@),
        final(context).cache_view() == register_all(old(context).cache_view(), loaded_of(relationships@)),
        final(context).params_view() == old(context).params_view(),
        final(context).uri_generator == old(context).uri_generator,
        final(context).building_view() == old(context).building_view(),
        final(context).failure_view() is Some <==> (old(context).failure_view() is Some || some_link_missing(
            generator.base_view(),
            identifier@,
            relationships@,
        )),
        old(context).failure_view() is Some ==> final(context).failure_view() == old(context).failure_view(),
{
    let ghost base = generator.base_view();
    let ghost all = relationships@;
    let mut rest = relationships;
    let mut out: Vec<(String, Relationship)> = Vec::new();
    let ghost mut k: int = 0;
    assert(all.take(0) =~= Seq::<(String, RelatedData)>::empty());
    assert(relationships_view(out@) =~= linked_relationships(base, identifier@, all.take(0)));
    while rest.len() > 0
        invariant
            base == generator.base_view(),
            0 <= k <= all.len(),
            k + rest@.len() == all.len(),
            rest@ == all.skip(k),
            relationships_view(out@) == linked_relationships(base, identifier@, all.take(k)),
            context.cache_view() == register_all(old(context).cache_view(), loaded_of(all.take(k))),
            context.params_view() == old(context).params_view(),
            context.uri_generator == old(context).uri_generator,
            context.building_view() == old(context).building_view(),
            context.failure_view() is Some <==> (old(context).failure_view() is Some || some_link_missing(
                base,
                identifier@,
                all.take(k),
            )),
            old(context).failure_view() is Some ==> context.failure_view() == old(context).failure_view(),
        decreases rest@.len(),
    {
        let ghost before_cache = context.cache_view();
        let ghost before_out = out@;
        let (name, data) = rest.remove(0);
        assert(all[k] == (name, data));
        assert(rest@ =~= all.skip(k + 1));
        let ghost taken = all.take(k + 1);
        assert(taken.drop_last() =~= all.take(k));
        assert(taken.last() == (name, data));
        let ghost loaded = loaded_resources(data);
        assert(taken[k] == (name, data));
        proof {
            lemma_register_all_concat(old(context).cache_view(), loaded_of(all.take(k)), loaded);
        }
        let linkage = link_related_data(data, &mut context.cache);
        let this = relationship_uri(generator, identifier, name.as_str());
        let related = related_uri(generator, identifier, name.as_str());
        let missing = this.is_none() || related.is_none();
        if missing {
            context.fail(LinkError::Invalid);
        }
        proof {
            if some_link_missing(base, identifier@, taken) && !missing {
                let i = choose|i: int| 0 <= i < taken.len() && (relationship_link_spec(base, identifier@, (#[trigger] taken[i]).0@) is None
                    || related_link_spec(base, identifier@, taken[i].0@) is None);
                assert(i < k);
                assert(all.take(k)[i] == taken[i]);
            }
            if some_link_missing(base, identifier@, all.take(k)) {
                let i = choose|i: int| 0 <= i < k && (relationship_link_spec(base, identifier@, (#[trigger] all.take(k)[i]).0@) is None
                    || related_link_spec(base, identifier@, all.take(k)[i].0@) is None);
                assert(taken[i] == all.take(k)[i]);
            }
            if missing {
                assert(taken[k] == (name, data));
            }
        }
        let relationship = Relationship {
            links: Some(RelationshipLinks { this, related }),
            data: Some(linkage),
            meta: None,
        };
        let ghost entry = (name@, relationship@);
        out.push((name, relationship));
        assert(relationships_view(out@) =~= relationships_view(before_out).push(entry));
        assert(linked_relationships(base, identifier@, taken) =~= linked_relationships(base, identifier@, all.take(k)).push(entry));
        assert(relationships_view(out@) =~= linked_relationships(base, identifier@, taken));
        proof {
            k = k + 1;
        }
    }
    assert(all.take(k) =~= all);
    out
}

/// Builds the resource for `model`. A model whose identifier is in the cache
/// gives the cached resource and leaves the context as it was; any other is
/// built from its attributes, relationships and meta, with its links from the
/// build's generator.
pub fn make_resource<'g, R: Resourceful, G: UriGenerator>(model: &R, context: &mut Context<'g, G>) -> (r: Resource)
    ensures
        built_from::<R, G>(model, r@, old(context).cache_view(), final(context).cache_view(), old(context).base_view()),
        cached(old(context).cache_view(), r@.identifier) is Some ==> *final(context) == *old(context),
{
    let identifier = model.identifier();
    proof {
        lemma_id_index(context.cache_view(), identifier@);
    }
    if let Some(resource) = context.cache.get(&identifier) {
        return resource.clone();
    }
    let generator: &G = context.uri_generator;
    context.building.push(identifier.clone());
    let attributes = model.attributes(context);
    let relationships = model.relationships(context);
    let meta = model.meta(context);
    context.building.pop();
    let ghost parts = (attributes, relationships, meta);
    let ghost mid = context.cache_view();
    let ghost id = identifier@;
    let r = assemble_resource(identifier, attributes, relationships, meta, generator, context);
    proof {
        let loaded = loaded_of_opt(parts.1);
        assert forall|j: int| 0 <= j < loaded.len() implies cached(context.cache_view(), (#[trigger] loaded[j]).identifier) is Some by {
            lemma_register_all_keeps(mid, loaded, loaded[j].identifier);
        }
        assert(r@ == assembled(r@.identifier, parts.0, parts.1, parts.2, generator.base_view()));
        assert(gave_attributes::<R, G>(model, parts.0));
        assert(gave_relationships::<R, G>(model, parts.1));
        assert(gave_meta::<R, G>(model, parts.2));
        assert(context.cache_view() == register_all(mid, loaded_of_opt(parts.1)));
        assert(built_fresh::<R, G>(model, r@, context.cache_view(), generator.base_view()));
    }
    r
}

/// The resources that a model's relationships carry.
pub open spec fn loaded_of_opt(rels: Option<Relationships>) -> Seq<ResourceView> {
    match rels {
        Some(v) => loaded_of(v@),
        None => Seq::empty(),
    }
}

/// The resource of a model that gave these parts: its relationships linked
/// and its own link generated by `generator`. Loaded related resources are
/// registered, and a link that cannot be generated is recorded as a failure.
pub fn assemble_resource<'g, G: UriGenerator>(
    identifier: Identifier,
    attributes: Option<Attributes>,
    relationships: Option<Relationships>,
    meta: Option<Meta>,
    generator: &G,
    context: &mut Context<'g, G>,
) -> (r: Resource)
    ensures
        r@ == assembled(identifier@, attributes, relationships, meta, generator.base_view()),
        final(context).cache_view() == register_all(old(context).cache_view(), loaded_of_opt(relationships)),
        final(context).params_view() == old(context).params_view(),
        final(context).base_view() == old(context).base_view(),
        final(context).building_view() == old(context).building_view(),
        final(context).failure_view() is Some <==> (old(context).failure_view() is Some
            || resource_link_spec(generator.base_view(), identifier@) is None
            || (relationships matches Some(rels) && some_link_missing(generator.base_view(), identifier@, rels@))),
        old(context).failure_view() is Some ==> final(context).failure_view() == old(context).failure_view(),
{
    let ghost rels_in = relationships;
    let relationships = match relationships {
        Some(list) => Some(link_relationships(generator, &identifier, list, context)),
        None => None,
    };
    let this = if identifier.is_existing() {
        generator.uri_for_resource(&identifier)
    } else {
        None
    };
    let links = match this {
        Some(uri) => Some(ResourceLinks { this: uri }),
        None => {
            let e = if identifier.is_existing() {
                LinkError::Invalid
            } else {
                LinkError::Unpersisted
            };
            context.fail(e);
            None
        },
    };
    Resource { identifier, attributes, relationships, links, meta }
}

/// What a document is built from: one model, several, or errors.
pub enum Content<'a, R> {
    Resource(&'a R),
    Collection(Vec<&'a R>),
    Errors(Vec<Error>),
}

/// The format version this library writes.
fn implementation_info() -> (r: ImplementationInfo)
    ensures
        r.version matches Some(v) && v@ == "1.1"@,
        r.ext is None && r.profile is None && r.meta is None,
{
    ImplementationInfo { version: Some(String::from_str("1.1")), ext: None, profile: None, meta: None }
}

/// The document's links: `self` is the request URI.
fn document_links(uri: Uri) -> (r: DocumentLinks)
    ensures
        r.this matches Some(Link::Uri(u)) && u@ == uri@,
        r.related is None && r.described_by is None,
{
    DocumentLinks { this: Some(Link::Uri(uri)), related: None, described_by: None }
}

/// The included resources of `d`, none when it has no `included` member.
pub open spec fn included_view(d: Document) -> Seq<ResourceView> {
    match d.included {
        Some(inc) => resources_view(inc@),
        None => Seq::empty(),
    }
}

/// The document shape every successful build shares: the request URI as its
/// `self` link, version "1.1", no meta.
pub open spec fn framed(d: Document, uri: Seq<char>) -> bool {
    &&& (d.links matches Some(l) && l.this matches Some(Link::Uri(u)) && u@ == uri)
    &&& (d.links matches Some(l) && l.related is None && l.described_by is None)
    &&& (d.jsonapi matches Some(j) && j.version matches Some(v) && v@ == "1.1"@)
    &&& (d.jsonapi matches Some(j) && j.ext is None && j.profile is None && j.meta is None)
    &&& d.meta is None
}

/// Finishes a build: it fails with the first recorded link failure, if any;
/// otherwise the document holds `primary`, and every resource of `cache`
/// (in order, one per identifier) as included resources, none if it is empty.
pub fn finish_document(primary: PrimaryContent, cache: Cache, failure: Option<LinkError>, uri: Uri) -> (r: Result<Document, LinkError>)
    ensures
        match failure {
            Some(e) => r == Err::<Document, LinkError>(e),
            None => r matches Ok(d) && d.content == primary && framed(d, uri@) && included_view(d) == cache@ && match d.included {
                Some(inc) => resources_view(inc@) == cache@ && cache@.len() > 0 && distinct_ids(cache@),
                None => cache@.len() == 0,
            },
        },
{
    if let Some(e) = failure {
        return Err(e);
    }
    let included = if cache.is_empty() {
        assert(cache@ =~= Seq::<ResourceView>::empty());
        None
    } else {
        Some(cache.into_values())
    };
    Ok(
        Document {
            content: primary,
            meta: None,
            jsonapi: Some(implementation_info()),
            links: Some(document_links(uri)),
            included,
        },
    )
}

/// Builds the document for `content` requested at `uri`, with links from
/// `uri_generator`: the parameters come from the URI's query. Models give
/// data and errors give errors, never both; the resources that relationships
/// materialised are included, one per identifier. It fails when a link that
/// the build needed could not be generated.
pub fn to_document<'a, R: Resourceful, G: UriGenerator>(content: Content<'a, R>, uri_generator: G, uri: Uri) -> (r: Result<
    Document,
    LinkError,
>)
    ensures
        content is Errors ==> r is Ok,
        r is Err ==> !(content is Errors),
        r matches Ok(d) ==> {
            &&& framed(d, uri@)
            &&& (content matches Content::Errors(es) ==> d.content == (PrimaryContent::Errors { errors: es }) && d.included is None)
            &&& (content matches Content::Resource(m) ==> (d.content matches PrimaryContent::Record { data }
                && built_from::<R, G>(m, data@, Seq::empty(), included_view(d), uri_generator.base_view())))
            &&& (content matches Content::Collection(ms) ==> (d.content matches PrimaryContent::Collection { data }
                && data@.len() == ms@.len() && forall|i: int| 0 <= i < data@.len() ==> built_somehow::<R, G>(ms@[i], (#[trigger] data@[i])@)))
            &&& (d.has_data() <==> !(content is Errors))
            &&& (d.has_errors() <==> content is Errors)
            &&& (d.included matches Some(inc) ==> inc@.len() > 0 && distinct_ids(resources_view(inc@)))
        },
{
    let params = Parameters::new(&uri);
    let mut context = Context::new(params, &uri_generator);
    let primary = match content {
        Content::Resource(model) => {
            let data = make_resource(model, &mut context);
            assert(cached(Seq::<ResourceView>::empty(), data@.identifier) is None);
            PrimaryContent::Record { data }
        },
        Content::Collection(models) => {
            let mut data: Vec<Resource> = Vec::new();
            let mut k: usize = 0;
            while k < models.len()
                invariant
                    k <= models@.len(),
                    data@.len() == k,
                    forall|i: int| 0 <= i < k ==> built_somehow::<R, G>(models@[i], (#[trigger] data@[i])@),
                decreases models@.len() - k,
            {
                let ghost before = data@;
                let ghost c0 = context.cache_view();
                let ghost b0 = context.base_view();
                let resource = make_resource(models[k], &mut context);
                let ghost c1 = context.cache_view();
                data.push(resource);
                proof {
                    assert forall|i: int| 0 <= i < k + 1 implies built_somehow::<R, G>(models@[i], (#[trigger] data@[i])@) by {
                        if i == k {
                            assert(built_from::<R, G>(models@[i], data@[i]@, c0, c1, b0));
                        } else {
                            assert(data@[i] == before[i]);
                        }
                    }
                }
                k = k + 1;
            }
            PrimaryContent::Collection { data }
        },
        Content::Errors(errors) => PrimaryContent::Errors { errors },
    };
    finish_document(primary, context.cache, context.failure, uri)
}

} // verus!
