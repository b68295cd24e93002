//! The resources materialised during one document build, one per identifier.
use vstd::prelude::*;
use crate::identifier::{Identifier, IdentifierView};
use crate::resource::{Resource, ResourceView};

verus! {

/// No two resources share an identifier.
pub open spec fn distinct_ids(s: Seq<ResourceView>) -> bool {
    forall|i: int, j: int| 0 <= i < j < s.len() ==> s[i].identifier != s[j].identifier
}

/// The position of the resource with identifier `id`, or -1.
pub open spec fn id_index(s: Seq<ResourceView>, id: IdentifierView) -> int
    decreases s.len(),
{
    if s.len() == 0 {
        -1
    } else {
        let r = id_index(s.drop_last(), id);
        if r >= 0 {
            r
        } else if s.last().identifier == id {
            s.len() - 1
        } else {
            -1
        }
    }
}

/// The resource stored for `id`, if any.
pub open spec fn cached(s: Seq<ResourceView>, id: IdentifierView) -> Option<ResourceView> {
    let i = id_index(s, id);
    if i >= 0 {
        Some(s[i])
    } else {
        None
    }
}

/// `s` after registering `r`: it takes the place of the resource with the same
/// identifier, or comes last.
pub open spec fn registered(s: Seq<ResourceView>, r: ResourceView) -> Seq<ResourceView> {
    let i = id_index(s, r.identifier);
    if i >= 0 {
        s.update(i, r)
    } else {
        s.push(r)
    }
}

pub proof fn lemma_id_index(s: Seq<ResourceView>, id: IdentifierView)
    ensures
        -1 <= id_index(s, id) < s.len(),
        id_index(s, id) >= 0 ==> s[id_index(s, id)].identifier == id,
        id_index(s, id) < 0 ==> forall|j: int| 0 <= j < s.len() ==> s[j].identifier != id,
    decreases s.len(),
{
    if s.len() > 0 {
        lemma_id_index(s.drop_last(), id);
        if id_index(s, id) < 0 {
            assert forall|j: int| 0 <= j < s.len() implies s[j].identifier != id by {
                if j < s.len() - 1 {
                    assert(s[j] == s.drop_last()[j]);
                }
            }
        }
    }
}

/// Registering keeps identifiers distinct.
pub proof fn lemma_registered_distinct(s: Seq<ResourceView>, r: ResourceView)
    requires
        distinct_ids(s),
    ensures
        distinct_ids(registered(s, r)),
        registered(s, r).contains(r),
        cached(registered(s, r), r.identifier) == Some(r),
{
    lemma_id_index(s, r.identifier);
    let t = registered(s, r);
    let i = id_index(s, r.identifier);
    if i >= 0 {
        assert(t[i] == r);
    } else {
        assert(t[t.len() - 1] == r);
    }
    lemma_id_index(t, r.identifier);
    let k = id_index(t, r.identifier);
    assert(t[k] == r) by {
        if t[k] != r {
            if i >= 0 {
                assert(k != i);
                assert(s[k].identifier == r.identifier);
                if k < i {
                    assert(s[k].identifier != s[i].identifier);
                } else {
                    assert(s[i].identifier != s[k].identifier);
                }
            } else {
                assert(k < s.len());
                assert(s[k].identifier == r.identifier);
            }
        }
    }
}

/// An identity-keyed registry of resources, for exactly one document build.
pub struct Cache {
    index: Vec<Resource>,
}

pub open spec fn resources_view(v: Seq<Resource>) -> Seq<ResourceView> {
    v.map_values(|r: Resource| r@)
}

impl View for Cache {
    type V = Seq<ResourceView>;

    closed spec fn view(&self) -> Seq<ResourceView> {
        resources_view(self.index@)
    }
}

impl Default for Cache {
    fn default() -> (r: Cache)
        ensures
            r@ == Seq::<ResourceView>::empty(),
    {
        Cache::new()
    }
}

impl Cache {
    #[verifier::type_invariant]
    spec fn unique(&self) -> bool {
        distinct_ids(resources_view(self.index@))
    }

    pub fn new() -> (r: Cache)
        ensures
            r@ == Seq::<ResourceView>::empty(),
    {
        let c = Cache { index: Vec::new() };
        assert(c@ =~= Seq::<ResourceView>::empty());
        c
    }

    fn position(&self, identifier: &Identifier) -> (r: Option<usize>)
        ensures
            match r {
                Some(i) => i == id_index(self@, identifier@),
                None => id_index(self@, identifier@) == -1,
            },
    {
        let ghost s = self@;
        let mut r: Option<usize> = None;
        let mut i: usize = 0;
        while i < self.index.len()
            invariant
                s == self@,
                s == resources_view(self.index@),
                i <= s.len(),
                match r {
                    Some(j) => j == id_index(s.take(i as int), identifier@),
                    None => id_index(s.take(i as int), identifier@) == -1,
                },
            decreases s.len() - i,
        {
            assert(s.take(i + 1).drop_last() =~= s.take(i as int));
            assert(s.take(i + 1).last() == self.index@[i as int]@);
            if r.is_none() && self.index[i].identifier == *identifier {
                r = Some(i);
            }
            i = i + 1;
        }
        assert(s.take(s.len() as int) =~= s);
        r
    }

    /// Whether a resource with this identifier has been registered.
    pub fn has(&self, identifier: &Identifier) -> (r: bool)
        ensures
            r == cached(self@, identifier@) is Some,
    {
        self.position(identifier).is_some()
    }

    /// The resource registered under this identifier.
    pub fn get(&self, identifier: &Identifier) -> (r: Option<&Resource>)
        ensures
            match r {
                Some(x) => cached(self@, identifier@) == Some(x@),
                None => cached(self@, identifier@) is None,
            },
    {
        match self.position(identifier) {
            Some(i) => {
                proof {
                    lemma_id_index(self@, identifier@);
                }
                Some(&self.index[i])
            },
            None => None,
        }
    }

    /// Stores `resource` under its own identifier, in place of the one stored
    /// there before, and hands back that identifier.
    pub fn register(&mut self, resource: Resource) -> (r: Identifier)
        ensures
            final(self)@ == registered(old(self)@, resource@),
            r@ == resource@.identifier,
    {
        proof {
            use_type_invariant(&*self);
            lemma_registered_distinct(self@, resource@);
            lemma_id_index(self@, resource@.identifier);
        }
        let identifier = resource.identifier.clone();
        let position = self.position(&identifier);
        let ghost before = self.index@;
        let mut index: Vec<Resource> = Vec::new();
        std::mem::swap(&mut index, &mut self.index);
        match position {
            Some(i) => {
                index[i] = resource;
                assert(resources_view(index@) =~= resources_view(before).update(i as int, resource@));
            },
            None => {
                index.push(resource);
                assert(resources_view(index@) =~= resources_view(before).push(resource@));
            },
        }
        self.index = index;
        identifier
    }

    pub fn is_empty(&self) -> (r: bool)
        ensures
            r == (self@.len() == 0),
    {
        self.index.len() == 0
    }

    /// The registered resources, in the order they were first registered.
    pub fn values(&self) -> (r: &Vec<Resource>)
        ensures
            resources_view(r@) == self@,
            distinct_ids(self@),
    {
        proof {
            use_type_invariant(self);
        }
        &self.index
    }

    /// The registered resources, taken out of the cache.
    pub fn into_values(self) -> (r: Vec<Resource>)
        ensures
            resources_view(r@) == self@,
            distinct_ids(self@),
    {
        proof {
            use_type_invariant(&self);
        }
        self.index
    }
}

} // verus!
