//! Attribute and meta members: names bound to JSON values that the library
//! carries through without looking inside them.
use vstd::prelude::*;
use serde_json::Value;

verus! {

#[verifier::external_type_specification]
#[verifier::external_body]
pub struct ExValue(serde_json::Value);

/// Relies on the `Clone` that `serde_json::Value` derives: the copy is the same value.
pub assume_specification[ <serde_json::Value as Clone>::clone ](v: &serde_json::Value) -> (r:
    serde_json::Value)
    ensures
        r == *v,
;

/// Named members of a JSON object, in the order they were given.
pub type Attributes = Vec<(String, Value)>;

pub type Meta = Vec<(String, Value)>;

pub open spec fn members_view(v: Seq<(String, Value)>) -> Seq<(Seq<char>, Value)> {
    v.map_values(|m: (String, Value)| (m.0@, m.1))
}

/// The members of `avail` whose name is in `allowed`, in their order.
pub open spec fn keep_allowed(avail: Seq<(Seq<char>, Value)>, allowed: Seq<Seq<char>>) -> Seq<(Seq<char>, Value)>
    decreases avail.len(),
{
    if avail.len() == 0 {
        Seq::empty()
    } else {
        let rest = keep_allowed(avail.drop_last(), allowed);
        if allowed.contains(avail.last().0) {
            rest.push(avail.last())
        } else {
            rest
        }
    }
}

/// A sparse fieldset applied to what a model offers.
pub open spec fn sparse(avail: Seq<(Seq<char>, Value)>, allowed: Option<Seq<Seq<char>>>) -> Seq<(Seq<char>, Value)> {
    match allowed {
        Some(a) => keep_allowed(avail, a),
        None => avail,
    }
}

/// Every member of the result is one of `avail` and its name is allowed; every
/// allowed member of `avail` is in the result.
pub proof fn lemma_keep_allowed(avail: Seq<(Seq<char>, Value)>, allowed: Seq<Seq<char>>)
    ensures
        forall|m| keep_allowed(avail, allowed).contains(m) <==> (avail.contains(m) && allowed.contains(m.0)),
    decreases avail.len(),
{
    if avail.len() > 0 {
        let rest = avail.drop_last();
        lemma_keep_allowed(rest, allowed);
        assert forall|m| keep_allowed(avail, allowed).contains(m) <==> (avail.contains(m) && allowed.contains(m.0)) by {
            if avail.contains(m) {
                let i = choose|i: int| 0 <= i < avail.len() && avail[i] == m;
                if i < avail.len() - 1 {
                    assert(rest[i] == m);
                }
            }
            if rest.contains(m) {
                let i = choose|i: int| 0 <= i < rest.len() && rest[i] == m;
                assert(avail[i] == m);
            }
            if keep_allowed(avail, allowed).contains(m) && !keep_allowed(rest, allowed).contains(m) {
                let k = keep_allowed(avail, allowed);
                let i = choose|i: int| 0 <= i < k.len() && k[i] == m;
                if i < k.len() - 1 {
                    assert(keep_allowed(rest, allowed)[i] == m);
                }
            }
            if allowed.contains(avail.last().0) {
                let k = keep_allowed(avail, allowed);
                assert(k[k.len() - 1] == avail.last());
                assert forall|x| keep_allowed(rest, allowed).contains(x) implies k.contains(x) by {
                    let i = choose|i: int| 0 <= i < keep_allowed(rest, allowed).len() && keep_allowed(rest, allowed)[i] == x;
                    assert(k[i] == x);
                }
            }
            assert(avail[avail.len() - 1] == avail.last());
        }
    }
}

/// A sparse fieldset emits exactly the available members that it names, and
/// without one every available member.
pub proof fn lemma_sparse_fieldset(avail: Seq<(Seq<char>, Value)>, allowed: Option<Seq<Seq<char>>>)
    ensures
        allowed is None ==> sparse(avail, allowed) == avail,
        allowed matches Some(a) ==> forall|m: (Seq<char>, Value)|
            sparse(avail, allowed).contains(m) <==> (avail.contains(m) && a.contains(m.0)),
{
    if let Some(a) = allowed {
        lemma_keep_allowed(avail, a);
    }
}

/// Copies of a list of members.
pub fn clone_members(v: &Vec<(String, Value)>) -> (r: Vec<(String, Value)>)
    ensures
        members_view(r@) == members_view(v@),
{
    let mut out: Vec<(String, Value)> = Vec::new();
    let mut k: usize = 0;
    while k < v.len()
        invariant
            k <= v@.len(),
            out@.len() == k,
            forall|j: int| 0 <= j < k ==> (#[trigger] out@[j]).0@ == v@[j].0@ && out@[j].1 == v@[j].1,
        decreases v@.len() - k,
    {
        out.push((v[k].0.clone(), v[k].1.clone()));
        k = k + 1;
    }
    assert(members_view(out@) =~= members_view(v@));
    out
}

fn allows(allowed: &Vec<String>, name: &String) -> (r: bool)
    ensures
        r == crate::text::views(allowed@).contains(name@),
{
    let mut k: usize = 0;
    while k < allowed.len()
        invariant
            k <= allowed@.len(),
            forall|j: int| 0 <= j < k ==> (#[trigger] allowed@[j])@ != name@,
        decreases allowed@.len() - k,
    {
        if allowed[k] == *name {
            assert(crate::text::views(allowed@)[k as int] == name@);
            return true;
        }
        k = k + 1;
    }
    assert forall|j: int| 0 <= j < allowed@.len() implies crate::text::views(allowed@)[j] != name@ by {
        assert(crate::text::views(allowed@)[j] == allowed@[j]@);
    }
    false
}

/// Applies a sparse fieldset: with an allow-list, only the members of
/// `available` that it names; without one, all of them.
pub fn extract_filtered(available: Attributes, allowed: Option<&Vec<String>>) -> (r: Attributes)
    ensures
        members_view(r@) == sparse(
            members_view(available@),
            match allowed {
                Some(a) => Some(crate::text::views(a@)),
                None => None,
            },
        ),
{
    match allowed {
        None => available,
        Some(list) => {
            let mut out: Vec<(String, Value)> = Vec::new();
            let mut k: usize = 0;
            let ghost avail = members_view(available@);
            let ghost names = crate::text::views(list@);
            while k < available.len()
                invariant
                    k <= available@.len(),
                    avail == members_view(available@),
                    names == crate::text::views(list@),
                    members_view(out@) == keep_allowed(avail.take(k as int), names),
                decreases available@.len() - k,
            {
                assert(avail.take(k + 1).drop_last() =~= avail.take(k as int));
                assert(avail.take(k + 1).last() == (available@[k as int].0@, available@[k as int].1));
                if allows(list, &available[k].0) {
                    let ghost before = out@;
                    out.push((available[k].0.clone(), available[k].1.clone()));
                    assert(members_view(out@) =~= members_view(before).push(avail[k as int]));
                }
                k = k + 1;
            }
            assert(avail.take(available@.len() as int) =~= avail);
            out
        },
    }
}

} // verus!
