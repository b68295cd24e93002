//! The `{type, id}` address of a resource.
use vstd::prelude::*;

verus! {

/// A resource's address: `New` for one not yet persisted (with an optional
/// local id), `Existing` for one that has an `id`.
#[derive(Debug, Eq, Hash)]
pub enum Identifier {
    New { kind: String, lid: Option<String> },
    Existing { kind: String, id: String },
}

/// The mathematical value of an `Identifier`.
pub enum IdentifierView {
    New { kind: Seq<char>, lid: Option<Seq<char>> },
    Existing { kind: Seq<char>, id: Seq<char> },
}

impl View for Identifier {
    type V = IdentifierView;

    open spec fn view(&self) -> IdentifierView {
        match self {
            Identifier::New { kind, lid } => IdentifierView::New {
                kind: kind@,
                lid: match lid {
                    Some(l) => Some(l@),
                    None => None,
                },
            },
            Identifier::Existing { kind, id } => IdentifierView::Existing { kind: kind@, id: id@ },
        }
    }
}

impl IdentifierView {
    pub open spec fn kind(self) -> Seq<char> {
        match self {
            IdentifierView::New { kind, .. } => kind,
            IdentifierView::Existing { kind, .. } => kind,
        }
    }
}

impl Identifier {
    pub fn existing(kind: &str, id: &str) -> (r: Identifier)
        ensures
            r@ == (IdentifierView::Existing { kind: kind@, id: id@ }),
    {
        Identifier::Existing { kind: String::from_str(kind), id: String::from_str(id) }
    }

    /// The type name.
    pub fn kind(&self) -> (r: &String)
        ensures
            r@ == self@.kind(),
    {
        match self {
            Identifier::New { kind, .. } => kind,
            Identifier::Existing { kind, .. } => kind,
        }
    }

    pub fn is_existing(&self) -> (r: bool)
        ensures
            r == self@ is Existing,
    {
        matches!(self, Identifier::Existing { .. })
    }
}

fn same_text(a: &Option<String>, b: &Option<String>) -> (r: bool)
    ensures
        r == (match (a, b) {
            (Some(x), Some(y)) => x@ == y@,
            (None, None) => true,
            _ => false,
        }),
{
    match (a, b) {
        (Some(x), Some(y)) => *x == *y,
        (None, None) => true,
        _ => false,
    }
}

impl PartialEq for Identifier {
    fn eq(&self, other: &Identifier) -> (r: bool)
        ensures
            r == (self@ == other@),
    {
        match (self, other) {
            (Identifier::New { kind: k1, lid: l1 }, Identifier::New { kind: k2, lid: l2 }) => {
                *k1 == *k2 && same_text(l1, l2)
            },
            (Identifier::Existing { kind: k1, id: i1 }, Identifier::Existing { kind: k2, id: i2 }) => {
                *k1 == *k2 && *i1 == *i2
            },
            _ => false,
        }
    }
}

impl vstd::std_specs::cmp::PartialEqSpecImpl for Identifier {
    open spec fn obeys_eq_spec() -> bool {
        true
    }

    open spec fn eq_spec(&self, other: &Identifier) -> bool {
        self@ == other@
    }
}

impl Clone for Identifier {
    fn clone(&self) -> (r: Identifier)
        ensures
            r@ == self@,
    {
        match self {
            Identifier::New { kind, lid } => Identifier::New {
                kind: kind.clone(),
                lid: match lid {
                    Some(l) => Some(l.clone()),
                    None => None,
                },
            },
            Identifier::Existing { kind, id } => Identifier::Existing { kind: kind.clone(), id: id.clone() },
        }
    }
}

/// Copies of a list of identifiers.
pub fn clone_identifiers(v: &Vec<Identifier>) -> (r: Vec<Identifier>)
    ensures
        r@.map_values(|i: Identifier| i@) == v@.map_values(|i: Identifier| i@),
{
    let mut out: Vec<Identifier> = Vec::new();
    let mut k: usize = 0;
    while k < v.len()
        invariant
            k <= v@.len(),
            out@.len() == k,
            forall|j: int| 0 <= j < k ==> (#[trigger] out@[j])@ == v@[j]@,
        decreases v@.len() - k,
    {
        out.push(v[k].clone());
        k = k + 1;
    }
    assert(out@.map_values(|i: Identifier| i@) =~= v@.map_values(|i: Identifier| i@));
    out
}

} // verus!
