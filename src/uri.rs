//! URIs: the request URI that parameters are read from, and the links that a
//! build generates for resources and their relationships.
use vstd::prelude::*;
use vstd::string::*;
use crate::identifier::{Identifier, IdentifierView};

verus! {

/// What parsing `s` as a URI gives: `None` when it is rejected, else the
/// query component (the text after `?`), if there is one.
pub uninterp spec fn uri_parse(s: Seq<char>) -> Option<Option<Seq<char>>>;

/// Relies on `http::Uri`'s `FromStr` to accept or reject the text, and on
/// `http::Uri::query` for the query component of what it accepts.
#[verifier::external_body]
fn parse_http_uri(s: &str) -> (r: Option<Option<String>>)
    ensures
        match r {
            None => uri_parse(s@) is None,
            Some(None) => uri_parse(s@) == Some(None::<Seq<char>>),
            Some(Some(q)) => uri_parse(s@) == Some(Some(q@)),
        },
{
    match s.parse::<http::Uri>() {
        Ok(u) => Some(u.query().map(String::from)),
        Err(_) => None,
    }
}

/// A URI that has been checked by the URI parser: its text and its query.
#[derive(Debug)]
pub struct Uri {
    text: String,
    query: Option<String>,
}

impl View for Uri {
    type V = Seq<char>;

    closed spec fn view(&self) -> Seq<char> {
        self.text@
    }
}

impl Uri {
    #[verifier::type_invariant]
    spec fn accepted(&self) -> bool {
        uri_parse(self.text@) == Some(
            match self.query {
                Some(q) => Some(q@),
                None => None,
            },
        )
    }

    /// The query component of this URI.
    pub closed spec fn query_view(&self) -> Option<Seq<char>> {
        match self.query {
            Some(q) => Some(q@),
            None => None,
        }
    }

    /// Checks `s` with the URI parser.
    pub fn parse(s: &str) -> (r: Option<Uri>)
        ensures
            match r {
                Some(u) => u@ == s@ && uri_parse(s@) == Some(u.query_view()),
                None => uri_parse(s@) is None,
            },
    {
        match parse_http_uri(s) {
            None => None,
            Some(query) => Some(Uri { text: String::from_str(s), query }),
        }
    }

    /// The text of this URI.
    pub fn as_str(&self) -> (r: &str)
        ensures
            r@ == self@,
    {
        self.text.as_str()
    }

    /// The query component, if there is one.
    pub fn query(&self) -> (r: Option<&str>)
        ensures
            uri_parse(self@) == Some(self.query_view()),
            match r {
                Some(q) => self.query_view() == Some(q@),
                None => self.query_view() is None,
            },
    {
        proof {
            use_type_invariant(self);
        }
        match &self.query {
            Some(q) => Some(q.as_str()),
            None => None,
        }
    }
}

impl Clone for Uri {
    fn clone(&self) -> (r: Uri)
        ensures
            r@ == self@,
            r.query_view() == self.query_view(),
    {
        proof {
            use_type_invariant(self);
        }
        Uri {
            text: self.text.clone(),
            query: match &self.query {
                Some(q) => Some(q.clone()),
                None => None,
            },
        }
    }
}

// ---------------------------------------------------------------------------
// Link templates.

/// `{base}/{kind}/{id}`.
pub open spec fn resource_text(base: Seq<char>, kind: Seq<char>, id: Seq<char>) -> Seq<char> {
    base + seq!['/'] + kind + seq!['/'] + id
}

/// `{resource}/relationships/{name}`.
pub open spec fn relationship_text(resource: Seq<char>, name: Seq<char>) -> Seq<char> {
    resource + "/relationships/"@ + name
}

/// `{resource}/{name}`.
pub open spec fn related_text(resource: Seq<char>, name: Seq<char>) -> Seq<char> {
    resource + seq!['/'] + name
}

/// The text of the link to the resource `id`; none for an unpersisted one.
pub open spec fn resource_link_text(base: Seq<char>, id: IdentifierView) -> Option<Seq<char>> {
    match id {
        IdentifierView::Existing { kind, id } => Some(resource_text(base, kind, id)),
        IdentifierView::New { .. } => None,
    }
}

/// The link a template gives, when the URI parser accepts its text.
pub open spec fn checked(text: Option<Seq<char>>) -> Option<Seq<char>> {
    match text {
        Some(t) => if uri_parse(t) is Some {
            Some(t)
        } else {
            None
        },
        None => None,
    }
}

pub open spec fn resource_link_spec(base: Seq<char>, id: IdentifierView) -> Option<Seq<char>> {
    checked(resource_link_text(base, id))
}

pub open spec fn relationship_link_spec(base: Seq<char>, id: IdentifierView, name: Seq<char>) -> Option<Seq<char>> {
    match resource_link_spec(base, id) {
        Some(r) => checked(Some(relationship_text(r, name))),
        None => None,
    }
}

pub open spec fn related_link_spec(base: Seq<char>, id: IdentifierView, name: Seq<char>) -> Option<Seq<char>> {
    match resource_link_spec(base, id) {
        Some(r) => checked(Some(related_text(r, name))),
        None => None,
    }
}

/// Links are fixed by the base, the identifier and the relationship name
/// alone; the relationship and related links extend the resource link.
pub proof fn lemma_link_shapes(base: Seq<char>, id: IdentifierView, name: Seq<char>)
    ensures
        resource_link_spec(base, id) matches Some(r) ==> {
            &&& (relationship_link_spec(base, id, name) matches Some(l) ==> l == r + "/relationships/"@ + name)
            &&& (related_link_spec(base, id, name) matches Some(l) ==> l == r + seq!['/'] + name)
        },
        resource_link_spec(base, id) is None ==> relationship_link_spec(base, id, name) is None
            && related_link_spec(base, id, name) is None,
        id is New ==> resource_link_spec(base, id) is None,
{
}

pub open spec fn opt_uri_view(u: Option<Uri>) -> Option<Seq<char>> {
    match u {
        Some(x) => Some(x@),
        None => None,
    }
}

/// The link to the resource `identifier` under `base`. There is none for an
/// unpersisted resource, which has no address, nor when the URI parser
/// rejects the text.
pub fn resource_link(base: &str, identifier: &Identifier) -> (r: Option<Uri>)
    ensures
        opt_uri_view(r) == resource_link_spec(base@, identifier@),
{
    match identifier {
        Identifier::Existing { kind, id } => {
            let mut text = String::from_str(base);
            text.append("/");
            text.append(kind.as_str());
            text.append("/");
            text.append(id.as_str());
            proof {
                reveal_strlit("/");
                assert(text@ =~= resource_text(base@, kind@, id@));
            }
            Uri::parse(text.as_str())
        },
        Identifier::New { .. } => None,
    }
}

/// The link to the relationship `name` of the resource `identifier`.
pub fn relationship_link(base: &str, identifier: &Identifier, name: &str) -> (r: Option<Uri>)
    ensures
        opt_uri_view(r) == relationship_link_spec(base@, identifier@, name@),
{
    match resource_link(base, identifier) {
        None => None,
        Some(resource) => {
            let mut text = String::from_str(resource.as_str());
            text.append("/relationships/");
            text.append(name);
            assert(text@ =~= relationship_text(resource@, name@));
            Uri::parse(text.as_str())
        },
    }
}

/// The link to what the relationship `name` of the resource `identifier` points at.
pub fn related_link(base: &str, identifier: &Identifier, name: &str) -> (r: Option<Uri>)
    ensures
        opt_uri_view(r) == related_link_spec(base@, identifier@, name@),
{
    match resource_link(base, identifier) {
        None => None,
        Some(resource) => {
            let mut text = String::from_str(resource.as_str());
            text.append("/");
            text.append(name);
            proof {
                reveal_strlit("/");
            }
            assert(text@ =~= related_text(resource@, name@));
            Uri::parse(text.as_str())
        },
    }
}

/// Where generated links point. The templates are fixed; an implementation
/// chooses the base that every link lies under.
pub trait UriGenerator {
    /// The base of every generated link.
    spec fn base_view(&self) -> Seq<char>;

    fn base_url(&self) -> (r: String)
        ensures
            r@ == self.base_view(),
    ;

    /// `{base}/{kind}/{id}`. Only a persisted resource has an address, so an
    /// unpersisted one is left out. `None` stands for the fatal case of text
    /// that the URI parser rejects (a configuration fault); a build that meets
    /// it fails with `LinkError::Invalid`.
    fn uri_for_resource(&self, identifier: &Identifier) -> (r: Option<Uri>)
        requires
            identifier@ is Existing,
        ensures
            opt_uri_view(r) == resource_link_spec(self.base_view(), identifier@),
    {
        resource_link(self.base_url().as_str(), identifier)
    }

    /// `{resource}/relationships/{relationship}`; `None` stands for the fatal
    /// case of text that the URI parser rejects.
    fn uri_for_relationship(&self, identifier: &Identifier, relationship: &str) -> (r: Option<Uri>)
        requires
            identifier@ is Existing,
        ensures
            opt_uri_view(r) == relationship_link_spec(self.base_view(), identifier@, relationship@),
    {
        relationship_link(self.base_url().as_str(), identifier, relationship)
    }

    /// `{resource}/{relationship}`; `None` stands for the fatal case of text
    /// that the URI parser rejects.
    fn uri_for_related(&self, identifier: &Identifier, relationship: &str) -> (r: Option<Uri>)
        requires
            identifier@ is Existing,
        ensures
            opt_uri_view(r) == related_link_spec(self.base_view(), identifier@, relationship@),
    {
        related_link(self.base_url().as_str(), identifier, relationship)
    }
}

/// Links of the form `{protocol}://{host}:{namespace}/...`, or `{namespace}/...`
/// when protocol and host are both empty.
pub struct DefaultUriGenerator<'a> {
    protocol: &'a str,
    host: &'a str,
    namespace: &'a str,
}

pub open spec fn default_base(protocol: Seq<char>, host: Seq<char>, namespace: Seq<char>) -> Seq<char> {
    if protocol.len() == 0 && host.len() == 0 {
        namespace
    } else {
        protocol + "://"@ + host + seq![':'] + namespace
    }
}

impl<'a> DefaultUriGenerator<'a> {
    /// Protocol and host are either both given or both empty.
    pub fn new(protocol: &'a str, host: &'a str, namespace: &'a str) -> (r: Self)
        requires
            (protocol@.len() == 0) == (host@.len() == 0),
        ensures
            r.base_view() == default_base(protocol@, host@, namespace@),
    {
        DefaultUriGenerator { protocol, host, namespace }
    }
}

impl Default for DefaultUriGenerator<'_> {
    /// No protocol, host or namespace: links are bare paths.
    fn default() -> (r: Self)
        ensures
            r.base_view() == Seq::<char>::empty(),
    {
        proof {
            reveal_strlit("");
        }
        DefaultUriGenerator::new("", "", "")
    }
}

impl<'a> UriGenerator for DefaultUriGenerator<'a> {
    closed spec fn base_view(&self) -> Seq<char> {
        default_base(self.protocol@, self.host@, self.namespace@)
    }

    fn base_url(&self) -> (r: String) {
        if self.protocol.unicode_len() == 0 && self.host.unicode_len() == 0 {
            String::from_str(self.namespace)
        } else {
            let mut s = String::from_str(self.protocol);
            s.append("://");
            s.append(self.host);
            s.append(":");
            s.append(self.namespace);
            proof {
                reveal_strlit(":");
            }
            assert(s@ =~= default_base(self.protocol@, self.host@, self.namespace@));
            s
        }
    }
}

} // verus!
