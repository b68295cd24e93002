use serde_json::Value;
use yajac::cache::Cache;
use yajac::context::{
    assemble_resource, finish_document, link_related_data, make_resource, to_document, Content, Context, LinkError, Relationships,
    Resourceful,
};
use yajac::document::PrimaryContent;
use yajac::error::Error;
use yajac::identifier::Identifier;
use yajac::json::{extract_filtered, Attributes};
use yajac::links::Link;
use yajac::params::Parameters;
use yajac::related_data::{RelatedCollection, RelatedData, RelatedRecord};
use yajac::relationship::Linkage;
use yajac::resource::Resource;
use yajac::uri::{DefaultUriGenerator, Uri, UriGenerator};

#[derive(Clone)]
enum Rel {
    One(&'static str, Option<Node>),
    Many(&'static str, Vec<Node>),
}

#[derive(Clone)]
struct Node {
    kind: &'static str,
    id: String,
    attrs: Vec<(&'static str, Value)>,
    rels: Vec<Rel>,
}

fn node(kind: &'static str, id: &str) -> Node {
    Node { kind, id: id.to_string(), attrs: vec![], rels: vec![] }
}

impl Resourceful for Node {
    fn kind(&self) -> &'static str {
        self.kind
    }

    fn identifier(&self) -> Identifier {
        Identifier::existing(self.kind, &self.id)
    }

    fn attributes<G: UriGenerator>(&self, context: &Context<G>) -> Option<Attributes> {
        let all: Attributes = self.attrs.iter().map(|(k, v)| (k.to_string(), v.clone())).collect();
        Some(extract_filtered(all, context.fields_for(self.kind)))
    }

    fn relationships<G: UriGenerator>(&self, context: &mut Context<G>) -> Option<Relationships> {
        if self.rels.is_empty() {
            return None;
        }
        let mut out = Vec::new();
        for rel in &self.rels {
            match rel {
                Rel::One(name, model) => out.push(context.link_one(name, model.clone())),
                Rel::Many(name, models) => out.push(context.link_many(name, models.clone())),
            }
        }
        Some(out)
    }
}

/// A model whose relationship points back at the other of a pair, forever.
struct Looper {
    id: &'static str,
}

impl Resourceful for Looper {
    fn kind(&self) -> &'static str {
        "loops"
    }

    fn identifier(&self) -> Identifier {
        Identifier::existing("loops", self.id)
    }

    fn relationships<G: UriGenerator>(&self, context: &mut Context<G>) -> Option<Relationships> {
        let other = if self.id == "a" { "b" } else { "a" };
        Some(vec![context.link_one("next", Some(Looper { id: other }))])
    }
}

fn user() -> Node {
    let mut u = node("users", "1");
    u.attrs = vec![
        ("name", Value::from("Ann")),
        ("age", Value::from(35)),
        ("active", Value::Bool(true)),
    ];
    u
}

fn uri(s: &str) -> Uri {
    Uri::parse(s).unwrap()
}

fn build(model: &Node, at: &str) -> yajac::document::Document {
    to_document(Content::Resource(model), DefaultUriGenerator::default(), uri(at)).unwrap()
}

fn record(doc: &yajac::document::Document) -> &Resource {
    match &doc.content {
        PrimaryContent::Record { data } => data,
        _ => panic!("expected a single resource"),
    }
}

fn attr_names(r: &Resource) -> Vec<String> {
    let mut names: Vec<String> = r.attributes.as_ref().unwrap().iter().map(|(k, _)| k.clone()).collect();
    names.sort();
    names
}

fn relationship<'a>(r: &'a Resource, name: &str) -> &'a yajac::relationship::Relationship {
    &r.relationships.as_ref().unwrap().iter().find(|(n, _)| n == name).unwrap().1
}

fn ids(linkage: &Linkage) -> Vec<(String, String)> {
    let one = |i: &Identifier| match i {
        Identifier::Existing { kind, id } => (kind.clone(), id.clone()),
        Identifier::New { .. } => panic!("unexpected new identifier"),
    };
    match linkage {
        Linkage::Empty => vec![],
        Linkage::ToOne(i) => vec![one(i)],
        Linkage::ToMany(v) => v.iter().map(one).collect(),
    }
}

fn included_ids(doc: &yajac::document::Document) -> Vec<(String, String)> {
    let mut v: Vec<(String, String)> = doc
        .included
        .as_ref()
        .map(|inc| inc.iter().map(|r| ids(&Linkage::ToOne(r.identifier.clone()))[0].clone()).collect())
        .unwrap_or_default();
    v.sort();
    v
}

fn pair(k: &str, i: &str) -> (String, String) {
    (k.to_string(), i.to_string())
}

#[test]
fn single_resource_without_relationships() {
    let doc = build(&user(), "/users/1");
    let r = record(&doc);
    assert_eq!(r.identifier, Identifier::existing("users", "1"));
    assert_eq!(attr_names(r), vec!["active", "age", "name"]);
    assert_eq!(r.links.as_ref().unwrap().this.as_str(), "/users/1");
    assert!(r.relationships.is_none());
    assert!(doc.included.is_none());
    assert_eq!(doc.jsonapi.as_ref().unwrap().version.as_deref(), Some("1.1"));
    match &doc.links.as_ref().unwrap().this {
        Some(Link::Uri(u)) => assert_eq!(u.as_str(), "/users/1"),
        _ => panic!("expected a self link"),
    }
}

#[test]
fn empty_to_one_relationship() {
    let mut u = user();
    u.rels = vec![Rel::One("posts", None)];
    let doc = build(&u, "/users/1");
    let rel = relationship(record(&doc), "posts");
    assert!(matches!(rel.data, Some(Linkage::Empty)));
    let links = rel.links.as_ref().unwrap();
    assert_eq!(links.this.as_ref().unwrap().as_str(), "/users/1/relationships/posts");
    assert_eq!(links.related.as_ref().unwrap().as_str(), "/users/1/posts");
    assert!(doc.included.is_none());
}

#[test]
fn default_inclusion_of_to_many() {
    let mut u = user();
    u.rels = vec![Rel::Many("posts", vec![node("posts", "first"), node("posts", "second")])];
    let doc = build(&u, "/users/1");
    let rel = relationship(record(&doc), "posts");
    assert_eq!(ids(rel.data.as_ref().unwrap()), vec![pair("posts", "first"), pair("posts", "second")]);
    assert_eq!(included_ids(&doc), vec![pair("posts", "first"), pair("posts", "second")]);
}

#[test]
fn explicit_include_list() {
    let mut u = user();
    u.rels = vec![
        Rel::Many("posts", vec![node("posts", "first")]),
        Rel::Many("comments", vec![node("comments", "c1")]),
    ];
    let doc = build(&u, "/users/1?include=comments");
    let r = record(&doc);
    assert_eq!(ids(relationship(r, "posts").data.as_ref().unwrap()), vec![pair("posts", "first")]);
    assert_eq!(ids(relationship(r, "comments").data.as_ref().unwrap()), vec![pair("comments", "c1")]);
    assert_eq!(included_ids(&doc), vec![pair("comments", "c1")]);
}

#[test]
fn sparse_fieldset() {
    let doc = build(&user(), "/users/1?fields[users]=name,active");
    assert_eq!(attr_names(record(&doc)), vec!["active", "name"]);
}

#[test]
fn sparse_fieldset_ignores_unknown_names_and_other_types() {
    let doc = build(&user(), "/users/1?fields[users]=name,missing&fields[posts]=title");
    assert_eq!(attr_names(record(&doc)), vec!["name"]);
    let doc = build(&user(), "/users/1?fields[posts]=title");
    assert_eq!(attr_names(record(&doc)), vec!["active", "age", "name"]);
}

#[test]
fn diamond_is_included_once() {
    let shared = node("tags", "t1");
    let mut b = node("posts", "first");
    b.rels = vec![Rel::One("tag", Some(shared.clone()))];
    let mut c = node("posts", "second");
    c.rels = vec![Rel::One("tag", Some(shared))];
    let mut u = user();
    u.rels = vec![Rel::Many("posts", vec![b, c])];
    let doc = build(&u, "/users/1");
    assert_eq!(
        included_ids(&doc),
        vec![pair("posts", "first"), pair("posts", "second"), pair("tags", "t1")]
    );
}

#[test]
fn same_model_twice_in_one_relationship_is_included_once() {
    let mut u = user();
    u.rels = vec![Rel::Many("posts", vec![node("posts", "first"), node("posts", "first")])];
    let doc = build(&u, "/users/1");
    assert_eq!(included_ids(&doc), vec![pair("posts", "first")]);
}

#[test]
fn cycle_ends_with_identifier_linkage() {
    let a = Looper { id: "a" };
    let doc = to_document(Content::Resource(&a), DefaultUriGenerator::default(), uri("/loops/a")).unwrap();
    let r = match &doc.content {
        PrimaryContent::Record { data } => data,
        _ => panic!("expected a single resource"),
    };
    let next = &r.relationships.as_ref().unwrap()[0].1;
    assert_eq!(ids(next.data.as_ref().unwrap()), vec![pair("loops", "b")]);
    assert_eq!(included_ids(&doc), vec![pair("loops", "b")]);
}

#[test]
fn collection_keeps_order() {
    let models = vec![node("posts", "second"), node("posts", "first")];
    let refs: Vec<&Node> = models.iter().collect();
    let doc = to_document(Content::Collection(refs), DefaultUriGenerator::default(), uri("/posts")).unwrap();
    match &doc.content {
        PrimaryContent::Collection { data } => {
            assert_eq!(data.len(), 2);
            assert_eq!(data[0].identifier, Identifier::existing("posts", "second"));
            assert_eq!(data[1].identifier, Identifier::existing("posts", "first"));
        }
        _ => panic!("expected a collection"),
    }
    assert!(doc.included.is_none());
}

#[test]
fn errors_document_has_no_data() {
    let doc = to_document::<Node, _>(
        Content::Errors(vec![Error::default()]),
        DefaultUriGenerator::default(),
        uri("/users/1"),
    )
    .unwrap();
    match &doc.content {
        PrimaryContent::Errors { errors } => {
            assert_eq!(errors.len(), 1);
            assert_eq!(errors[0].status.unwrap().as_u16(), 500);
            assert_eq!(errors[0].code.as_deref(), Some("InternalServerFault"));
        }
        _ => panic!("expected errors"),
    }
    assert!(doc.included.is_none());
}

#[test]
fn data_document_has_no_errors() {
    let doc = build(&user(), "/users/1");
    assert!(!matches!(doc.content, PrimaryContent::Errors { .. }));
}

#[test]
fn unpersisted_model_fails_the_build() {
    struct Draft;
    impl Resourceful for Draft {
        fn kind(&self) -> &'static str {
            "drafts"
        }
        fn identifier(&self) -> Identifier {
            Identifier::New { kind: "drafts".to_string(), lid: None }
        }
    }
    let r = to_document(Content::Resource(&Draft), DefaultUriGenerator::default(), uri("/drafts"));
    assert!(matches!(r, Err(LinkError::Unpersisted)));
}

#[test]
fn invalid_link_fails_the_build() {
    let m = node("users", "has space");
    let r = to_document(Content::Resource(&m), DefaultUriGenerator::default(), uri("/users"));
    assert!(matches!(r, Err(LinkError::Invalid)));
}

#[test]
fn links_use_the_generator_base() {
    let g = DefaultUriGenerator::new("http", "example.com", "8080");
    let doc = to_document(Content::Resource(&user()), g, uri("/users/1")).unwrap();
    assert_eq!(record(&doc).links.as_ref().unwrap().this.as_str(), "http://example.com:8080/users/1");
}

#[test]
fn link_one_default_is_loaded_and_include_list_is_not() {
    let g = DefaultUriGenerator::default();
    let mut ctx = Context::new(Parameters::default(), &g);
    let (name, data) = ctx.link_one("author", Some(node("users", "9")));
    assert_eq!(name, "author");
    assert!(matches!(data, RelatedData::One(RelatedRecord::Loaded(_))));

    let params = Parameters::parse_query("include=comments");
    let mut ctx = Context::new(params, &g);
    let (_, data) = ctx.link_one("author", Some(node("users", "9")));
    match data {
        RelatedData::One(RelatedRecord::Unloaded(id)) => assert_eq!(id, Identifier::existing("users", "9")),
        _ => panic!("expected an unloaded record"),
    }
    let (_, data) = ctx.link_many("comments", vec![node("comments", "c")]);
    assert!(matches!(data, RelatedData::Many(RelatedCollection::Loaded(_))));
    let (_, data) = ctx.link_one("author", Option::<Node>::None);
    assert!(matches!(data, RelatedData::Empty));
}

#[test]
fn make_resource_reuses_cached_resource() {
    let g = DefaultUriGenerator::default();
    let mut ctx = Context::new(Parameters::default(), &g);
    let (_, data) = ctx.link_one("author", Some(user()));
    let mut cache = Cache::new();
    let linkage = link_related_data(data, &mut cache);
    assert_eq!(ids(&linkage), vec![pair("users", "1")]);
    assert!(cache.has(&Identifier::existing("users", "1")));
    let r = make_resource(&user(), &mut ctx);
    assert_eq!(r.identifier, Identifier::existing("users", "1"));
}

#[test]
fn links_under_a_namespace_base() {
    let mut u = user();
    u.rels = vec![Rel::One("author", Some(node("users", "2")))];
    let g = DefaultUriGenerator::new("", "", "/api");
    let doc = to_document(Content::Resource(&u), g, uri("/api/users/1")).unwrap();
    let r = record(&doc);
    assert_eq!(r.links.as_ref().unwrap().this.as_str(), "/api/users/1");
    let links = relationship(r, "author").links.as_ref().unwrap();
    assert_eq!(links.this.as_ref().unwrap().as_str(), "/api/users/1/relationships/author");
    assert_eq!(links.related.as_ref().unwrap().as_str(), "/api/users/1/author");
    let inc = doc.included.as_ref().unwrap();
    assert_eq!(inc[0].links.as_ref().unwrap().this.as_str(), "/api/users/2");
}

#[test]
fn assemble_resource_links_every_part() {
    let g = DefaultUriGenerator::new("", "", "/x");
    let mut ctx = Context::new(Parameters::default(), &g);
    let rels = vec![
        ("author".to_string(), RelatedData::from(Identifier::existing("users", "2"))),
        ("tags".to_string(), RelatedData::Empty),
    ];
    let attrs = vec![("title".to_string(), Value::from("t"))];
    let r = assemble_resource(Identifier::existing("posts", "9"), Some(attrs.clone()), Some(rels), None, &g, &mut ctx);
    assert_eq!(r.identifier, Identifier::existing("posts", "9"));
    assert_eq!(r.attributes, Some(attrs));
    assert_eq!(r.links.as_ref().unwrap().this.as_str(), "/x/posts/9");
    let author = relationship(&r, "author");
    assert_eq!(ids(author.data.as_ref().unwrap()), vec![pair("users", "2")]);
    assert_eq!(author.links.as_ref().unwrap().related.as_ref().unwrap().as_str(), "/x/posts/9/author");
    assert!(matches!(relationship(&r, "tags").data, Some(Linkage::Empty)));
    assert!(ctx.failure().is_none());

    let r = assemble_resource(Identifier::New { kind: "posts".to_string(), lid: None }, None, None, None, &g, &mut ctx);
    assert!(r.links.is_none());
    assert_eq!(ctx.failure(), Some(LinkError::Unpersisted));
}

#[test]
fn finish_document_fails_only_on_recorded_failure() {
    let data = Resource {
        identifier: Identifier::existing("a", "1"),
        attributes: None,
        relationships: None,
        links: None,
        meta: None,
    };
    let r = finish_document(PrimaryContent::Record { data }, Cache::new(), Some(LinkError::Invalid), uri("/a/1"));
    assert!(matches!(r, Err(LinkError::Invalid)));

    let data = Resource {
        identifier: Identifier::existing("a", "1"),
        attributes: None,
        relationships: None,
        links: None,
        meta: None,
    };
    let mut cache = Cache::new();
    cache.register(Resource {
        identifier: Identifier::existing("b", "2"),
        attributes: None,
        relationships: None,
        links: None,
        meta: None,
    });
    let doc = finish_document(PrimaryContent::Record { data }, cache, None, uri("/a/1")).unwrap();
    assert_eq!(included_ids(&doc), vec![pair("b", "2")]);
    let info = doc.jsonapi.as_ref().unwrap();
    assert_eq!(info.version.as_deref(), Some("1.1"));
    assert!(info.ext.is_none() && info.profile.is_none() && info.meta.is_none());
    assert!(doc.meta.is_none());
}
