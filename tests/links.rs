use yajac::related_data::{RelatedCollection, RelatedData, RelatedRecord};
use yajac::relationship::Linkage;
use yajac::identifier::Identifier;
use yajac::status::StatusCode;
use yajac::uri::{related_link, relationship_link, resource_link, DefaultUriGenerator, Uri, UriGenerator};

#[test]
fn default_generator_gives_bare_paths() {
    let g = DefaultUriGenerator::default();
    assert_eq!(g.base_url(), "");
    let id = Identifier::existing("users", "1");
    assert_eq!(g.uri_for_resource(&id).unwrap().as_str(), "/users/1");
    assert_eq!(g.uri_for_relationship(&id, "posts").unwrap().as_str(), "/users/1/relationships/posts");
    assert_eq!(g.uri_for_related(&id, "posts").unwrap().as_str(), "/users/1/posts");
}

#[test]
fn generator_with_host_and_namespace_only() {
    assert_eq!(DefaultUriGenerator::new("https", "api.test", "443").base_url(), "https://api.test:443");
    assert_eq!(DefaultUriGenerator::new("", "", "/v1").base_url(), "/v1");
}

#[test]
fn links_are_stable_across_calls() {
    let id = Identifier::existing("posts", "7");
    let a = relationship_link("/api", &id, "author").unwrap();
    let b = relationship_link("/api", &id, "author").unwrap();
    assert_eq!(a.as_str(), b.as_str());
    assert_eq!(a.as_str(), "/api/posts/7/relationships/author");
    assert_eq!(related_link("/api", &id, "author").unwrap().as_str(), "/api/posts/7/author");
}

#[test]
fn unpersisted_identifier_has_no_link() {
    let id = Identifier::New { kind: "users".to_string(), lid: Some("x".to_string()) };
    assert!(resource_link("", &id).is_none());
    assert!(relationship_link("", &id, "posts").is_none());
}

#[test]
fn rejected_text_has_no_link() {
    let id = Identifier::existing("users", "a b");
    assert!(resource_link("", &id).is_none());
}

#[test]
fn uri_query_component() {
    let u = Uri::parse("/users/1?include=posts").unwrap();
    assert_eq!(u.query(), Some("include=posts"));
    assert_eq!(Uri::parse("/users/1").unwrap().query(), None);
    assert!(Uri::parse("not a uri").is_none());
}

#[test]
fn status_codes_have_three_digits() {
    assert_eq!(StatusCode::from_u16(404).unwrap().as_u16(), 404);
    assert!(StatusCode::from_u16(99).is_none());
    assert!(StatusCode::from_u16(1000).is_none());
}

#[test]
fn identifier_equality_is_structural() {
    assert_eq!(Identifier::existing("a", "1"), Identifier::existing("a", "1"));
    assert_ne!(Identifier::existing("a", "1"), Identifier::existing("a", "2"));
    assert_ne!(Identifier::existing("a", "1"), Identifier::New { kind: "a".to_string(), lid: None });
}

#[test]
fn conversions_into_linkage_and_related_data() {
    let id = Identifier::existing("a", "1");
    assert!(matches!(Linkage::from(id.clone()), Linkage::ToOne(ref i) if *i == id));
    assert!(matches!(Linkage::from(vec![id.clone()]), Linkage::ToMany(ref v) if v.len() == 1));
    assert!(matches!(RelatedData::from(id.clone()), RelatedData::One(RelatedRecord::Unloaded(_))));
    assert!(matches!(RelatedData::from(vec![id]), RelatedData::Many(RelatedCollection::Unloaded(_))));
    assert!(matches!(RelatedData::default(), RelatedData::Empty));
}

#[test]
fn conversions_into_primary_content() {
    use_primary();
}

fn use_primary() {
    let r = yajac::resource::Resource {
        identifier: Identifier::existing("a", "1"),
        attributes: None,
        relationships: None,
        links: None,
        meta: None,
    };
    assert!(matches!(yajac::document::PrimaryContent::from(r), yajac::document::PrimaryContent::Record { .. }));
    assert!(matches!(
        yajac::document::PrimaryContent::from(Vec::<yajac::resource::Resource>::new()),
        yajac::document::PrimaryContent::Collection { ref data } if data.is_empty()
    ));
    assert!(matches!(
        yajac::document::PrimaryContent::from(vec![yajac::error::Error::default()]),
        yajac::document::PrimaryContent::Errors { ref errors } if errors.len() == 1
    ));
}
