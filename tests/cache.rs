use serde_json::Value;
use yajac::cache::Cache;
use yajac::identifier::Identifier;
use yajac::json::extract_filtered;
use yajac::resource::Resource;
use yajac::table::{Identifiable, Table};

fn resource(kind: &str, id: &str, note: &str) -> Resource {
    Resource {
        identifier: Identifier::existing(kind, id),
        attributes: Some(vec![("note".to_string(), Value::from(note))]),
        relationships: None,
        links: None,
        meta: None,
    }
}

#[test]
fn register_replaces_same_identifier() {
    let mut c = Cache::new();
    assert!(c.is_empty());
    c.register(resource("a", "1", "first"));
    c.register(resource("a", "2", "other"));
    let id = c.register(resource("a", "1", "second"));
    assert_eq!(id, Identifier::existing("a", "1"));
    assert_eq!(c.values().len(), 2);
    let got = c.get(&Identifier::existing("a", "1")).unwrap();
    assert_eq!(got.attributes.as_ref().unwrap()[0].1, Value::from("second"));
    assert!(!c.has(&Identifier::existing("b", "1")));
    assert!(c.get(&Identifier::existing("b", "1")).is_none());
}

#[test]
fn extract_filtered_keeps_allowed_members() {
    let avail = vec![
        ("name".to_string(), Value::from("n")),
        ("age".to_string(), Value::from(3)),
        ("active".to_string(), Value::Bool(false)),
    ];
    let allowed = vec!["active".to_string(), "name".to_string(), "nope".to_string()];
    let out = extract_filtered(avail.clone(), Some(&allowed));
    let names: Vec<&str> = out.iter().map(|(k, _)| k.as_str()).collect();
    assert_eq!(names, vec!["name", "active"]);
    assert_eq!(extract_filtered(avail.clone(), None), avail);
    assert!(extract_filtered(avail, Some(&vec![])).is_empty());
}

#[derive(Clone, Debug, PartialEq)]
struct Row {
    id: String,
    v: u8,
}

impl Identifiable for Row {
    fn get_id(&self) -> String {
        self.id.clone()
    }
}

#[test]
fn table_find_and_all() {
    let mut t: Table<Row> = Table::new();
    assert!(t.all().is_empty());
    t.insert(Row { id: "x".to_string(), v: 1 });
    t.insert(Row { id: "y".to_string(), v: 2 });
    t.insert(Row { id: "x".to_string(), v: 3 });
    assert_eq!(t.all().len(), 3);
    assert_eq!(t.find(&"x".to_string()), Some(Row { id: "x".to_string(), v: 1 }));
    assert_eq!(t.find(&"y".to_string()).unwrap().v, 2);
    assert_eq!(t.find(&"z".to_string()), None);
}
