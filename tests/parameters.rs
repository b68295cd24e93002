use yajac::params::{Parameters, SortDirection};
use yajac::uri::Uri;

fn strings(v: &[&str]) -> Vec<String> {
    v.iter().map(|s| s.to_string()).collect()
}

fn sort_of(p: &Parameters) -> Vec<(String, SortDirection)> {
    p.sort.as_ref().unwrap().iter().map(|f| (f.field.clone(), f.direction)).collect()
}

#[test]
fn no_query_gives_no_parameters() {
    let p = Parameters::new(&Uri::parse("/users").unwrap());
    assert!(p.fields.is_none() && p.includes.is_none() && p.filter.is_none() && p.sort.is_none());
}

#[test]
fn include_list_is_split_on_commas() {
    let p = Parameters::new(&Uri::parse("/users?include=posts,comments").unwrap());
    assert_eq!(p.includes, Some(strings(&["posts", "comments"])));
    assert!(p.lists("posts"));
    assert!(!p.lists("author"));
    assert!(Parameters::default().lists("anything"));
}

#[test]
fn later_include_replaces_earlier() {
    let p = Parameters::parse_query("include=a&include=b,c");
    assert_eq!(p.includes, Some(strings(&["b", "c"])));
}

#[test]
fn sort_directions_and_bad_entries() {
    let p = Parameters::parse_query("sort=name,-age,--x,_y,a-b,c_,,-");
    assert_eq!(
        sort_of(&p),
        vec![
            ("name".to_string(), SortDirection::Ascending),
            ("age".to_string(), SortDirection::Descending),
            ("a-b".to_string(), SortDirection::Ascending),
        ]
    );
}

#[test]
fn fields_by_type_and_nested_path() {
    let p = Parameters::parse_query("fields[users]=name,active&fields[a][b-c]=x");
    assert_eq!(p.fields_for("users"), Some(&strings(&["name", "active"])));
    assert_eq!(p.fields_for("a.b-c"), Some(&strings(&["x"])));
    assert_eq!(p.fields_for("posts"), None);
}

#[test]
fn repeated_fields_entry_replaces_value() {
    let p = Parameters::parse_query("fields[users]=name&fields[users]=age");
    assert_eq!(p.fields.as_ref().unwrap().len(), 1);
    assert_eq!(p.fields_for("users"), Some(&strings(&["age"])));
}

#[test]
fn filter_path_keeps_raw_value() {
    let p = Parameters::parse_query("filter[author][name]=ann,bob");
    assert_eq!(p.filter, Some(vec![("author.name".to_string(), "ann,bob".to_string())]));
}

#[test]
fn malformed_entries_are_ignored() {
    let p = Parameters::parse_query("&foo&fields=x&fields[]=y&fields[a]b=z&fields[-a]=w&[a]=v&other[a]=u&fields[a]=");
    assert!(p.includes.is_none() && p.sort.is_none() && p.filter.is_none());
    assert_eq!(p.fields, Some(vec![("a".to_string(), strings(&[""]))]));
}

#[test]
fn entry_splits_on_first_equals() {
    let p = Parameters::parse_query("include=a=b");
    assert_eq!(p.includes, Some(strings(&["a=b"])));
}

#[test]
fn empty_values_give_one_empty_piece() {
    let p = Parameters::parse_query("include=");
    assert_eq!(p.includes, Some(strings(&[""])));
    let p = Parameters::parse_query("sort=");
    assert_eq!(p.sort.as_ref().unwrap().len(), 0);
}
