use sketch3::yaml::{enrich_path_with_indices, path_from_str, starts_with, starts_with_indexonly, PathEntry, QueryPath, P};

fn field(s: &str) -> PathEntry {
    PathEntry::Field(s.to_string())
}

fn names(p: &Vec<PathEntry>) -> Vec<String> {
    p.iter()
        .map(|e| match e {
            PathEntry::Field(f) => f.clone(),
            PathEntry::Index(i) => format!("#{}", i),
        })
        .collect()
}

#[test]
fn path_from_str_drops_empty_pieces() {
    let p = path_from_str("/spec//template/containers/");
    assert_eq!(names(&p), vec!["spec", "template", "containers"]);
    assert!(path_from_str("").is_empty());
    assert!(path_from_str("///").is_empty());
}

#[test]
fn starts_with_compares_steps() {
    let path = vec![field("a"), PathEntry::Index(2), field("b")];
    assert!(starts_with(&path, &vec![field("a"), PathEntry::Index(2)]));
    assert!(!starts_with(&path, &vec![field("a"), PathEntry::Index(3)]));
    assert!(!starts_with(&path, &vec![field("x")]));
    assert!(starts_with(&path, &vec![]));
    assert!(!starts_with(&vec![field("a")], &path));
}

#[test]
fn starts_with_indexonly_ignores_field_names() {
    let path = vec![field("a"), PathEntry::Index(2), field("b")];
    assert!(starts_with_indexonly(&path, &vec![field("x"), PathEntry::Index(2), field("y")]));
    assert!(!starts_with_indexonly(&path, &vec![field("x"), PathEntry::Index(1)]));
    assert!(!starts_with_indexonly(&path, &vec![PathEntry::Index(0)]));
}

#[test]
fn enrich_inserts_indices_where_fields_agree() {
    let mut target = vec![field("spec"), field("containers"), field("env")];
    let source = vec![field("spec"), field("containers"), PathEntry::Index(1), field("image")];
    enrich_path_with_indices(&mut target, &source);
    assert_eq!(names(&target), vec!["spec", "containers", "#1", "env"]);

    let mut other = vec![field("meta"), field("name")];
    enrich_path_with_indices(&mut other, &vec![field("spec"), PathEntry::Index(0)]);
    assert_eq!(names(&other), vec!["meta", "name"]);
}

#[test]
fn query_path_walks_its_parts() {
    let mut q = QueryPath::from("a/b//c");
    assert_eq!(q.parts, vec!["a", "b", "c"]);
    assert!(q.has_next());
    assert_eq!(q.next(), Some("a"));
    assert_eq!(q.next(), Some("b"));
    assert_eq!(q.next(), Some("c"));
    assert!(!q.has_next());
    assert_eq!(q.next(), None);
    assert_eq!(q.index, 3);
}

#[test]
fn path_text_joins_steps() {
    let path = vec![field("spec"), field("items"), PathEntry::Index(12), field("name")];
    assert_eq!(P(&path).to_text(), "spec.items.[12].name");
    assert_eq!(P(&vec![]).to_text(), "");
}
