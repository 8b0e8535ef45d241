use sketch3::config::Config;
use sketch3::yaml::{path_from_str, PathEntry};
use sketch3::yaml_value::{
    as_sequence, as_string, generate_env, get_env, get_field, get_fields, set_field, set_field_in_mapping,
    set_field_in_sequence, YamlField, YamlValue,
};

fn text(s: &str) -> YamlValue {
    YamlValue::Text(s.to_string())
}

fn map(entries: Vec<(&str, YamlValue)>) -> YamlValue {
    YamlValue::Mapping(entries.into_iter().map(|(k, v)| (text(k), v)).collect())
}

fn get<'a>(v: &'a YamlValue, key: &str) -> Option<&'a YamlValue> {
    match v {
        YamlValue::Mapping(es) => es.iter().find(|(k, _)| matches!(k, YamlValue::Text(t) if t == key)).map(|(_, v)| v),
        _ => None,
    }
}

fn text_of(v: Option<&YamlValue>) -> Option<String> {
    v.and_then(as_string)
}

fn names(p: &Vec<PathEntry>) -> Vec<String> {
    p.iter()
        .map(|e| match e {
            PathEntry::Field(f) => f.clone(),
            PathEntry::Index(i) => format!("#{}", i),
        })
        .collect()
}

fn document() -> YamlValue {
    map(vec![(
        "spec",
        map(vec![(
            "containers",
            YamlValue::Sequence(vec![
                map(vec![("name", text("api")), ("image", text("reg/api:1.0"))]),
                map(vec![("name", text("worker")), ("image", text("reg/worker:2.0"))]),
                map(vec![("name", text("sidecar"))]),
            ]),
        )]),
    )])
}

#[test]
fn scalars_have_text() {
    assert_eq!(as_string(&YamlValue::Bool(true)), Some("true".to_string()));
    assert_eq!(as_string(&YamlValue::Bool(false)), Some("false".to_string()));
    assert_eq!(as_string(&YamlValue::Number("42".to_string())), Some("42".to_string()));
    assert_eq!(as_string(&text("x")), Some("x".to_string()));
    assert_eq!(as_string(&YamlValue::Tagged("!t".to_string(), Box::new(text("in")))), Some("in".to_string()));
    assert_eq!(as_string(&YamlValue::Null), None);
    assert_eq!(as_string(&YamlValue::Sequence(vec![])), None);
}

#[test]
fn get_field_follows_mappings_only() {
    let doc = map(vec![("a", map(vec![("b", text("deep"))])), ("s", YamlValue::Sequence(vec![text("x")]))]);
    let f = get_field(&doc, "/a/b", vec![]).unwrap();
    assert_eq!(as_string(f.value), Some("deep".to_string()));
    assert_eq!(names(&f.path), vec!["a", "b"]);
    assert!(get_field(&doc, "a/missing", vec![]).is_none());
    assert!(get_field(&doc, "s/0", vec![]).is_none());
    let whole = get_field(&doc, "", vec![PathEntry::Index(3)]).unwrap();
    assert_eq!(names(&whole.path), vec!["#3"]);
}

#[test]
fn get_fields_enters_every_sequence_item() {
    let doc = document();
    let found = get_fields(&doc, "spec/containers/image", vec![]);
    assert_eq!(found.len(), 2);
    assert_eq!(names(&found[0].path), vec!["spec", "containers", "#0", "image"]);
    assert_eq!(names(&found[1].path), vec!["spec", "containers", "#1", "image"]);
    assert_eq!(as_string(found[1].value), Some("reg/worker:2.0".to_string()));
    assert!(get_fields(&doc, "spec/volumes", vec![]).is_empty());
}

#[test]
fn as_sequence_splits_items() {
    let doc = document();
    let containers = get_field(&doc, "spec/containers", vec![]).unwrap();
    let items = as_sequence(containers);
    assert_eq!(items.len(), 3);
    assert_eq!(names(&items[2].path), vec!["spec", "containers"]);
    let single = as_sequence(YamlField { path: vec![], value: &doc });
    assert_eq!(single.len(), 1);
}

#[test]
fn set_field_replaces_and_creates() {
    let mut doc = document();
    let path = vec![
        PathEntry::Field("spec".to_string()),
        PathEntry::Field("containers".to_string()),
        PathEntry::Index(1),
        PathEntry::Field("image".to_string()),
    ];
    set_field(&mut doc, &path, &text("reg/worker:3.0"), false);
    let f = get_fields(&doc, "spec/containers/image", vec![]);
    assert_eq!(as_string(f[1].value), Some("reg/worker:3.0".to_string()));

    let mut missing = path.clone();
    missing[2] = PathEntry::Index(2);
    set_field(&mut doc, &missing, &text("new"), false);
    assert_eq!(get_fields(&doc, "spec/containers/image", vec![]).len(), 2);
    set_field(&mut doc, &missing, &text("new"), true);
    assert_eq!(get_fields(&doc, "spec/containers/image", vec![]).len(), 3);

    let mut past_end = path.clone();
    past_end[2] = PathEntry::Index(7);
    set_field(&mut doc, &past_end, &text("lost"), true);
    assert_eq!(get_fields(&doc, "spec/containers/name", vec![]).len(), 3);
}

#[test]
fn set_field_with_create_builds_structure() {
    let mut v = YamlValue::Null;
    set_field(&mut v, &path_from_str("a/b"), &text("x"), true);
    assert_eq!(text_of(get(get(&v, "a").unwrap(), "b")), Some("x".to_string()));
    let mut w = text("scalar");
    set_field(&mut w, &vec![PathEntry::Index(0)], &text("y"), true);
    assert!(matches!(w, YamlValue::Sequence(ref items) if items.is_empty()));
    let mut z = text("keep");
    set_field(&mut z, &path_from_str("a"), &text("y"), false);
    assert_eq!(as_string(&z), Some("keep".to_string()));
}

#[test]
fn set_field_helpers_report_their_shape() {
    let mut seq = YamlValue::Sequence(vec![text("a")]);
    let p = vec![PathEntry::Index(0)];
    assert!(set_field_in_sequence(&mut seq, &p, &p[0], &text("b"), false));
    assert!(matches!(&seq, YamlValue::Sequence(items) if as_string(&items[0]) == Some("b".to_string())));
    let q = vec![PathEntry::Field("k".to_string())];
    assert!(!set_field_in_sequence(&mut seq, &q, &q[0], &text("c"), true));
    assert!(!set_field_in_mapping(&mut seq, &p, &p[0], &text("c"), true));
    let mut m = map(vec![]);
    assert!(set_field_in_mapping(&mut m, &q, &q[0], &text("v"), true));
    assert_eq!(text_of(get(&m, "k")), Some("v".to_string()));
}

fn env_config() -> Config {
    let mut config = Config::default();
    config.gitlab.env_name_path = "name".to_string();
    config.gitlab.env_value_path = "value/text".to_string();
    config
}

#[test]
fn env_from_an_item() {
    let config = env_config();
    let item = map(vec![("name", text("PORT")), ("value", map(vec![("text", YamlValue::Number("8080".to_string()))]))]);
    let env = get_env(YamlField { path: vec![PathEntry::Index(4)], value: &item }, &config).unwrap();
    assert_eq!(env.name, "PORT");
    assert_eq!(env.value, "8080");
    assert_eq!(names(&env.source_path), vec!["#4"]);
    let no_value = map(vec![("name", text("PORT"))]);
    assert!(get_env(YamlField { path: vec![], value: &no_value }, &config).is_none());
}

#[test]
fn generated_env_reads_back() {
    let config = env_config();
    let v = generate_env("HOST".to_string(), "db".to_string(), &config.gitlab);
    assert_eq!(text_of(get(&v, "name")), Some("HOST".to_string()));
    assert_eq!(text_of(get(get(&v, "value").unwrap(), "text")), Some("db".to_string()));
    let env = get_env(YamlField { path: vec![], value: &v }, &config).unwrap();
    assert_eq!((env.name.as_str(), env.value.as_str()), ("HOST", "db"));
}
