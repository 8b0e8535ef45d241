use sketch3::files::{bytes_to_human_readable, FileEntry, Restriction};
use sketch3::models::{ArtifactIdentifier, EditorContext};

#[test]
fn sizes_use_the_largest_unit() {
    assert_eq!(bytes_to_human_readable(0), "0 B");
    assert_eq!(bytes_to_human_readable(1023), "1023 B");
    assert_eq!(bytes_to_human_readable(1024), "1 KB");
    assert_eq!(bytes_to_human_readable(1536), "2 KB");
    assert_eq!(bytes_to_human_readable(2560), "2 KB");
    assert_eq!(bytes_to_human_readable(1535), "1 KB");
    assert_eq!(bytes_to_human_readable(5 * 1024 * 1024), "5 MB");
    assert_eq!(bytes_to_human_readable(3 * 1024 * 1024 * 1024), "3 GB");
    assert_eq!(bytes_to_human_readable(1024u64.pow(4) * 10), "10 TB");
    assert_eq!(bytes_to_human_readable(u64::MAX), "16777216 TB");
}

fn entry(is_file: bool) -> FileEntry {
    FileEntry {
        len: 10,
        is_file,
        is_dir: !is_file,
        created: 0,
        modified: 0,
        accessed: 0,
        path: "/tmp/x".to_string(),
        file_name: "x".to_string(),
    }
}

#[test]
fn restrictions_combine() {
    let f = entry(true);
    let d = entry(false);
    assert!(f.fullfills(&Restriction::File, false));
    assert!(!d.fullfills(&Restriction::File, false));
    assert!(d.fullfills(&Restriction::Folder, false));
    assert!(f.fullfills(&Restriction::Unrestricted, false));
    assert!(f.fullfills(&Restriction::Main, true));
    assert!(!f.fullfills(&Restriction::Main, false));
    let not_main_file = Restriction::And(Box::new(Restriction::File), Box::new(Restriction::Not(Box::new(Restriction::Main))));
    assert!(f.fullfills(&not_main_file, false));
    assert!(!f.fullfills(&not_main_file, true));
    assert!(!d.fullfills(&not_main_file, false));
}

#[test]
fn editor_tracks_changes() {
    let mut e = EditorContext::new(7u32, "{\"a\": 1}".to_string());
    assert!(!e.has_changes());
    assert!(!e.always_saveable);
    e.text.push_str(" ");
    assert!(e.has_changes());
    let parsed = e.get_changed_data(|t| if t.trim() == "{\"a\": 1}" { Ok(1) } else { Err("bad".to_string()) });
    assert_eq!(parsed, Ok(1));
    e.reset();
    assert!(!e.has_changes());
    assert_eq!(e.text, "{\"a\": 1}");
    let e = e.always_saveable();
    assert!(e.always_saveable);
    assert_eq!(e.orignal_data, 7);
}

#[test]
fn artifact_reference_with_tag() {
    let id = ArtifactIdentifier {
        domain: "registry.example.com".to_string(),
        project: "team".to_string(),
        path: "service/api".to_string(),
        tag: "1.0".to_string(),
    };
    assert_eq!(id.to_string_with_tag("2.3.4"), "registry.example.com/team/service/api:2.3.4");
}

use sketch3::files::sort;
use sketch3::tab::{SortingColumn, TabSorting};
use sketch3::uptime::{format_delta, get_next_event, Event, EventType};

fn named(name: &str, is_file: bool, len: u64, modified: i64) -> FileEntry {
    FileEntry {
        len,
        is_file,
        is_dir: !is_file,
        created: 0,
        modified,
        accessed: 0,
        path: format!("/home/{}", name),
        file_name: name.to_string(),
    }
}

fn order(files: &Vec<FileEntry>) -> Vec<String> {
    files.iter().map(|f| f.file_name.clone()).collect()
}

#[test]
fn listing_sorts_folders_first_then_by_column() {
    let mut files = vec![
        named("b.txt", true, 30, 5),
        named("src", false, 0, 9),
        named("a.txt", true, 10, 7),
        named("Docs", false, 0, 1),
        named("c.txt", true, 20, 6),
    ];
    sort(&mut files, &TabSorting { reverse: false, column: SortingColumn::Filename });
    assert_eq!(order(&files), vec!["Docs", "src", "a.txt", "b.txt", "c.txt"]);
    sort(&mut files, &TabSorting { reverse: false, column: SortingColumn::Size });
    assert_eq!(order(&files), vec!["Docs", "src", "a.txt", "c.txt", "b.txt"]);
    sort(&mut files, &TabSorting { reverse: false, column: SortingColumn::Date });
    assert_eq!(order(&files), vec!["Docs", "src", "b.txt", "c.txt", "a.txt"]);
    sort(&mut files, &TabSorting { reverse: true, column: SortingColumn::Filename });
    assert_eq!(order(&files), vec!["c.txt", "b.txt", "a.txt", "src", "Docs"]);
}

#[test]
fn listing_sort_keeps_equal_entries_in_order() {
    let mut files = vec![named("x", true, 5, 0), named("y", true, 5, 0), named("z", true, 1, 0)];
    sort(&mut files, &TabSorting { reverse: false, column: SortingColumn::Size });
    assert_eq!(order(&files), vec!["z", "x", "y"]);
    let mut empty: Vec<FileEntry> = vec![];
    sort(&mut empty, &TabSorting { reverse: false, column: SortingColumn::Date });
    assert!(empty.is_empty());
}

#[test]
fn durations_in_hours_and_minutes() {
    assert_eq!(format_delta(0), "0m");
    assert_eq!(format_delta(59), "0m");
    assert_eq!(format_delta(5 * 60), "5m");
    assert_eq!(format_delta(2 * 3600), "2h");
    assert_eq!(format_delta(2 * 3600 + 5 * 60 + 30), "2h 5m");
    assert_eq!(format_delta(-5 * 60), "-5m");
    assert_eq!(format_delta(-(2 * 3600 + 5 * 60)), "-5m");
    assert_eq!(format_delta(i64::MIN), "-30m");
}

#[test]
fn next_event_after_a_time() {
    let events = vec![
        Event { event_type: EventType::Come, time: 8 * 3600 },
        Event { event_type: EventType::Leave, time: 12 * 3600 },
        Event { event_type: EventType::Come, time: 13 * 3600 },
    ];
    assert_eq!(get_next_event(&events, 11 * 3600 + 55 * 60), Some(12 * 3600));
    assert_eq!(get_next_event(&events, 12 * 3600), Some(13 * 3600));
    assert_eq!(get_next_event(&events, 0), Some(8 * 3600));
    assert_eq!(get_next_event(&events, 14 * 3600), None);
    assert_eq!(get_next_event(&vec![], 0), None);
}

use sketch3::config::{Deployment, Source};

fn deployment(env: &str, source: Source) -> Deployment {
    Deployment { name: "svc".to_string(), env: env.to_string(), path: "deploy/svc.yaml".to_string(), source, git_project: None }
}

#[test]
fn deployment_settings_prefer_the_single_value() {
    let table = vec![("dev".to_string(), "secret/dev".to_string()), ("prod".to_string(), "secret/prod".to_string())];
    let mut source = Source::default();
    source.vault_paths = Some(table.clone());
    assert_eq!(deployment("prod", source.clone()).vault_path(), Some("secret/prod".to_string()));
    assert_eq!(deployment("test", source.clone()).vault_path(), None);
    source.vault_path = Some("secret/all".to_string());
    assert_eq!(deployment("prod", source.clone()).vault_path(), Some("secret/all".to_string()));
    source.argocd_endpoints = Some(vec![("dev".to_string(), "https://argo-dev".to_string())]);
    assert_eq!(deployment("dev", source.clone()).argocd_endpoint(), Some("https://argo-dev".to_string()));
    assert_eq!(deployment("prod", source.clone()).argocd_endpoint(), None);
    assert_eq!(deployment("dev", source.clone()).argocd_prefix(), None);
    source.argocd_prefix = Some("team".to_string());
    assert_eq!(deployment("dev", source).argocd_prefix(), Some("team-".to_string()));
}
