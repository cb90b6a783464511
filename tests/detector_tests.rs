use hot_reload::detector::{ChangeDetector, EventPath, RawEvent, RawKind};
use hot_reload::protocol::ChangeType;

const MS: u64 = 1_000_000;

fn path(full: &str) -> EventPath {
    EventPath {
        full: full.to_string(),
        parts: full.split('/').filter(|s| !s.is_empty()).map(|s| s.to_string()).collect(),
    }
}

fn event(kind: RawKind, full: &str) -> RawEvent {
    RawEvent { kind, paths: vec![path(full)] }
}

#[test]
fn events_inside_window_collapse_to_one() {
    let mut d = ChangeDetector::new();
    let e = event(RawKind::Modify, "/srv/resources/banking/server.lua");
    let first = d.process(&e, 5_000 * MS);
    let second = d.process(&e, 5_500 * MS);
    let c = first.expect("first change");
    assert_eq!(c.resource_name, "banking");
    assert_eq!(c.change_type, ChangeType::FileModified);
    assert_eq!(c.file_path, "/srv/resources/banking/server.lua");
    assert!(second.is_none());
}

#[test]
fn events_spaced_beyond_window_both_emit() {
    let mut d = ChangeDetector::new();
    let e = event(RawKind::Modify, "/srv/resources/banking/server.lua");
    assert!(d.process(&e, 5_000 * MS).is_some());
    assert!(d.process(&e, 6_100 * MS).is_some());
}

#[test]
fn window_is_per_path() {
    let mut d = ChangeDetector::new();
    assert!(d.process(&event(RawKind::Modify, "/r/a/x.lua"), 10 * MS).is_some());
    assert!(d.process(&event(RawKind::Modify, "/r/a/y.lua"), 20 * MS).is_some());
    assert!(d.process(&event(RawKind::Modify, "/r/a/x.lua"), 30 * MS).is_none());
}

#[test]
fn kinds_map_to_change_types() {
    let mut d = ChangeDetector::new();
    assert_eq!(d.process(&event(RawKind::Create, "/r/a/x.js"), 0).unwrap().change_type, ChangeType::FileAdded);
    assert_eq!(d.process(&event(RawKind::Remove, "/r/a/y.dll"), 0).unwrap().change_type, ChangeType::FileRemoved);
}

#[test]
fn other_kind_is_dropped_but_recorded() {
    let mut d = ChangeDetector::new();
    assert!(d.process(&event(RawKind::Other, "/r/a/x.lua"), 0).is_none());
    assert!(d.process(&event(RawKind::Modify, "/r/a/x.lua"), 500 * MS).is_none());
    assert!(d.process(&event(RawKind::Modify, "/r/a/x.lua"), 1_000 * MS).is_some());
}

#[test]
fn unrecognised_extensions_are_ignored() {
    let mut d = ChangeDetector::new();
    assert!(d.process(&event(RawKind::Modify, "/r/a/notes.txt"), 0).is_none());
    assert!(d.process(&event(RawKind::Modify, "/r/a/.lua"), 0).is_none());
}

#[test]
fn first_recognised_path_is_taken() {
    let mut d = ChangeDetector::new();
    let e = RawEvent { kind: RawKind::Modify, paths: vec![path("/r/a/notes.txt"), path("/r/b/main.lua")] };
    let c = d.process(&e, 0).unwrap();
    assert_eq!(c.resource_name, "b");
    assert_eq!(c.file_path, "/r/b/main.lua");
}

#[test]
fn resource_name_keeps_brackets() {
    let mut d = ChangeDetector::new();
    let c = d.process(&event(RawKind::Modify, "/r/[core]/init.lua"), 0).unwrap();
    assert_eq!(c.resource_name, "[core]");
}
