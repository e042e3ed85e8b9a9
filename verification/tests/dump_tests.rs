use ccline::dump::{resolve_dump_path, tmp_path};

#[test]
fn resolve_dump_path_some_when_non_empty() {
    let p = resolve_dump_path(Some("/tmp/snapshot.json".to_string())).expect("some");
    assert_eq!(p, "/tmp/snapshot.json");
}

#[test]
fn resolve_dump_path_none_when_unset() {
    assert!(resolve_dump_path(None).is_none());
}

#[test]
fn resolve_dump_path_none_when_empty() {
    assert!(resolve_dump_path(Some(String::new())).is_none());
}

#[test]
fn tmp_path_appends_dot_tmp() {
    assert_eq!(tmp_path("/var/run/snapshot.json"), "/var/run/snapshot.json.tmp");
    assert_eq!(tmp_path("/var/run/snapshot"), "/var/run/snapshot.tmp");
}
