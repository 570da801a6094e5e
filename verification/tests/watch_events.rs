use regex::Regex;
use subwatch::subprocesses::{start, ScanEntry};
use subwatch::watch::{
    candidate_path, dispatch_resolved, handle_event, parent_of, resolve_target, EventKind,
    WatchOutcome,
};

fn entry(name: &str) -> ScanEntry {
    ScanEntry {
        name: name.to_string(),
        is_dir: true,
        uid: 1000,
        gid: 1000,
        dir: format!("root/{}", name),
    }
}

#[test]
fn parent_of_drops_last_component() {
    assert_eq!(parent_of("root/foo/bar.txt"), Some("root/foo".to_string()));
    assert_eq!(parent_of("root/foo"), Some("root".to_string()));
}

#[test]
fn parent_of_edge_cases() {
    assert_eq!(parent_of("foo"), None);
    assert_eq!(parent_of("/x"), Some("/".to_string()));
    assert_eq!(parent_of("/"), None);
    assert_eq!(parent_of(""), None);
}

#[test]
fn write_like_kinds_use_own_path() {
    for kind in [
        EventKind::NoticeWrite,
        EventKind::Create,
        EventKind::Write,
        EventKind::Chmod,
        EventKind::Rename,
    ] {
        assert_eq!(
            candidate_path(&kind, "root/foo/file.txt"),
            Some("root/foo/file.txt".to_string())
        );
    }
}

#[test]
fn remove_kinds_use_parent() {
    assert_eq!(
        candidate_path(&EventKind::Remove, "root/foo/bar.txt"),
        Some("root/foo".to_string())
    );
    assert_eq!(
        candidate_path(&EventKind::NoticeRemove, "root/foo/bar.txt"),
        Some("root/foo".to_string())
    );
}

#[test]
fn other_kinds_are_discarded() {
    assert_eq!(candidate_path(&EventKind::Other, "root/foo/file.txt"), None);
    assert_eq!(handle_event(&EventKind::Other, "root/foo/file.txt", &None), None);
}

#[test]
fn ignore_pattern_discards_matching_paths() {
    let ignore = Some(Regex::new(r".*\.tmp$").unwrap());
    assert_eq!(handle_event(&EventKind::Write, "root/foo/file.tmp", &ignore), None);
    assert_eq!(
        handle_event(&EventKind::Write, "root/foo/file.txt", &ignore),
        Some("root/foo/file.txt".to_string())
    );
}

#[test]
fn no_ignore_pattern_keeps_candidates() {
    assert_eq!(
        handle_event(&EventKind::Write, "root/foo/file.tmp", &None),
        Some("root/foo/file.tmp".to_string())
    );
}

#[test]
fn ignore_applies_to_remove_parent() {
    let ignore = Some(Regex::new(r".*/foo$").unwrap());
    assert_eq!(handle_event(&EventKind::Remove, "root/foo/bar.txt", &ignore), None);
}

#[test]
fn resolve_takes_first_component_under_root() {
    assert_eq!(resolve_target("root/foo/bar/baz.txt", "root"), Some("foo".to_string()));
    assert_eq!(resolve_target("root/foo", "root"), Some("foo".to_string()));
}

#[test]
fn resolve_handles_slashed_and_absolute_roots() {
    assert_eq!(resolve_target("/r/foo/x", "/r"), Some("foo".to_string()));
    assert_eq!(resolve_target("/r/foo/x", "/r/"), Some("foo".to_string()));
    assert_eq!(resolve_target("/foo/x", "/"), Some("foo".to_string()));
}

#[test]
fn resolve_rejects_paths_outside_root() {
    assert_eq!(resolve_target("root", "root"), None);
    assert_eq!(resolve_target("elsewhere/foo", "root"), None);
    assert_eq!(resolve_target("rootx/foo", "root"), None);
    assert_eq!(resolve_target("roo", "root"), None);
}

#[test]
fn remove_event_still_resolves_its_target() {
    let candidate = candidate_path(&EventKind::Remove, "root/foo/bar.txt").unwrap();
    assert_eq!(candidate, "root/foo");
    assert_eq!(resolve_target(&candidate, "root"), Some("foo".to_string()));
}

#[test]
fn dispatch_restarts_supervised_target() {
    let mut boot = start(vec![entry("foo"), entry("bar")], "echo {}");
    assert!(boot.registry.record_spawn("foo", 1));
    let out = dispatch_resolved(&mut boot.registry, "root/foo/file.txt", "root", "echo {}");
    match out {
        WatchOutcome::Restart(plan, name) => {
            assert_eq!(name, "foo");
            assert_eq!(plan.terminate, Some(1));
            assert_eq!(plan.spawn.command, "echo foo");
        }
        _ => panic!("expected a restart"),
    }
    assert!(boot.registry.record_spawn("foo", 2));
    assert_eq!(boot.registry.handle_of("foo"), Some(2));
}

#[test]
fn dispatch_reports_unknown_target() {
    let mut boot = start(vec![entry("foo")], "echo {}");
    let out = dispatch_resolved(&mut boot.registry, "root/quux/file.txt", "root", "echo {}");
    match out {
        WatchOutcome::UnknownTarget(name) => assert_eq!(name, "quux"),
        _ => panic!("expected an unknown-target diagnostic"),
    }
    assert_eq!(boot.registry.len(), 1);
}

#[test]
fn dispatch_reports_path_outside_root() {
    let mut boot = start(vec![entry("foo")], "echo {}");
    let out = dispatch_resolved(&mut boot.registry, "other/foo/file.txt", "root", "echo {}");
    assert!(matches!(out, WatchOutcome::NotUnderRoot));
}

#[test]
fn ignored_write_causes_no_restart_and_plain_write_one() {
    let ignore = Some(Regex::new(r".*\.tmp$").unwrap());
    let mut boot = start(vec![entry("foo")], "echo {}");
    assert!(boot.registry.record_spawn("foo", 1));

    // A write on an ignored file never reaches the registry.
    assert_eq!(handle_event(&EventKind::Write, "root/foo/file.tmp", &ignore), None);
    assert_eq!(boot.registry.handle_of("foo"), Some(1));

    // A write on any other file restarts exactly its target.
    let candidate = handle_event(&EventKind::Write, "root/foo/file.txt", &ignore).unwrap();
    let out = dispatch_resolved(&mut boot.registry, &candidate, "root", "echo {}");
    assert!(matches!(out, WatchOutcome::Restart(_, _)));
    assert!(boot.registry.record_spawn("foo", 2));
    assert_eq!(boot.registry.handle_of("foo"), Some(2));
}
