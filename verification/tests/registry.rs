use subwatch::subprocesses::{start, ScanEntry, Subprocess};

fn entry(name: &str, is_dir: bool) -> ScanEntry {
    ScanEntry {
        name: name.to_string(),
        is_dir,
        uid: 1000,
        gid: 1000,
        dir: format!("root/{}", name),
    }
}

#[test]
fn bootstrap_one_entry_per_directory() {
    let entries = vec![
        entry("foo", true),
        entry("a.txt", false),
        entry("bar", true),
        entry("b.bin", false),
        entry("baz", true),
    ];
    let boot = start(entries, "echo {}");
    assert_eq!(boot.registry.len(), 3);
    assert!(boot.registry.contains("foo"));
    assert!(boot.registry.contains("bar"));
    assert!(boot.registry.contains("baz"));
    assert!(!boot.registry.contains("a.txt"));
    assert!(!boot.registry.contains("b.bin"));
    assert_eq!(boot.skipped, vec!["a.txt".to_string(), "b.bin".to_string()]);
    assert_eq!(boot.spawns.len(), 3);
}

#[test]
fn bootstrap_substitutes_template() {
    let boot = start(vec![entry("foo", true)], "echo {}");
    assert_eq!(boot.spawns[0].command, "echo foo");
    assert_eq!(boot.spawns[0].dir, "root/foo");
    assert_eq!(boot.spawns[0].uid, 1000);
    assert_eq!(boot.spawns[0].gid, 1000);
}

#[test]
fn bootstrap_empty_root() {
    let boot = start(vec![], "echo {}");
    assert_eq!(boot.registry.len(), 0);
    assert!(boot.spawns.is_empty());
    assert!(boot.skipped.is_empty());
}

#[test]
fn restart_present_target_one_pair() {
    let mut boot = start(vec![entry("foo", true), entry("bar", true)], "echo {}");
    assert!(boot.registry.record_spawn("foo", 1));
    let plan = boot.registry.restart("foo", "echo {}").expect("foo is supervised");
    assert_eq!(plan.terminate, Some(1));
    assert_eq!(plan.spawn.command, "echo foo");
    assert_eq!(plan.spawn.dir, "root/foo");
    // Detached until the new spawn is recorded: no handle in between.
    assert_eq!(boot.registry.handle_of("foo"), None);
    assert!(boot.registry.record_spawn("foo", 2));
    assert_eq!(boot.registry.handle_of("foo"), Some(2));
    // The sibling is untouched.
    assert_eq!(boot.registry.handle_of("bar"), None);
}

#[test]
fn restart_absent_target_changes_nothing() {
    let mut boot = start(vec![entry("foo", true)], "echo {}");
    assert!(boot.registry.record_spawn("foo", 7));
    assert!(boot.registry.restart("bar", "echo {}").is_none());
    assert_eq!(boot.registry.len(), 1);
    assert_eq!(boot.registry.handle_of("foo"), Some(7));
    assert!(!boot.registry.record_spawn("bar", 9));
}

#[test]
fn sequential_restarts_are_independent_pairs() {
    let mut boot = start(vec![entry("foo", true)], "echo {}");
    assert!(boot.registry.record_spawn("foo", 1));
    let first = boot.registry.restart("foo", "echo {}").unwrap();
    assert_eq!(first.terminate, Some(1));
    assert_eq!(boot.registry.handle_of("foo"), None);
    assert!(boot.registry.record_spawn("foo", 2));
    assert_eq!(boot.registry.handle_of("foo"), Some(2));
    let second = boot.registry.restart("foo", "echo {}").unwrap();
    assert_eq!(second.terminate, Some(2));
    assert_eq!(second.spawn.command, "echo foo");
    assert!(boot.registry.record_spawn("foo", 3));
    assert_eq!(boot.registry.handle_of("foo"), Some(3));
}

#[test]
fn names_listed_in_bootstrap_order() {
    let boot = start(
        vec![entry("c", true), entry("x.txt", false), entry("a", true)],
        "run",
    );
    assert_eq!(boot.registry.names_list(), vec!["c".to_string(), "a".to_string()]);
}

#[test]
fn subprocess_start_builds_plan() {
    let mut sub = Subprocess::new("foo".to_string(), 12, 34, "root/foo".to_string());
    assert!(sub.process.is_none());
    let plan = sub.start("echo {}");
    assert_eq!(plan.terminate, None);
    assert_eq!(plan.spawn.command, "echo foo");
    assert_eq!(plan.spawn.dir, "root/foo");
    assert_eq!(plan.spawn.uid, 12);
    assert_eq!(plan.spawn.gid, 34);
    sub.record(5);
    assert_eq!(sub.process, Some(5));
}
