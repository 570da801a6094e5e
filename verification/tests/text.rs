use subwatch::text::substitute;
use subwatch::Manager;

#[test]
fn substitute_replaces_placeholder() {
    assert_eq!(substitute("echo {}", "foo"), "echo foo");
}

#[test]
fn substitute_without_placeholder() {
    assert_eq!(substitute("make serve", "foo"), "make serve");
}

#[test]
fn substitute_every_occurrence() {
    assert_eq!(substitute("cp {}/in {}/out", "job"), "cp job/in job/out");
}

#[test]
fn substitute_empty_template() {
    assert_eq!(substitute("", "foo"), "");
}

#[test]
fn substitute_lone_braces_kept() {
    assert_eq!(substitute("a{ }b{x}c", "foo"), "a{ }b{x}c");
}

#[test]
fn mode_watch() {
    assert!(matches!(Manager::from_mode("watch"), Some(Manager::Watch)));
}

#[test]
fn mode_socket_and_sock() {
    assert!(matches!(Manager::from_mode("socket"), Some(Manager::Socket)));
    assert!(matches!(Manager::from_mode("sock"), Some(Manager::Socket)));
}

#[test]
fn mode_none_is_passive() {
    assert!(matches!(Manager::from_mode("none"), Some(Manager::Passive)));
}

#[test]
fn mode_unknown() {
    assert!(Manager::from_mode("bogus").is_none());
    assert!(Manager::from_mode("").is_none());
}
