use blitz::launch::{all_done, format_arg, project_root, same_text, ProcessState, Task};

#[test]
fn debug_profile_needs_no_name() {
    assert_eq!(format_arg("debug"), "--");
}

#[test]
fn other_profiles_are_named() {
    assert_eq!(format_arg("release"), "--release");
    assert_eq!(format_arg("debugging"), "--debugging");
    assert_eq!(format_arg(""), "--");
}

#[test]
fn project_root_is_the_directory_above() {
    assert_eq!(project_root("/home/user/blitz/xtask"), Some("/home/user/blitz".to_string()));
    assert_eq!(project_root("blitz/xtask"), Some("blitz".to_string()));
}

#[test]
fn project_root_of_nothing_is_nothing() {
    assert_eq!(project_root(""), None);
    assert_eq!(project_root("/"), None);
}

#[test]
fn same_text_compares_characters() {
    assert!(same_text("blitz", "blitz"));
    assert!(same_text("", ""));
    assert!(!same_text("blitz", "blits"));
    assert!(!same_text("blitz", "blitz_x"));
    assert!(same_text("gr\u{fc}n", "gr\u{fc}n"));
    assert!(!same_text("gr\u{fc}n", "gruen"));
}

#[test]
fn tasks_by_name() {
    assert_eq!(Task::named(Some("blitz")), Task::Blitz);
    assert_eq!(Task::named(Some("blitz_x")), Task::BlitzX);
    assert_eq!(Task::named(Some("help")), Task::Help);
    assert_eq!(Task::named(Some("")), Task::Help);
    assert_eq!(Task::named(None), Task::Help);
}

#[test]
fn launcher_waits_for_running_processes() {
    assert!(all_done(&vec![]));
    assert!(all_done(&vec![ProcessState::Exited, ProcessState::Unknown]));
    assert!(!all_done(&vec![ProcessState::Exited, ProcessState::Running]));
    assert!(!all_done(&vec![ProcessState::Running, ProcessState::Exited, ProcessState::Exited]));
}

#[test]
fn project_root_is_the_path_cut_short() {
    let paths = [
        "/home/user/blitz/xtask",
        "blitz/xtask/",
        "a",
        "/a",
        "a//b",
        "./a",
        "a/.",
        "a/b/..",
        "a/./b",
        "gr\u{fc}n/wei\u{df}",
        "/",
        "",
    ];
    for path in paths {
        if let Some(root) = project_root(path) {
            assert!(root.len() < path.len());
            assert!(path.starts_with(&root));
            assert!(root.chars().count() < path.chars().count());
        }
    }
    assert_eq!(project_root("a"), Some(String::new()));
    assert_eq!(project_root("/a"), Some("/".to_string()));
    assert_eq!(project_root("gr\u{fc}n/wei\u{df}"), Some("gr\u{fc}n".to_string()));
}
