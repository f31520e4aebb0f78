use ssh_agent_fs::mount::{
    available_mountpoints, default_mountpoint, run_user_dir, same_path, MountStep,
};
use std::path::{Path, PathBuf};

fn paths(strings: &[&str]) -> Vec<String> {
    strings.iter().map(|s| s.to_string()).collect()
}

#[test]
fn mountpoints_come_best_first() {
    assert_eq!(
        available_mountpoints(1000, Some("/xdg"), true, Some("/var/tmp")),
        [
            "/xdg/ssh-agent-fs",
            "/run/user/1000/ssh-agent-fs",
            "/var/tmp/ssh-agent-fs-1000",
            "/tmp/ssh-agent-fs-1000"
        ]
    );
}

#[test]
fn mountpoints_without_an_environment() {
    assert_eq!(available_mountpoints(0, None, false, None), ["/tmp/ssh-agent-fs-0"]);
    assert_eq!(available_mountpoints(0, Some(""), false, Some("")), ["/tmp/ssh-agent-fs-0"]);
    assert_eq!(
        available_mountpoints(u32::MAX, None, true, None),
        ["/run/user/4294967295/ssh-agent-fs", "/tmp/ssh-agent-fs-4294967295"]
    );
    assert_eq!(run_user_dir(1000), "/run/user/1000");
}

#[test]
fn runtime_directory_is_not_tried_twice() {
    for xdg in ["/run/user/7", "/run/user/7/", "//run/./user//7/."] {
        let found = available_mountpoints(7, Some(xdg), true, None);
        assert_eq!(found.len(), 2, "{xdg}");
        assert_eq!(found[1], "/tmp/ssh-agent-fs-7");
    }
    assert_eq!(available_mountpoints(7, Some("/run/user/8/../7"), true, None).len(), 3);
    assert_eq!(available_mountpoints(7, Some("run/user/7"), true, None).len(), 3);
}

#[test]
fn mountpoints_are_joined_as_paths_are() {
    for dir in ["/a", "/a/", "/", "a", "a//", "."] {
        assert_eq!(
            available_mountpoints(1, Some(dir), false, None)[0],
            PathBuf::from(dir).join("ssh-agent-fs").to_str().unwrap()
        );
        assert_eq!(
            available_mountpoints(1, None, false, Some(dir))[0],
            PathBuf::from(dir).join("ssh-agent-fs-1").to_str().unwrap()
        );
    }
}

#[test]
fn paths_are_equal_as_the_standard_library_has_it() {
    let samples = [
        "", "/", "//", ".", "./", "./.", "..", "a", "a/", "/a", "//a", "a/b", "a//b", "a/./b",
        "a/b/.", "./a", "./a/b", ".//a", "/./a", "/.", "/..", "a/..", "../a", "/a/b/", "...", "a.",
        ".a", "/a/./../b",
    ];
    for a in samples {
        for b in samples {
            assert_eq!(same_path(a, b), Path::new(a) == Path::new(b), "{a:?} {b:?}");
        }
    }
}

#[test]
fn first_safe_mountpoint_is_taken() {
    let all = paths(&["/a", "/b", "/c"]);
    let mut outcomes = Vec::new();
    assert!(matches!(default_mountpoint(&all, &outcomes), MountStep::Try(p) if p == "/a"));
    outcomes.push(Err("no".to_string()));
    assert!(matches!(default_mountpoint(&all, &outcomes), MountStep::Try(p) if p == "/b"));
    outcomes.push(Ok(()));
    assert!(matches!(default_mountpoint(&all, &outcomes), MountStep::Found(p) if p == "/b"));
}

#[test]
fn failed_search_says_what_is_wrong_with_each() {
    let all = paths(&["/a", "/b"]);
    let outcomes = vec![Err("stat: x".to_string()), Err("create: y".to_string())];
    match default_mountpoint(&all, &outcomes) {
        MountStep::Failed(message) => assert_eq!(
            message,
            "no suitable runtime directory found:\n  /a: stat: x\n  /b: create: y"
        ),
        _ => panic!("every candidate has failed"),
    }
    match default_mountpoint(&Vec::new(), &Vec::new()) {
        MountStep::Failed(message) => {
            assert_eq!(message, "no suitable runtime directory found:\n")
        }
        _ => panic!("there is no candidate"),
    }
}
