use ssh_agent_fs::cli::{help_text, parse_args, Command};

fn args(strings: &[&str]) -> Vec<String> {
    strings.iter().map(|s| s.to_string()).collect()
}

#[test]
fn no_argument_mounts_wherever_is_best() {
    let (prog, command) = parse_args(&args(&["prog"]));
    assert_eq!(prog, "prog");
    assert!(matches!(command, Command::MountDefault));
    let (prog, command) = parse_args(&args(&[]));
    assert_eq!(prog, "ssh-agent-fs");
    assert!(matches!(command, Command::MountDefault));
}

#[test]
fn first_argument_is_the_mountpoint() {
    let (_, command) = parse_args(&args(&["prog", "/mnt", "--help"]));
    assert!(matches!(command, Command::MountAt(path) if path == "/mnt"));
    let (_, command) = parse_args(&args(&["prog", ""]));
    assert!(matches!(command, Command::MountAt(path) if path.is_empty()));
}

#[test]
fn help_is_asked_for_by_either_flag() {
    for flag in ["-h", "--help"] {
        let (_, command) = parse_args(&args(&["prog", flag]));
        assert!(matches!(command, Command::Help));
    }
}

#[test]
fn help_begins_with_the_usage() {
    let text = help_text("prog");
    assert!(text.starts_with("Usage: prog [MOUNTPOINT]\n\nMounts a FUSE filesystem"));
    assert!(text.ends_with("SSH_AUTH_SOCK   required; path to the SSH agent's Unix socket."));
}
