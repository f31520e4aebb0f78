use ssh_agent_fs::safe_dir::{ensure_safe_dir, DirEvent, DirStep, Stat};

fn found(is_dir: bool, uid: u32, mode: u32) -> DirEvent {
    DirEvent::Examined(Stat::Found {
        is_dir,
        file_type: "FileType(symlink)".to_string(),
        uid,
        mode,
    })
}

fn error(step: DirStep) -> String {
    match step {
        DirStep::Finished(Err(e)) => e,
        _ => panic!("an error was expected"),
    }
}

fn is_ok(step: DirStep) -> bool {
    matches!(step, DirStep::Finished(Ok(())))
}

#[test]
fn private_directory_is_accepted() {
    assert!(is_ok(ensure_safe_dir(&found(true, 1000, 0o40700), 1000)));
    assert!(is_ok(ensure_safe_dir(&found(true, 1000, 0o40500), 1000)));
}

#[test]
fn directory_open_to_others_is_closed() {
    for mode in [0o755, 0o770, 0o701, 0o40777, 0o710] {
        assert!(matches!(
            ensure_safe_dir(&found(true, 1000, mode), 1000),
            DirStep::SetMode(0o700)
        ));
    }
    assert!(is_ok(ensure_safe_dir(&DirEvent::ModeSet(Ok(())), 1000)));
    assert_eq!(
        error(ensure_safe_dir(&DirEvent::ModeSet(Err("denied".to_string())), 1000)),
        "chmod 0700 failed: denied"
    );
}

#[test]
fn foreign_directory_is_refused() {
    assert_eq!(
        error(ensure_safe_dir(&found(true, 0, 0o700), 1000)),
        "owned by uid 0 (expected 1000); refusing to mount"
    );
    assert_eq!(
        error(ensure_safe_dir(&found(true, 1001, 0o777), 1000)),
        "owned by uid 1001 (expected 1000); refusing to mount"
    );
}

#[test]
fn what_is_no_directory_is_refused() {
    assert_eq!(
        error(ensure_safe_dir(&found(false, 1000, 0o777), 1000)),
        "not a directory (got FileType(symlink))"
    );
}

#[test]
fn missing_directory_is_created_and_closed() {
    assert!(matches!(
        ensure_safe_dir(&DirEvent::Examined(Stat::NotFound), 1000),
        DirStep::CreateAll
    ));
    assert!(matches!(
        ensure_safe_dir(&DirEvent::Created(Ok(())), 1000),
        DirStep::SetMode(0o700)
    ));
    assert_eq!(
        error(ensure_safe_dir(&DirEvent::Created(Err("read-only".to_string())), 1000)),
        "create: read-only"
    );
}

#[test]
fn path_that_cannot_be_examined_is_refused() {
    assert_eq!(
        error(ensure_safe_dir(&DirEvent::Examined(Stat::Failed("loop".to_string())), 1000)),
        "stat: loop"
    );
}
