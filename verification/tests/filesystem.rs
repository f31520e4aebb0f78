use ssh_agent_fs::fs::{list_page, DirEntry, FileType, SshAgentFs};
use ssh_agent_fs::keys::{Identity, KeyRecord};
use ssh_agent_fs::request::{Listing, RefreshOutcome, Reply, Request, Step};
use ssh_agent_fs::table::ROOT_INO;
use ssh_agent_fs::time::{stale, Timestamp};
use std::str::FromStr;

const KEY: &str =
    "ssh-ed25519 AAAAC3NzaC1lZDI1NTE5AAAAIAcv0iqu0jysOQa1yqNUYZ02NtFL8Aw3GdMr8wMjqOQy";

fn at(secs: i64, nanos: u32) -> Timestamp {
    Timestamp { secs, nanos }
}

fn record(base: &str, line: &str) -> KeyRecord {
    KeyRecord { base: base.to_string(), line: Ok(line.to_string()) }
}

fn broken(base: &str, reason: &str) -> KeyRecord {
    KeyRecord { base: base.to_string(), line: Err(reason.to_string()) }
}

fn new_fs() -> SshAgentFs {
    SshAgentFs::new("/tmp/agent".to_string(), 1000, 100)
}

fn identity(comment: &str) -> Identity {
    let pk = ssh_key::PublicKey::from_str(KEY).unwrap();
    Identity::PublicKey { blob: pk.to_bytes().unwrap(), comment: comment.to_string() }
}

fn ino(fs: &SshAgentFs, name: &str) -> Option<u64> {
    fs.lookup(ROOT_INO, Some(name)).map(|attr| attr.ino)
}

fn content(fs: &SshAgentFs, name: &str) -> Option<String> {
    let ino = ino(fs, name)?;
    Some(String::from_utf8(fs.read(ino, 0, u32::MAX).unwrap()).unwrap())
}

fn names(page: &[DirEntry]) -> Vec<String> {
    page.iter().map(|e| e.name.clone()).collect()
}

#[test]
fn new_filesystem_is_empty() {
    let fs = new_fs();
    assert_eq!(fs.sock_path(), "/tmp/agent");
    assert_eq!(fs.lookup(ROOT_INO, Some("a.pub")), None);
    assert_eq!(fs.getattr(2), None);
    assert_eq!(fs.read(2, 0, 10), None);
    assert_eq!(names(&fs.readdir(ROOT_INO, 0).unwrap()), [".", ".."]);
    let attr = fs.getattr(ROOT_INO).unwrap();
    assert_eq!(attr.atime, at(0, 0));
}

#[test]
fn listing_is_stale_after_more_than_a_second() {
    assert!(!stale(at(100, 5), at(100, 5)));
    assert!(!stale(at(100, 5), at(101, 5)));
    assert!(stale(at(100, 5), at(101, 6)));
    assert!(stale(at(100, 5), at(100, 4)));
    assert!(stale(at(i64::MIN, 0), at(i64::MAX, u32::MAX)));
    assert!(stale(at(i64::MAX, u32::MAX), at(i64::MIN, 0)));
}

#[test]
fn first_request_refreshes() {
    let fs = new_fs();
    assert!(fs.maybe_refresh(at(1_700_000_000, 0)));
    assert!(!fs.maybe_refresh(at(1, 0)));
    assert!(fs.maybe_refresh(at(1, 1)));
    assert!(fs.maybe_refresh(at(-1, 0)));
}

#[test]
fn keys_can_be_read_back_under_their_names() {
    let mut fs = new_fs();
    let skipped = fs.rebuild(&vec![record("work", "ssh-a AAAA work"), record("home", "ssh-b BBBB h\u{f6}me")], at(50, 0));
    assert!(skipped.is_empty());
    assert_eq!(content(&fs, "work.pub").as_deref(), Some("ssh-a AAAA work\n"));
    assert_eq!(content(&fs, "home.pub").as_deref(), Some("ssh-b BBBB h\u{f6}me\n"));
    assert_eq!(ino(&fs, "work.pub"), Some(2));
    assert_eq!(ino(&fs, "home.pub"), Some(3));
    assert_eq!(ino(&fs, "work"), None);
    assert!(!fs.maybe_refresh(at(51, 0)));
    assert!(fs.maybe_refresh(at(51, 1)));
}

#[test]
fn keys_with_the_same_comment_are_numbered() {
    let mut fs = new_fs();
    fs.rebuild(&vec![record("k", "1"), record("k", "2"), record("other", "3"), record("k", "4")], at(50, 0));
    assert_eq!(content(&fs, "k.pub").as_deref(), Some("1\n"));
    assert_eq!(content(&fs, "k_1.pub").as_deref(), Some("2\n"));
    assert_eq!(content(&fs, "k_2.pub").as_deref(), Some("4\n"));
    assert_eq!(content(&fs, "other.pub").as_deref(), Some("3\n"));
}

#[test]
fn key_without_a_line_is_skipped_but_counted() {
    let mut fs = new_fs();
    let skipped = fs.rebuild(&vec![broken("k", "too long"), record("k", "2")], at(50, 0));
    assert_eq!(skipped.len(), 1);
    assert_eq!(skipped[0].name, "k.pub");
    assert_eq!(skipped[0].reason, "too long");
    assert_eq!(content(&fs, "k.pub"), None);
    assert_eq!(content(&fs, "k_1.pub").as_deref(), Some("2\n"));
    assert_eq!(ino(&fs, "k_1.pub"), Some(2));
}

#[test]
fn names_keep_their_inodes() {
    let mut fs = new_fs();
    fs.rebuild(&vec![record("a", "1"), record("b", "2")], at(50, 0));
    fs.rebuild(&vec![record("c", "3"), record("b", "2 new"), record("a", "1")], at(60, 0));
    assert_eq!(ino(&fs, "a.pub"), Some(2));
    assert_eq!(ino(&fs, "b.pub"), Some(3));
    assert_eq!(ino(&fs, "c.pub"), Some(4));
    assert_eq!(content(&fs, "b.pub").as_deref(), Some("2 new\n"));
    // A name that went away and comes back gets a new inode.
    fs.rebuild(&vec![record("c", "3")], at(70, 0));
    assert_eq!(ino(&fs, "a.pub"), None);
    assert_eq!(fs.getattr(2), None);
    fs.rebuild(&vec![record("a", "1")], at(80, 0));
    assert_eq!(ino(&fs, "a.pub"), Some(5));
}

#[test]
fn refresh_with_the_same_keys_changes_nothing() {
    let mut fs = new_fs();
    let keys = vec![record("a", "1"), record("b", "2"), record("a", "3")];
    fs.rebuild(&keys, at(50, 0));
    let before: Vec<Option<u64>> = ["a.pub", "b.pub", "a_1.pub"].iter().map(|n| ino(&fs, n)).collect();
    fs.rebuild(&keys, at(60, 0));
    let after: Vec<Option<u64>> = ["a.pub", "b.pub", "a_1.pub"].iter().map(|n| ino(&fs, n)).collect();
    assert_eq!(before, [Some(2), Some(3), Some(4)]);
    assert_eq!(before, after);
}

#[test]
fn later_key_of_the_same_name_takes_the_name() {
    let mut fs = new_fs();
    let keys = vec![record("a", "1"), record("a", "2"), record("a_1", "3")];
    fs.rebuild(&keys, at(50, 0));
    assert_eq!(content(&fs, "a_1.pub").as_deref(), Some("3\n"));
    assert_eq!(ino(&fs, "a_1.pub"), Some(4));
    // Both are still there by inode, and in the listing.
    assert_eq!(fs.read(3, 0, 10), Some(b"2\n".to_vec()));
    assert_eq!(fs.readdir(ROOT_INO, 0).unwrap().len(), 5);
    // From the next refresh on both have the inode that the name has.
    fs.rebuild(&keys, at(60, 0));
    assert_eq!(fs.read(3, 0, 10), None);
    assert_eq!(content(&fs, "a_1.pub").as_deref(), Some("3\n"));
    assert_eq!(fs.readdir(ROOT_INO, 0).unwrap().len(), 4);
}

#[test]
fn file_attributes_are_read_only() {
    let mut fs = new_fs();
    fs.rebuild(&vec![record("a", "12345")], at(50, 7));
    let attr = fs.lookup(ROOT_INO, Some("a.pub")).unwrap();
    assert_eq!(fs.getattr(attr.ino), Some(attr));
    assert_eq!(attr.size, 6);
    assert_eq!(attr.blocks, 1);
    assert_eq!(attr.kind, FileType::RegularFile);
    assert_eq!(attr.perm, 0o444);
    assert_eq!((attr.nlink, attr.uid, attr.gid), (1, 1000, 100));
    assert_eq!((attr.rdev, attr.flags, attr.blksize), (0, 0, 4096));
    for time in [attr.atime, attr.mtime, attr.ctime, attr.crtime] {
        assert_eq!(time, at(50, 7));
    }
}

#[test]
fn blocks_are_rounded_up() {
    let fs = new_fs();
    assert_eq!(fs.file_attr(5, 0).blocks, 0);
    assert_eq!(fs.file_attr(5, 1).blocks, 1);
    assert_eq!(fs.file_attr(5, 512).blocks, 1);
    assert_eq!(fs.file_attr(5, 513).blocks, 2);
    assert_eq!(fs.file_attr(5, u64::MAX).blocks, u64::MAX.div_ceil(512));
}

#[test]
fn root_attributes_are_those_of_a_directory() {
    let fs = new_fs();
    let attr = fs.getattr(ROOT_INO).unwrap();
    assert_eq!(attr, fs.dir_attr());
    assert_eq!((attr.ino, attr.size, attr.blocks), (1, 0, 0));
    assert_eq!(attr.kind, FileType::Directory);
    assert_eq!((attr.perm, attr.nlink), (0o555, 2));
    assert_eq!((attr.uid, attr.gid), (1000, 100));
}

#[test]
fn lookup_needs_the_root_and_a_unicode_name() {
    let mut fs = new_fs();
    fs.rebuild(&vec![record("a", "1")], at(50, 0));
    assert!(fs.lookup(ROOT_INO, Some("a.pub")).is_some());
    assert_eq!(fs.lookup(2, Some("a.pub")), None);
    assert_eq!(fs.lookup(ROOT_INO, None), None);
    assert_eq!(fs.lookup(ROOT_INO, Some(".")), None);
}

#[test]
fn reads_are_cut_at_the_ends() {
    let mut fs = new_fs();
    fs.rebuild(&vec![record("a", "0123456789")], at(50, 0));
    let read = |offset: i64, size: u32| String::from_utf8(fs.read(2, offset, size).unwrap()).unwrap();
    assert_eq!(read(0, 4), "0123");
    assert_eq!(read(4, 4), "4567");
    assert_eq!(read(8, 100), "89\n");
    assert_eq!(read(11, 5), "");
    assert_eq!(read(12, 5), "");
    assert_eq!(read(i64::MAX, u32::MAX), "");
    assert_eq!(read(-1, 5), "");
    assert_eq!(read(i64::MIN, 5), "");
    assert_eq!(read(3, 0), "");
    assert_eq!(read(0, 6) + &read(6, 9), read(0, 15));
    assert_eq!(fs.read(ROOT_INO, 0, 1), None);
}

#[test]
fn directory_lists_every_file_once() {
    let mut fs = new_fs();
    fs.rebuild(&vec![record("a", "1"), record("b", "2"), record("c", "3")], at(50, 0));
    let page = fs.readdir(ROOT_INO, 0).unwrap();
    assert_eq!(names(&page)[..2], [".", ".."]);
    assert!(page[..2].iter().all(|e| e.ino == ROOT_INO && e.kind == FileType::Directory));
    let mut files: Vec<(String, u64)> = page[2..].iter().map(|e| (e.name.clone(), e.ino)).collect();
    files.sort();
    assert_eq!(
        files,
        [("a.pub".to_string(), 2), ("b.pub".to_string(), 3), ("c.pub".to_string(), 4)]
    );
    assert!(page[2..].iter().all(|e| e.kind == FileType::RegularFile));
    let offsets: Vec<i64> = page.iter().map(|e| e.offset).collect();
    assert_eq!(offsets, [1, 2, 3, 4, 5]);
    assert!(fs.readdir(2, 0).is_none());
}

#[test]
fn directory_listing_resumes_after_an_entry() {
    let walk = vec![(7u64, "a.pub".to_string()), (9, "b.pub".to_string())];
    let all = list_page(&walk, 0);
    assert_eq!(names(&all), [".", "..", "a.pub", "b.pub"]);
    for (i, entry) in all.iter().enumerate() {
        assert_eq!(names(&list_page(&walk, entry.offset)), names(&all[i + 1..]));
    }
    assert_eq!(list_page(&walk, 2)[0].ino, 7);
    assert!(list_page(&walk, 5).is_empty());
    assert!(list_page(&walk, -1).is_empty());
    assert!(list_page(&walk, i64::MAX).is_empty());
}

#[test]
fn refresh_reads_the_keys_of_a_listing() {
    let mut fs = new_fs();
    let skipped = fs.refresh(&vec![identity("my key"), identity("")], at(50, 0));
    assert!(skipped.ok().unwrap().is_empty());
    assert_eq!(content(&fs, "my_key.pub"), Some(format!("{KEY} my key\n")));
    assert_eq!(content(&fs, "ed25519-SHA256_C_9O1TB2.pub"), Some(format!("{KEY}\n")));
}

#[test]
fn refused_listing_keeps_what_was_cached() {
    let mut fs = new_fs();
    assert!(fs.refresh(&vec![identity("a")], at(50, 0)).is_ok());
    let bad = Identity::PublicKey { blob: vec![9], comment: "b".to_string() };
    assert!(fs.refresh(&vec![identity("c"), bad], at(60, 0)).is_err());
    assert_eq!(content(&fs, "a.pub"), Some(format!("{KEY} a\n")));
    assert_eq!(content(&fs, "c.pub"), None);
    assert!(fs.maybe_refresh(at(60, 0)));
}

#[test]
fn requests_about_keys_ask_the_agent_when_stale() {
    let fs = new_fs();
    let now = at(1_700_000_000, 0);
    let asks = |request: &Request| matches!(fs.handle(request, now), Step::QueryAgent);
    assert!(asks(&Request::Lookup { parent: ROOT_INO, name: Some("a".to_string()) }));
    assert!(asks(&Request::Lookup { parent: ROOT_INO, name: None }));
    assert!(asks(&Request::Getattr { ino: 2 }));
    assert!(asks(&Request::Read { ino: 2, offset: 0, size: 1 }));
    assert!(asks(&Request::Read { ino: ROOT_INO, offset: 0, size: 1 }));
    assert!(asks(&Request::Readdir { ino: ROOT_INO, offset: 0 }));
}

#[test]
fn other_requests_are_answered_at_once() {
    let fs = new_fs();
    let now = at(1_700_000_000, 0);
    assert!(matches!(
        fs.handle(&Request::Lookup { parent: 2, name: Some("a".to_string()) }, now),
        Step::Done(Reply::NoEntry)
    ));
    assert!(matches!(
        fs.handle(&Request::Readdir { ino: 2, offset: 0 }, now),
        Step::Done(Reply::NoEntry)
    ));
    match fs.handle(&Request::Getattr { ino: ROOT_INO }, now) {
        Step::Done(Reply::Attr { ttl_secs, attr }) => {
            assert_eq!(ttl_secs, 1);
            assert_eq!(attr, fs.dir_attr());
        }
        _ => panic!("the root's attributes are always known"),
    }
}

#[test]
fn fresh_tables_are_used_without_asking() {
    let mut fs = new_fs();
    fs.rebuild(&vec![record("a", "1")], at(50, 0));
    match fs.handle(&Request::Lookup { parent: ROOT_INO, name: Some("a.pub".to_string()) }, at(51, 0)) {
        Step::Done(Reply::Entry { ttl_secs, attr, generation }) => {
            assert_eq!((ttl_secs, attr.ino, generation), (1, 2, 0));
        }
        _ => panic!("the tables are fresh"),
    }
    match fs.handle(&Request::Read { ino: 2, offset: 0, size: 9 }, at(51, 0)) {
        Step::Done(Reply::Data(data)) => assert_eq!(data, b"1\n"),
        _ => panic!("the tables are fresh"),
    }
    assert!(matches!(
        fs.handle(&Request::Read { ino: 3, offset: 0, size: 9 }, at(51, 0)),
        Step::Done(Reply::NoEntry)
    ));
    assert!(matches!(
        fs.handle(&Request::Getattr { ino: 3 }, at(51, 0)),
        Step::Done(Reply::NoEntry)
    ));
}

#[test]
fn resuming_uses_the_new_listing() {
    let mut fs = new_fs();
    let request = Request::Lookup { parent: ROOT_INO, name: Some("a.pub".to_string()) };
    let listing = Listing::Taken { identities: vec![identity("a")], at: at(50, 0) };
    let (reply, outcome) = fs.resume(&request, &listing);
    assert!(matches!(reply, Reply::Entry { .. }));
    assert!(matches!(outcome, RefreshOutcome::Rebuilt(skipped) if skipped.is_empty()));
    assert!(!fs.maybe_refresh(at(50, 0)));
}

#[test]
fn resuming_without_a_listing_uses_the_cache() {
    let mut fs = new_fs();
    fs.rebuild(&vec![record("a", "1")], at(50, 0));
    let request = Request::Readdir { ino: ROOT_INO, offset: 2 };
    let (reply, outcome) = fs.resume(&request, &Listing::Unavailable);
    match reply {
        Reply::Directory(page) => assert_eq!(names(&page), ["a.pub"]),
        _ => panic!("the root is a directory"),
    }
    assert!(matches!(outcome, RefreshOutcome::Kept));
    assert!(fs.maybe_refresh(at(60, 0)));
}

#[test]
fn resuming_with_an_unreadable_key_uses_the_cache() {
    let mut fs = new_fs();
    fs.rebuild(&vec![record("a", "1")], at(50, 0));
    let bad = Identity::PublicKey { blob: vec![], comment: "b".to_string() };
    let listing = Listing::Taken { identities: vec![bad], at: at(60, 0) };
    let (reply, outcome) = fs.resume(&Request::Getattr { ino: 2 }, &listing);
    assert!(matches!(reply, Reply::Attr { .. }));
    assert!(matches!(outcome, RefreshOutcome::Refused(_)));
}

#[test]
fn inodes_are_counted() {
    let mut fs = new_fs();
    assert!(fs.has_inodes_for(1_000));
    assert!(!fs.has_inodes_for(usize::MAX - 1));
    assert!(fs.has_inodes_for(usize::MAX - 2));
    fs.rebuild(&vec![record("a", "1")], at(50, 0));
    assert!(!fs.has_inodes_for(usize::MAX - 2));
}

#[test]
fn shared_names_settle_at_the_second_refresh() {
    let mut fs = new_fs();
    let keys = vec![record("a", "1"), record("a", "2"), record("a_1", "3")];
    fs.rebuild(&keys, at(50, 0));
    fs.rebuild(&keys, at(60, 0));
    let mut second = fs.walk();
    fs.rebuild(&keys, at(70, 0));
    let mut third = fs.walk();
    second.sort();
    third.sort();
    assert_eq!(second, [(2, "a.pub".to_string()), (4, "a_1.pub".to_string())]);
    assert_eq!(second, third);
}

#[test]
fn uncommented_key_has_the_same_file_name_in_every_listing() {
    let mut one = new_fs();
    let mut other = new_fs();
    assert!(one.refresh(&vec![identity("")], at(50, 0)).is_ok());
    assert!(other.refresh(&vec![identity("x"), identity(" ")], at(90, 0)).is_ok());
    assert!(ino(&one, "ed25519-SHA256_C_9O1TB2.pub").is_some());
    assert!(ino(&other, "ed25519-SHA256_C_9O1TB2.pub").is_some());
    // A second key that asks for the name is numbered.
    assert!(one.refresh(&vec![identity(""), identity("/")], at(60, 0)).is_ok());
    assert!(ino(&one, "ed25519-SHA256_C_9O1TB2_1.pub").is_some());
}

#[test]
fn file_of_a_dropped_key_disappears() {
    let mut fs = new_fs();
    let request = Request::Lookup { parent: ROOT_INO, name: Some("a.pub".to_string()) };
    let both = Listing::Taken { identities: vec![identity("a"), identity("b")], at: at(50, 0) };
    assert!(matches!(fs.resume(&request, &both).0, Reply::Entry { .. }));
    let rest = Listing::Taken { identities: vec![identity("b")], at: at(52, 0) };
    assert!(matches!(fs.handle(&request, at(52, 0)), Step::QueryAgent));
    assert!(matches!(fs.resume(&request, &rest).0, Reply::NoEntry));
}

#[test]
fn layout_is_flat_and_holds_pub_files_only() {
    let mut fs = new_fs();
    fs.rebuild(&vec![record("a", "1"), record("a", "2"), record("x.key", "3")], at(50, 0));
    for (ino, name) in fs.walk() {
        assert!(name.ends_with(".pub"));
        assert_eq!(fs.getattr(ino).unwrap().kind, FileType::RegularFile);
        assert!(fs.readdir(ino, 0).is_none());
    }
    assert_eq!(fs.getattr(ROOT_INO).unwrap().kind, FileType::Directory);
}
