//! The filesystem: one read-only file for each key that the agent holds.

use std::collections::HashMap;
use vstd::hash_map::StringHashMap;
use vstd::prelude::*;
use vstd::slice::{slice_subrange, slice_to_vec};

use crate::keys;
use crate::keys::{describe_all, Identity, KeyRecord, RecordView};
use crate::names::file_name;
use crate::table;
use crate::table::{FileView, Tables, ROOT_INO};
use crate::time;
use crate::time::{stale, Timestamp};

verus! {

broadcast use vstd::std_specs::hash::group_hash_axioms;

/// A file of the mount.
pub struct KeyFile {
    pub name: String,
    pub content: Vec<u8>,
    pub ino: u64,
}

impl View for KeyFile {
    type V = FileView;

    open spec fn view(&self) -> FileView {
        FileView { name: self.name@, content: self.content@, ino: self.ino }
    }
}

/// A key that was left out of the mount: the name that its file would have had,
/// and why there is no file.
pub struct Skipped {
    pub name: String,
    pub reason: String,
}

impl View for Skipped {
    type V = (Seq<char>, Seq<char>);

    open spec fn view(&self) -> (Seq<char>, Seq<char>) {
        (self.name@, self.reason@)
    }
}

/// The kinds of file that the mount holds.
#[derive(Clone, Copy, Debug, PartialEq, Eq, Structural)]
pub enum FileType {
    Directory,
    RegularFile,
}

/// The attributes of a file or a directory.
#[derive(Clone, Copy, Debug, PartialEq, Eq, Structural)]
pub struct FileAttr {
    pub ino: u64,
    pub size: u64,
    pub blocks: u64,
    pub atime: Timestamp,
    pub mtime: Timestamp,
    pub ctime: Timestamp,
    pub crtime: Timestamp,
    pub kind: FileType,
    pub perm: u16,
    pub nlink: u32,
    pub uid: u32,
    pub gid: u32,
    pub rdev: u32,
    pub flags: u32,
    pub blksize: u32,
}

/// The permissions of a file: `r--r--r--`.
pub const FILE_PERM: u16 = 0o444;

/// The permissions of the root directory: `r-xr-xr-x`.
pub const DIR_PERM: u16 = 0o555;

/// How many blocks of 512 bytes hold `size` bytes.
pub open spec fn blocks_for(size: int) -> int {
    (size + 511) / 512
}

/// The part of `content` that a read of `size` bytes at `offset` gives: nothing
/// if the offset is outside the content, and less than was asked for if the
/// content ends first.
pub open spec fn slice_of(content: Seq<u8>, offset: int, size: int) -> Seq<u8> {
    let len = content.len() as int;
    let start = if 0 <= offset <= len { offset } else { len };
    let end = if start + size < len { start + size } else { len };
    content.subrange(start, end)
}

/// An entry of the root directory. `offset` is where a listing goes on after it.
pub struct DirEntry {
    pub ino: u64,
    pub offset: i64,
    pub kind: FileType,
    pub name: String,
}

/// An entry of the root directory, as a mathematical value.
pub struct DirEntryView {
    pub ino: u64,
    pub offset: i64,
    pub kind: FileType,
    pub name: Seq<char>,
}

impl View for DirEntry {
    type V = DirEntryView;

    open spec fn view(&self) -> DirEntryView {
        DirEntryView { ino: self.ino, offset: self.offset, kind: self.kind, name: self.name@ }
    }
}

/// The mathematical values of a list of directory entries.
pub open spec fn entry_views(entries: Seq<DirEntry>) -> Seq<DirEntryView> {
    Seq::new(entries.len(), |i: int| entries[i]@)
}

/// The mathematical values of a list of inodes and names.
pub open spec fn walk_views(walk: Seq<(u64, String)>) -> Seq<(u64, Seq<char>)> {
    Seq::new(walk.len(), |i: int| (walk[i].0, walk[i].1@))
}

/// Whether `walk` lists every file once, by inode and name, in whatever order.
pub open spec fn is_walk(files: Map<u64, FileView>, walk: Seq<(u64, Seq<char>)>) -> bool {
    &&& forall|i: int|
        0 <= i < walk.len() ==> {
            &&& files.contains_key((#[trigger] walk[i]).0)
            &&& files[walk[i].0].name == walk[i].1
        }
    &&& forall|i: int, j: int|
        0 <= i < j < walk.len() ==> (#[trigger] walk[i]).0 != (#[trigger] walk[j]).0
    &&& forall|ino: u64| #[trigger]
        files.contains_key(ino) ==> exists|i: int|
            0 <= i < walk.len() && (#[trigger] walk[i]).0 == ino
}

/// The entry at position `i` of the root directory: the directory itself, its
/// parent, then the files.
pub open spec fn entry_at(walk: Seq<(u64, Seq<char>)>, i: int) -> DirEntryView {
    DirEntryView {
        ino: if i < 2 {
            ROOT_INO
        } else {
            walk[i - 2].0
        },
        offset: (i + 1) as i64,
        kind: if i < 2 {
            FileType::Directory
        } else {
            FileType::RegularFile
        },
        name: if i == 0 {
            "."@
        } else if i == 1 {
            ".."@
        } else {
            walk[i - 2].1
        },
    }
}

/// The root directory, given the files in the order of a walk.
pub open spec fn listing(walk: Seq<(u64, Seq<char>)>) -> Seq<DirEntryView> {
    Seq::new(walk.len() + 2, |i: int| entry_at(walk, i))
}

/// What a listing from `offset` on gives: nothing if the offset is outside the
/// directory.
pub open spec fn page_of(walk: Seq<(u64, Seq<char>)>, offset: int) -> Seq<DirEntryView> {
    if 0 <= offset <= listing(walk).len() {
        listing(walk).skip(offset)
    } else {
        Seq::empty()
    }
}

/// The root directory from `offset` on, given the files in the order of a walk.
pub fn list_page(walk: &Vec<(u64, String)>, offset: i64) -> (page: Vec<DirEntry>)
    ensures
        entry_views(page@) == page_of(walk_views(walk@), offset as int),
{
    let files: usize = walk.len();
    let len: u128 = files as u128 + 2;
    let mut page: Vec<DirEntry> = Vec::new();
    let start: u128 = if offset < 0 || offset as u128 > len {
        len
    } else {
        offset as u128
    };
    let ghost views = walk_views(walk@);
    let mut i: u128 = start;
    assert(entry_views(page@) == listing(views).subrange(start as int, i as int));
    while i < len
        invariant
            start <= i <= len,
            files == walk@.len(),
            len == files + 2,
            views == walk_views(walk@),
            entry_views(page@) == listing(views).subrange(start as int, i as int),
        decreases len - i,
    {
        let next: i64 = #[verifier::truncate] ((i + 1) as i64);
        let entry: DirEntry = if i == 0 {
            DirEntry {
                ino: ROOT_INO,
                offset: next,
                kind: FileType::Directory,
                name: ".".to_owned(),
            }
        } else if i == 1 {
            DirEntry {
                ino: ROOT_INO,
                offset: next,
                kind: FileType::Directory,
                name: "..".to_owned(),
            }
        } else {
            DirEntry {
                ino: walk[(i - 2) as usize].0,
                offset: next,
                kind: FileType::RegularFile,
                name: walk[(i - 2) as usize].1.clone(),
            }
        };
        assert(entry@ == listing(views)[i as int]);
        let ghost before = page@;
        page.push(entry);
        assert(entry_views(page@) == entry_views(before).push(entry@));
        assert(listing(views).subrange(start as int, i + 1) == listing(views).subrange(
            start as int,
            i as int,
        ).push(listing(views)[i as int]));
        i += 1;
    }
    assert(listing(views).subrange(start as int, len as int) == listing(views).skip(start as int));
    page
}

/// The filesystem's state: what the last listing of the agent's keys gave, and
/// when it was taken.
pub struct SshAgentFs {
    sock_path: String,
    entries: HashMap<u64, KeyFile>,
    name_to_ino: StringHashMap<u64>,
    next_ino: u64,
    last_refresh: Timestamp,
    uid: u32,
    gid: u32,
}

/// The files in a table of entries.
pub open spec fn file_views(entries: Map<u64, KeyFile>) -> Map<u64, FileView> {
    entries.map_values(|file: KeyFile| file@)
}

/// The mathematical values of a list of keys that were left out.
pub open spec fn skipped_views(skipped: Seq<Skipped>) -> Seq<(Seq<char>, Seq<char>)> {
    Seq::new(skipped.len(), |i: int| skipped[i]@)
}

/// How often `base` was counted.
spec fn counted(counts: Map<Seq<char>, u64>, base: Seq<char>) -> nat {
    if counts.contains_key(base) {
        counts[base] as nat
    } else {
        0
    }
}

impl SshAgentFs {
    /// The tables of files and names.
    pub closed spec fn tables(&self) -> Tables {
        Tables {
            files: file_views(self.entries@),
            names: self.name_to_ino@,
            next_ino: self.next_ino as int,
        }
    }

    /// When the tables were last rebuilt.
    pub closed spec fn refreshed_at(&self) -> Timestamp {
        self.last_refresh
    }

    /// The user and the group that own the files.
    pub closed spec fn owner(&self) -> (u32, u32) {
        (self.uid, self.gid)
    }

    /// The path of the agent's socket.
    pub closed spec fn socket(&self) -> Seq<char> {
        self.sock_path@
    }

    /// What always holds of the state.
    pub open spec fn wf(&self) -> bool {
        self.tables().wf()
    }

    /// A filesystem without files, for the agent that listens at `sock_path`,
    /// whose files will belong to the given user and group. Its last refresh
    /// counts as that of the Unix epoch, so that the first request brings one.
    pub fn new(sock_path: String, uid: u32, gid: u32) -> (fs: Self)
        ensures
            fs.wf(),
            fs.tables().files == Map::<u64, FileView>::empty(),
            fs.tables().names == Map::<Seq<char>, u64>::empty(),
            fs.tables().next_ino == 2,
            fs.refreshed_at().since_epoch() == 0,
            fs.refreshed_at().nanos == 0,
            fs.owner() == (uid, gid),
            fs.socket() == sock_path@,
    {
        let fs = SshAgentFs {
            sock_path,
            entries: HashMap::new(),
            name_to_ino: StringHashMap::new(),
            next_ino: 2,
            last_refresh: Timestamp::epoch(),
            uid,
            gid,
        };
        assert(fs.tables().files == Map::<u64, FileView>::empty());
        fs
    }

    /// The path of the agent's socket.
    pub fn sock_path(&self) -> (path: &str)
        ensures
            path@ == self.socket(),
    {
        self.sock_path.as_str()
    }

    /// Whether there are inodes left for `n` new files.
    pub fn has_inodes_for(&self, n: usize) -> (b: bool)
        ensures
            b == (self.tables().next_ino + n <= u64::MAX),
    {
        n as u64 <= u64::MAX - self.next_ino
    }

    /// Whether the agent has to be asked for its keys before a request that
    /// arrives at `now` is answered: the last refresh is more than a second
    /// ago, or in the future.
    pub fn maybe_refresh(&self, now: Timestamp) -> (b: bool)
        ensures
            b == time::is_stale(self.refreshed_at(), now),
    {
        stale(self.last_refresh, now)
    }

    /// Rebuilds the tables from the records of the keys that the agent holds,
    /// in the agent's order. Returns the keys that have no file.
    pub fn rebuild(&mut self, records: &Vec<KeyRecord>, now: Timestamp) -> (skipped: Vec<Skipped>)
        requires
            old(self).wf(),
            old(self).tables().next_ino + records@.len() <= u64::MAX,
        ensures
            final(self).wf(),
            final(self).tables() == table::refreshed(old(self).tables(), keys::record_views(records@)),
            final(self).refreshed_at() == now,
            final(self).owner() == old(self).owner(),
            final(self).socket() == old(self).socket(),
            skipped_views(skipped@) == table::skipped(
                keys::record_views(records@),
                records@.len() as int,
            ),
    {
        let ghost before = self.tables();
        let ghost views = keys::record_views(records@);
        let mut new_entries: HashMap<u64, KeyFile> = HashMap::new();
        let mut new_name_to_ino: StringHashMap<u64> = StringHashMap::new();
        let mut name_counts: StringHashMap<u64> = StringHashMap::new();
        let mut next_ino: u64 = self.next_ino;
        let mut skipped: Vec<Skipped> = Vec::new();
        assert(file_views(new_entries@) == Map::<u64, FileView>::empty());

        let mut i: usize = 0;
        while i < records.len()
            invariant
                i <= records@.len(),
                views == keys::record_views(records@),
                before == self.tables(),
                before.wf(),
                before.next_ino + records@.len() <= u64::MAX,
                next_ino == before.next_ino + table::allocated(before, views, i as int),
                file_views(new_entries@) == table::rebuilt(before, views, i as int).files,
                new_name_to_ino@ == table::rebuilt(before, views, i as int).names,
                forall|base: Seq<char>| #[trigger]
                    counted(name_counts@, base) == table::earlier(views, base, i as int),
                skipped_views(skipped@) == table::skipped(views, i as int),
            decreases records@.len() - i,
        {
            let record: &KeyRecord = &records[i];
            let ghost view = views[i as int];
            proof {
                table::lemma_earlier_bound(views, view.base, i as int);
                table::lemma_allocated_bound(before, views, i as int, i as int);
                assert(counted(name_counts@, view.base) == table::earlier(
                    views,
                    view.base,
                    i as int,
                ));
            }
            let ghost counts_before = name_counts@;
            let count: u64 = match name_counts.get(record.base.as_str()) {
                Some(count) => *count,
                None => 0,
            };
            let name: String = file_name(record.base.as_str(), count);
            name_counts.insert(record.base.clone(), count + 1);
            assert forall|base: Seq<char>| #[trigger]
                counted(name_counts@, base) == table::earlier(views, base, i + 1) by {
                assert(counted(counts_before, base) == table::earlier(views, base, i as int));
            }

            match &record.line {
                Ok(line) => {
                    let mut content: Vec<u8> = line.as_str().as_bytes_vec();
                    content.push(10);
                    // A name that had an inode keeps it, so that open file
                    // handles survive.
                    let ino: u64 = match self.name_to_ino.get(name.as_str()) {
                        Some(ino) => *ino,
                        None => {
                            let ino: u64 = next_ino;
                            next_ino = next_ino + 1;
                            ino
                        },
                    };
                    let ghost files_before = file_views(new_entries@);
                    new_name_to_ino.insert(name.clone(), ino);
                    let file = KeyFile { name, content, ino };
                    assert(file@ == table::file_at(before, views, i as int));
                    let ghost shown = file@;
                    new_entries.insert(ino, file);
                    assert(file_views(new_entries@) == files_before.insert(ino, shown));
                },
                Err(reason) => {
                    let ghost skipped_before = skipped@;
                    let entry = Skipped { name, reason: reason.clone() };
                    skipped.push(entry);
                    assert(skipped_views(skipped@) == skipped_views(skipped_before).push(entry@));
                },
            }
            i += 1;
        }
        proof {
            table::lemma_rebuilt(before, views, views.len() as int);
        }
        self.entries = new_entries;
        self.name_to_ino = new_name_to_ino;
        self.next_ino = next_ino;
        self.last_refresh = now;
        skipped
    }

    /// Rebuilds the tables from a listing of the agent's keys that was taken at
    /// `now`. Returns the keys that have no file. If one of the keys cannot be
    /// read, the listing is refused with the reason, and whatever was cached is
    /// kept.
    pub fn refresh(&mut self, identities: &Vec<Identity>, now: Timestamp) -> (r: Result<
        Vec<Skipped>,
        String,
    >)
        requires
            old(self).wf(),
            old(self).tables().next_ino + identities@.len() <= u64::MAX,
        ensures
            final(self).wf(),
            final(self).owner() == old(self).owner(),
            final(self).socket() == old(self).socket(),
            match keys::records_of(
                keys::identity_views(identities@),
                identities@.len() as int,
            ) {
                Ok(records) => {
                    &&& keys::are_described(keys::identity_views(identities@), records)
                    &&& r is Ok
                    &&& final(self).tables() == table::refreshed(old(self).tables(), records)
                    &&& final(self).refreshed_at() == now
                    &&& skipped_views(r->Ok_0@) == table::skipped(records, records.len() as int)
                },
                Err(e) => {
                    &&& r is Err
                    &&& r->Err_0@ == e
                    &&& *final(self) == *old(self)
                },
            },
    {
        match describe_all(identities) {
            Ok(records) => Ok(self.rebuild(&records, now)),
            Err(e) => Err(e),
        }
    }

    /// The attributes of the file with the given inode and size.
    pub open spec fn file_attr_of(&self, ino: u64, size: u64) -> FileAttr {
        FileAttr {
            ino,
            size,
            blocks: blocks_for(size as int) as u64,
            atime: self.refreshed_at(),
            mtime: self.refreshed_at(),
            ctime: self.refreshed_at(),
            crtime: self.refreshed_at(),
            kind: FileType::RegularFile,
            perm: FILE_PERM,
            nlink: 1,
            uid: self.owner().0,
            gid: self.owner().1,
            rdev: 0,
            flags: 0,
            blksize: 4096,
        }
    }

    /// The attributes of the file with the given inode and size: a regular file
    /// that everyone may read and nobody may write, last changed when the
    /// tables were last rebuilt.
    pub fn file_attr(&self, ino: u64, size: u64) -> (attr: FileAttr)
        ensures
            attr == self.file_attr_of(ino, size),
    {
        let whole: u64 = size / 512;
        let blocks: u64 = if size % 512 == 0 {
            whole
        } else {
            whole + 1
        };
        FileAttr {
            ino,
            size,
            blocks,
            atime: self.last_refresh,
            mtime: self.last_refresh,
            ctime: self.last_refresh,
            crtime: self.last_refresh,
            kind: FileType::RegularFile,
            perm: FILE_PERM,
            nlink: 1,
            uid: self.uid,
            gid: self.gid,
            rdev: 0,
            flags: 0,
            blksize: 4096,
        }
    }

    /// The attributes of the root directory.
    pub open spec fn dir_attr_of(&self) -> FileAttr {
        FileAttr {
            ino: ROOT_INO,
            size: 0,
            blocks: 0,
            atime: self.refreshed_at(),
            mtime: self.refreshed_at(),
            ctime: self.refreshed_at(),
            crtime: self.refreshed_at(),
            kind: FileType::Directory,
            perm: DIR_PERM,
            nlink: 2,
            uid: self.owner().0,
            gid: self.owner().1,
            rdev: 0,
            flags: 0,
            blksize: 4096,
        }
    }

    /// The attributes of the root directory: one that everyone may list and
    /// nobody may change.
    pub fn dir_attr(&self) -> (attr: FileAttr)
        ensures
            attr == self.dir_attr_of(),
    {
        FileAttr {
            ino: ROOT_INO,
            size: 0,
            blocks: 0,
            atime: self.last_refresh,
            mtime: self.last_refresh,
            ctime: self.last_refresh,
            crtime: self.last_refresh,
            kind: FileType::Directory,
            perm: DIR_PERM,
            nlink: 2,
            uid: self.uid,
            gid: self.gid,
            rdev: 0,
            flags: 0,
            blksize: 4096,
        }
    }

    /// The attributes of the file with the given inode, if there is one.
    pub open spec fn attr_of(&self, ino: u64) -> Option<FileAttr> {
        if self.tables().files.contains_key(ino) {
            Some(self.file_attr_of(ino, self.tables().files[ino].content.len() as u64))
        } else {
            None
        }
    }

    /// What a lookup finds: the file of the given name, in the root directory
    /// only. A name that is not valid Unicode is no file's.
    pub open spec fn lookup_of(&self, parent: u64, name: Option<Seq<char>>) -> Option<FileAttr> {
        if parent == ROOT_INO && name is Some && self.tables().names.contains_key(name->0) {
            self.attr_of(self.tables().names[name->0])
        } else {
            None
        }
    }

    /// Looks up a name in a directory: the attributes of the file, or nothing
    /// if there is none.
    pub fn lookup(&self, parent: u64, name: Option<&str>) -> (attr: Option<FileAttr>)
        ensures
            attr == self.lookup_of(
                parent,
                match name {
                    Some(name) => Some(name@),
                    None => None,
                },
            ),
    {
        if parent != ROOT_INO {
            return None;
        }
        match name {
            Some(name) => match self.name_to_ino.get(name) {
                Some(ino) => match self.entries.get(ino) {
                    Some(entry) => Some(self.file_attr(*ino, entry.content.len() as u64)),
                    None => None,
                },
                None => None,
            },
            None => None,
        }
    }

    /// The attributes behind an inode, the root's included.
    pub open spec fn getattr_of(&self, ino: u64) -> Option<FileAttr> {
        if ino == ROOT_INO {
            Some(self.dir_attr_of())
        } else {
            self.attr_of(ino)
        }
    }

    /// The attributes behind an inode, or nothing if there is no such inode.
    pub fn getattr(&self, ino: u64) -> (attr: Option<FileAttr>)
        ensures
            attr == self.getattr_of(ino),
    {
        if ino == ROOT_INO {
            return Some(self.dir_attr());
        }
        match self.entries.get(&ino) {
            Some(entry) => Some(self.file_attr(ino, entry.content.len() as u64)),
            None => None,
        }
    }

    /// What a read gives.
    pub open spec fn read_of(&self, ino: u64, offset: i64, size: u32) -> Option<Seq<u8>> {
        if self.tables().files.contains_key(ino) {
            Some(slice_of(self.tables().files[ino].content, offset as int, size as int))
        } else {
            None
        }
    }

    /// Reads up to `size` bytes of a file from `offset` on, or nothing if there
    /// is no such file.
    pub fn read(&self, ino: u64, offset: i64, size: u32) -> (data: Option<Vec<u8>>)
        ensures
            match data {
                Some(data) => self.read_of(ino, offset, size) == Some(data@),
                None => self.read_of(ino, offset, size) is None,
            },
    {
        match self.entries.get(&ino) {
            Some(entry) => {
                let len: usize = entry.content.len();
                let start: usize = if offset < 0 || offset as u64 > len as u64 {
                    len
                } else {
                    offset as usize
                };
                let wanted: usize = start.saturating_add(size as usize);
                let end: usize = if wanted < len {
                    wanted
                } else {
                    len
                };
                Some(slice_to_vec(slice_subrange(entry.content.as_slice(), start, end)))
            },
            None => None,
        }
    }

    /// Every file once, by inode and name, in the order in which the table of
    /// files happens to be walked.
    pub fn walk(&self) -> (walk: Vec<(u64, String)>)
        ensures
            is_walk(self.tables().files, walk_views(walk@)),
    {
        let mut walk: Vec<(u64, String)> = Vec::new();
        let entries = self.entries.iter();
        let ghost pairs = vstd::std_specs::iter::IteratorSpec::remaining(&entries);
        for (ino, file) in it: entries
            invariant
                it.seq() == pairs,
                walk@.len() == it.index(),
                forall|i: int|
                    0 <= i < walk@.len() ==> (#[trigger] walk@[i]).0 == pairs[i].0
                        && walk@[i].1@ == pairs[i].1.name@,
        {
            walk.push((*ino, file.name.clone()));
        }
        proof {
            let m = self.entries@;
            let views = walk_views(walk@);
            assert(walk@.len() == pairs.len());
            assert forall|i: int| 0 <= i < views.len() implies {
                &&& self.tables().files.contains_key((#[trigger] views[i]).0)
                &&& self.tables().files[views[i].0].name == views[i].1
            } by {
                assert(m.contains_key(*pairs[i].0));
                assert(m[*pairs[i].0] == *pairs[i].1);
                assert(walk@[i].0 == pairs[i].0);
            }
            assert forall|i: int, j: int| 0 <= i < j < views.len() implies (
            #[trigger] views[i]).0 != (#[trigger] views[j]).0 by {
                assert(walk@[i].0 == pairs[i].0 && walk@[j].0 == pairs[j].0);
                assert(m[*pairs[i].0] == *pairs[i].1);
                assert(m[*pairs[j].0] == *pairs[j].1);
                assert(pairs[i] != pairs[j]);
            }
            assert forall|ino: u64| #[trigger]
                self.tables().files.contains_key(ino) implies exists|i: int|
                0 <= i < views.len() && (#[trigger] views[i]).0 == ino by {
                assert(pairs.contains((&ino, &m[ino])));
                let i = choose|i: int| 0 <= i < pairs.len() && pairs[i] == (&ino, &m[ino]);
                assert(walk@[i].0 == pairs[i].0);
                assert(views[i].0 == ino);
            }
        }
        walk
    }

    /// Whether `page` is a listing of the root directory from `offset` on, with
    /// the files in the order of some walk.
    pub open spec fn is_page(&self, offset: i64, page: Seq<DirEntryView>) -> bool {
        exists|walk: Seq<(u64, Seq<char>)>| #[trigger]
            is_walk(self.tables().files, walk) && page == page_of(walk, offset as int)
    }

    /// Lists a directory from `offset` on. Only the root is a directory. The
    /// files come in the order in which their table happens to be walked.
    pub fn readdir(&self, ino: u64, offset: i64) -> (page: Option<Vec<DirEntry>>)
        ensures
            match page {
                Some(page) => ino == ROOT_INO && self.is_page(offset, entry_views(page@)),
                None => ino != ROOT_INO,
            },
    {
        if ino != ROOT_INO {
            return None;
        }
        let walk: Vec<(u64, String)> = self.walk();
        Some(list_page(&walk, offset))
    }
}

/// A read that asks for at least as much as there is gives the whole content.
pub proof fn law_long_read_gives_all(content: Seq<u8>, size: int)
    requires
        size >= content.len(),
    ensures
        slice_of(content, 0, size) == content,
{
}

/// Two reads, the second where the first was to end, give what one read of both
/// sizes gives.
pub proof fn law_reads_join(content: Seq<u8>, offset: int, m: int, n: int)
    requires
        0 <= offset,
        0 <= m,
        0 <= n,
    ensures
        slice_of(content, offset, m) + slice_of(content, offset + m, n) == slice_of(
            content,
            offset,
            m + n,
        ),
{
}

/// A read outside a file gives nothing.
pub proof fn law_read_outside_gives_nothing(content: Seq<u8>, offset: int, size: int)
    requires
        offset < 0 || offset >= content.len(),
        0 <= size,
    ensures
        slice_of(content, offset, size).len() == 0,
{
}

/// Nobody may write to a file or to the directory.
pub proof fn law_permissions_are_read_only(fs: SshAgentFs, ino: u64)
    ensures
        fs.getattr_of(ino) matches Some(attr) ==> attr.perm & 0o222 == 0,
{
    assert(0o444u16 & 0o222 == 0) by (bit_vector);
    assert(0o555u16 & 0o222 == 0) by (bit_vector);
}

/// There are no subdirectories: the root is the only directory.
pub proof fn law_layout_is_flat(fs: SshAgentFs, ino: u64)
    requires
        fs.getattr_of(ino) is Some,
    ensures
        fs.getattr_of(ino)->0.kind == FileType::Directory <==> ino == ROOT_INO,
{
}

/// A file that a lookup finds is a regular file of the root directory: its
/// inode is not the root's and has the attributes that the lookup gave, and a
/// read of its size from its beginning gives all of its content.
pub proof fn law_lookup_agrees_with_getattr_and_read(fs: SshAgentFs, name: Seq<char>, size: u32)
    requires
        fs.wf(),
        fs.lookup_of(ROOT_INO, Some(name)) is Some,
        fs.lookup_of(ROOT_INO, Some(name))->0.size <= size,
    ensures
        ({
            let attr = fs.lookup_of(ROOT_INO, Some(name))->0;
            &&& attr.ino != ROOT_INO
            &&& fs.getattr_of(attr.ino) == Some(attr)
            &&& fs.tables().files[attr.ino].name == name
            &&& fs.tables().files[attr.ino].content.len() == attr.size
            &&& fs.read_of(attr.ino, 0, size) == Some(fs.tables().files[attr.ino].content)
        }),
{
    let ino = fs.tables().names[name];
    lemma_content_fits(fs, ino);
    law_long_read_gives_all(fs.tables().files[ino].content, size as int);
}

proof fn lemma_content_fits(fs: SshAgentFs, ino: u64)
    requires
        fs.tables().files.contains_key(ino),
    ensures
        fs.tables().files[ino].content.len() <= u64::MAX,
{
    let content = fs.entries@[ino].content;
    assert(content@.len() == content.len());
}

/// Once the tables are rebuilt from the records of the agent's keys, a key can
/// be read back: its file name leads to a file whose content is the key's line
/// and a line feed. This holds of every key that has a line, unless a later key
/// has the same file name.
pub proof fn law_key_can_be_read_back(
    fs: SshAgentFs,
    old: Tables,
    records: Seq<RecordView>,
    i: int,
    size: u32,
)
    requires
        old.wf(),
        old.next_ino + records.len() <= u64::MAX,
        fs.tables() == table::refreshed(old, records),
        0 <= i < records.len(),
        table::is_shown(records, i),
        forall|j: int|
            i < j < records.len() && table::is_shown(records, j) ==> #[trigger] table::name_at(
                records,
                j,
            ) != table::name_at(records, i),
        table::content_of(records[i].line->Ok_0).len() <= size,
    ensures
        ({
            let name = table::name_at(records, i);
            let content = table::content_of(records[i].line->Ok_0);
            &&& fs.lookup_of(ROOT_INO, Some(name)) matches Some(attr)
            &&& attr.size == content.len()
            &&& fs.read_of(attr.ino, 0, size) == Some(content)
        }),
{
    table::law_key_is_found_under_its_name(old, records, i);
    table::law_inodes_are_stable(old, records);
    let ino = fs.tables().names[table::name_at(records, i)];
    lemma_content_fits(fs, ino);
    law_long_read_gives_all(fs.tables().files[ino].content, size as int);
}

/// A listing that goes on at the offset of one of its entries goes on right
/// after that entry.
pub proof fn law_listing_resumes(walk: Seq<(u64, Seq<char>)>, offset: int, i: int)
    requires
        walk.len() + 2 <= i64::MAX,
        0 <= offset,
        0 <= i < page_of(walk, offset).len(),
    ensures
        page_of(walk, page_of(walk, offset)[i].offset as int) == page_of(walk, offset).skip(i + 1),
{
}

/// A listing from the beginning names the directory itself, its parent, and
/// every file, each file once, and numbers the entries from one on.
pub proof fn law_listing_is_complete(fs: SshAgentFs, page: Seq<DirEntryView>)
    requires
        fs.is_page(0, page),
    ensures
        page.len() >= 2,
        page[0].name == "."@ && page[0].ino == 1 && page[0].kind == FileType::Directory,
        page[1].name == ".."@ && page[1].ino == 1 && page[1].kind == FileType::Directory,
        page.len() <= i64::MAX ==> forall|i: int|
            0 <= i < page.len() ==> (#[trigger] page[i]).offset == i + 1,
        forall|i: int|
            2 <= i < page.len() ==> {
                &&& fs.tables().files.contains_key((#[trigger] page[i]).ino)
                &&& fs.tables().files[page[i].ino].name == page[i].name
                &&& page[i].kind == FileType::RegularFile
            },
        forall|i: int, j: int|
            2 <= i < j < page.len() ==> (#[trigger] page[i]).ino != (#[trigger] page[j]).ino,
        forall|ino: u64| #[trigger]
            fs.tables().files.contains_key(ino) ==> exists|i: int|
                2 <= i < page.len() && (#[trigger] page[i]).ino == ino,
{
    let files = fs.tables().files;
    let walk = choose|walk: Seq<(u64, Seq<char>)>| #[trigger]
        is_walk(files, walk) && page == page_of(walk, 0);
    assert(page == listing(walk));
    assert forall|ino: u64| #[trigger] files.contains_key(ino) implies exists|i: int|
        2 <= i < page.len() && (#[trigger] page[i]).ino == ino by {
        let i = choose|i: int| 0 <= i < walk.len() && (#[trigger] walk[i]).0 == ino;
        assert(page[i + 2].ino == ino);
    }
}

/// A read gives exactly the bytes of the file that it asks for, from the offset
/// on and as many as were asked for or are left, and nothing if the offset is
/// not inside the file. Where there is no file there is nothing to read.
pub proof fn law_read_gives_the_bytes_asked_for(fs: SshAgentFs, ino: u64, offset: i64, size: u32)
    ensures
        fs.read_of(ino, offset, size) is Some <==> fs.tables().files.contains_key(ino),
        fs.tables().files.contains_key(ino) ==> {
            let content = fs.tables().files[ino].content;
            let data = fs.read_of(ino, offset, size)->0;
            if 0 <= offset < content.len() {
                &&& data.len() == if size <= content.len() - offset {
                    size as int
                } else {
                    content.len() - offset
                }
                &&& forall|i: int| 0 <= i < data.len() ==> #[trigger] data[i] == content[offset + i]
            } else {
                data.len() == 0
            }
        },
{
}

/// A file of whatever size counts as many blocks of 512 bytes as it takes to
/// hold it, and no more. It belongs to the owner of the mount, everyone may read
/// it, nobody may write to it, and its times are those of the last refresh.
pub proof fn law_file_attributes(fs: SshAgentFs, ino: u64, size: u64)
    ensures
        ({
            let attr = fs.file_attr_of(ino, size);
            &&& attr.ino == ino
            &&& attr.size == size
            &&& 512 * attr.blocks >= size
            &&& attr.blocks > 0 ==> 512 * (attr.blocks - 1) < size
            &&& attr.atime == fs.refreshed_at()
            &&& attr.mtime == fs.refreshed_at()
            &&& attr.ctime == fs.refreshed_at()
            &&& attr.crtime == fs.refreshed_at()
            &&& attr.kind == FileType::RegularFile
            &&& attr.perm == 0o444
            &&& attr.nlink == 1
            &&& attr.uid == fs.owner().0
            &&& attr.gid == fs.owner().1
            &&& attr.rdev == 0
            &&& attr.flags == 0
            &&& attr.blksize == 4096
        }),
{
}

/// The root directory is always there. It belongs to the owner of the mount,
/// everyone may list it, nobody may write to it, and its times are those of the
/// last refresh.
pub proof fn law_root_attributes(fs: SshAgentFs)
    ensures
        fs.getattr_of(1) == Some(fs.dir_attr_of()),
        ({
            let attr = fs.dir_attr_of();
            &&& attr.ino == 1
            &&& attr.size == 0
            &&& attr.blocks == 0
            &&& attr.atime == fs.refreshed_at()
            &&& attr.mtime == fs.refreshed_at()
            &&& attr.ctime == fs.refreshed_at()
            &&& attr.crtime == fs.refreshed_at()
            &&& attr.kind == FileType::Directory
            &&& attr.perm == 0o555
            &&& attr.nlink == 2
            &&& attr.uid == fs.owner().0
            &&& attr.gid == fs.owner().1
            &&& attr.rdev == 0
            &&& attr.flags == 0
            &&& attr.blksize == 4096
        }),
{
}

/// An inode other than the root's has attributes exactly if there is a file
/// under it, and they are those of a file of that inode that is as long as its
/// content.
pub proof fn law_file_has_the_size_of_its_content(fs: SshAgentFs, ino: u64)
    requires
        ino != 1,
    ensures
        fs.getattr_of(ino) is Some <==> fs.tables().files.contains_key(ino),
        fs.tables().files.contains_key(ino) ==> {
            let attr = fs.getattr_of(ino)->0;
            &&& attr == fs.file_attr_of(ino, attr.size)
            &&& attr.size == fs.tables().files[ino].content.len()
        },
{
    if fs.tables().files.contains_key(ino) {
        lemma_content_fits(fs, ino);
    }
}

/// A lookup finds something exactly if it is for a name that is there, in the
/// root directory, and then it gives the attributes of that name's inode.
pub proof fn law_lookup_finds_names_of_the_root(
    fs: SshAgentFs,
    parent: u64,
    name: Option<Seq<char>>,
)
    requires
        fs.wf(),
    ensures
        fs.lookup_of(parent, name) is Some <==> parent == 1 && name is Some
            && fs.tables().names.contains_key(name->0),
        fs.lookup_of(parent, name) is Some ==> fs.lookup_of(parent, name) == fs.getattr_of(
            fs.tables().names[name->0],
        ),
{
    if name is Some && fs.tables().names.contains_key(name->0) {
        assert(fs.tables().files.contains_key(fs.tables().names[name->0]));
    }
}

/// The root directory lists itself, its parent and then the files of the walk,
/// all of them, each with its inode and its whole name, and numbers the entries
/// from one on. A listing from an offset on is the rest of it, and nothing if
/// the offset is outside.
pub proof fn law_page_is_the_rest_of_the_directory(
    walk: Seq<(u64, Seq<char>)>,
    offset: int,
    i: int,
)
    requires
        walk.len() + 2 <= i64::MAX,
    ensures
        ({
            let all = page_of(walk, 0);
            let page = page_of(walk, offset);
            &&& all.len() == walk.len() + 2
            &&& 0 <= i < all.len() ==> all[i].offset == i + 1
            &&& all[0].ino == 1 && all[0].kind == FileType::Directory && all[0].name == "."@
            &&& all[1].ino == 1 && all[1].kind == FileType::Directory && all[1].name == ".."@
            &&& 2 <= i < all.len() ==> {
                &&& all[i].ino == walk[i - 2].0
                &&& all[i].kind == FileType::RegularFile
                &&& all[i].name == walk[i - 2].1
            }
            &&& 0 <= offset <= all.len() ==> {
                &&& page.len() == all.len() - offset
                &&& 0 <= i < page.len() ==> page[i] == all[offset + i]
            }
            &&& offset < 0 || offset > all.len() ==> page.len() == 0
        }),
{
}

/// What a listing from an offset on gives is the rest of a listing of the whole
/// directory, `all`, and nothing if the offset is outside.
pub proof fn law_page_belongs_to_a_whole_listing(
    fs: SshAgentFs,
    offset: i64,
    page: Seq<DirEntryView>,
) -> (all: Seq<DirEntryView>)
    requires
        fs.is_page(offset, page),
    ensures
        fs.is_page(0, all),
        0 <= offset <= all.len() ==> page == all.skip(offset as int),
        offset < 0 || offset > all.len() ==> page.len() == 0,
{
    let walk = choose|walk: Seq<(u64, Seq<char>)>| #[trigger]
        is_walk(fs.tables().files, walk) && page == page_of(walk, offset as int);
    let all = page_of(walk, 0);
    assert(all == listing(walk));
    all
}

/// Files, entries, keys that were left out, and lists of them stand for what
/// they hold, each item in its place.
pub proof fn law_files_stand_for_themselves(
    entries: Map<u64, KeyFile>,
    ino: u64,
    page: Seq<DirEntry>,
    walk: Seq<(u64, String)>,
    skipped: Seq<Skipped>,
    i: int,
)
    ensures
        file_views(entries).contains_key(ino) <==> entries.contains_key(ino),
        entries.contains_key(ino) ==> {
            let view = file_views(entries)[ino];
            &&& view.name == entries[ino].name@
            &&& view.content == entries[ino].content@
            &&& view.ino == entries[ino].ino
        },
        entry_views(page).len() == page.len(),
        0 <= i < page.len() ==> {
            let view = entry_views(page)[i];
            &&& view.ino == page[i].ino
            &&& view.offset == page[i].offset
            &&& view.kind == page[i].kind
            &&& view.name == page[i].name@
        },
        walk_views(walk).len() == walk.len(),
        0 <= i < walk.len() ==> walk_views(walk)[i] == (walk[i].0, walk[i].1@),
        skipped_views(skipped).len() == skipped.len(),
        0 <= i < skipped.len() ==> skipped_views(skipped)[i] == (
            skipped[i].name@,
            skipped[i].reason@,
        ),
{
}

} // verus!
