//! What the file tables hold after a refresh, as mathematics.

use vstd::prelude::*;
use vstd::utf8::*;

use crate::keys;
use crate::keys::{IdentityView, RecordView};
use crate::names;

verus! {

/// The inode of the mount's root directory.
pub const ROOT_INO: u64 = 1;

/// A file of the mount, as a mathematical value.
pub struct FileView {
    pub name: Seq<char>,
    pub content: Seq<u8>,
    pub ino: u64,
}

/// The tables of the filesystem: the files by inode, the inodes by file name,
/// and the inode that the next new name gets.
pub struct Tables {
    pub files: Map<u64, FileView>,
    pub names: Map<Seq<char>, u64>,
    pub next_ino: int,
}

impl Tables {
    /// What always holds of the tables. Inodes below the first that a file may
    /// have, the root's among them, are never given to a file. A file carries
    /// the inode that it is found under. Every name leads to a file of that
    /// name, and every file's name leads somewhere.
    pub open spec fn wf(self) -> bool {
        &&& ROOT_INO < self.next_ino <= u64::MAX
        &&& forall|ino: u64| #[trigger]
            self.files.contains_key(ino) ==> {
                &&& ROOT_INO < ino < self.next_ino
                &&& self.files[ino].ino == ino
                &&& self.names.contains_key(self.files[ino].name)
            }
        &&& forall|name: Seq<char>| #[trigger]
            self.names.contains_key(name) ==> {
                &&& self.files.contains_key(self.names[name])
                &&& self.files[self.names[name]].name == name
            }
    }
}

/// How many of the first `k` records ask for the name `base`.
pub open spec fn earlier(records: Seq<RecordView>, base: Seq<char>, k: int) -> nat
    decreases k,
{
    if k <= 0 {
        0
    } else {
        earlier(records, base, k - 1) + if records[k - 1].base == base {
            1nat
        } else {
            0
        }
    }
}

/// The name of the file of the `i`-th key.
pub open spec fn name_at(records: Seq<RecordView>, i: int) -> Seq<char> {
    names::file_name_of(records[i].base, earlier(records, records[i].base, i))
}

/// Whether the `i`-th key has a file.
pub open spec fn is_shown(records: Seq<RecordView>, i: int) -> bool {
    records[i].line is Ok
}

/// What a key's file holds: the key's line, in UTF-8, and a line feed.
pub open spec fn content_of(line: Seq<char>) -> Seq<u8> {
    encode_utf8(line).push(10u8)
}

/// Whether the `i`-th key's file needs a new inode.
pub open spec fn is_new(old: Tables, records: Seq<RecordView>, i: int) -> bool {
    is_shown(records, i) && !old.names.contains_key(name_at(records, i))
}

/// How many of the first `k` keys need a new inode.
pub open spec fn allocated(old: Tables, records: Seq<RecordView>, k: int) -> nat
    decreases k,
{
    if k <= 0 {
        0
    } else {
        allocated(old, records, k - 1) + if is_new(old, records, k - 1) {
            1nat
        } else {
            0
        }
    }
}

/// The inode of the `i`-th key's file: the one that its name has had so far, or
/// the next new one.
pub open spec fn ino_at(old: Tables, records: Seq<RecordView>, i: int) -> u64 {
    if old.names.contains_key(name_at(records, i)) {
        old.names[name_at(records, i)]
    } else {
        (old.next_ino + allocated(old, records, i)) as u64
    }
}

/// The file of the `i`-th key.
pub open spec fn file_at(old: Tables, records: Seq<RecordView>, i: int) -> FileView {
    FileView {
        name: name_at(records, i),
        content: content_of(records[i].line->Ok_0),
        ino: ino_at(old, records, i),
    }
}

/// The tables after a refresh, made of the first `k` keys: a later key with the
/// name of an earlier one takes its place.
pub open spec fn rebuilt(old: Tables, records: Seq<RecordView>, k: int) -> Tables
    decreases k,
{
    if k <= 0 {
        Tables { files: Map::empty(), names: Map::empty(), next_ino: old.next_ino }
    } else {
        let t = rebuilt(old, records, k - 1);
        if is_shown(records, k - 1) {
            let file = file_at(old, records, k - 1);
            Tables {
                files: t.files.insert(file.ino, file),
                names: t.names.insert(file.name, file.ino),
                next_ino: old.next_ino + allocated(old, records, k),
            }
        } else {
            t
        }
    }
}

/// The tables after a refresh that found the given keys.
pub open spec fn refreshed(old: Tables, records: Seq<RecordView>) -> Tables {
    rebuilt(old, records, records.len() as int)
}

/// The keys among the first `k` that have no file: the name that each would
/// have had, and why there is none.
pub open spec fn skipped(records: Seq<RecordView>, k: int) -> Seq<(Seq<char>, Seq<char>)>
    decreases k,
{
    if k <= 0 {
        Seq::empty()
    } else if is_shown(records, k - 1) {
        skipped(records, k - 1)
    } else {
        skipped(records, k - 1).push((name_at(records, k - 1), records[k - 1].line->Err_0))
    }
}

/// How the tables that are being made relate to those that they replace: a name
/// that had an inode keeps it, and any other has one that was never given out.
pub open spec fn continues(old: Tables, new: Tables) -> bool {
    &&& old.next_ino <= new.next_ino
    &&& forall|ino: u64| #[trigger]
        new.files.contains_key(ino) ==> {
            let name = new.files[ino].name;
            if old.names.contains_key(name) {
                ino == old.names[name]
            } else {
                ino >= old.next_ino
            }
        }
}

pub(crate) proof fn lemma_earlier_bound(records: Seq<RecordView>, base: Seq<char>, k: int)
    requires
        0 <= k,
    ensures
        earlier(records, base, k) <= k,
    decreases k,
{
    if k > 0 {
        lemma_earlier_bound(records, base, k - 1);
    }
}

proof fn lemma_earlier_grows(records: Seq<RecordView>, i: int, k: int)
    requires
        0 <= i < k,
    ensures
        earlier(records, records[i].base, i) < earlier(records, records[i].base, k),
    decreases k,
{
    if i < k - 1 {
        lemma_earlier_grows(records, i, k - 1);
    }
}

pub(crate) proof fn lemma_allocated_bound(old: Tables, records: Seq<RecordView>, i: int, k: int)
    requires
        0 <= i <= k,
    ensures
        allocated(old, records, i) <= allocated(old, records, k),
        allocated(old, records, k) <= k,
    decreases k,
{
    if i < k {
        lemma_allocated_bound(old, records, i, k - 1);
    } else if k > 0 {
        lemma_allocated_bound(old, records, k - 1, k - 1);
    }
}

pub(crate) proof fn lemma_rebuilt(old: Tables, records: Seq<RecordView>, k: int)
    requires
        old.wf(),
        0 <= k <= records.len(),
        old.next_ino + records.len() <= u64::MAX,
    ensures
        rebuilt(old, records, k).wf(),
        rebuilt(old, records, k).next_ino == old.next_ino + allocated(old, records, k),
        continues(old, rebuilt(old, records, k)),
    decreases k,
{
    lemma_allocated_bound(old, records, 0, k);
    if k > 0 {
        let i = k - 1;
        lemma_rebuilt(old, records, i);
        lemma_allocated_bound(old, records, i, k);
        let t = rebuilt(old, records, i);
        let new = rebuilt(old, records, k);
        if is_shown(records, i) {
            let file = file_at(old, records, i);
            if old.names.contains_key(file.name) {
                assert(old.files.contains_key(file.ino));
                if t.files.contains_key(file.ino) {
                    let other = t.files[file.ino].name;
                    assert(old.names.contains_key(other));
                    assert(old.files[old.names[other]].name == other);
                    assert(other == file.name);
                }
            } else {
                assert(!t.files.contains_key(file.ino));
            }
            assert forall|ino: u64| #[trigger] new.files.contains_key(ino) implies {
                &&& ROOT_INO < ino < new.next_ino
                &&& new.files[ino].ino == ino
                &&& new.names.contains_key(new.files[ino].name)
            } by {
                if ino != file.ino {
                    assert(t.files.contains_key(ino));
                }
            }
            assert forall|name: Seq<char>| #[trigger] new.names.contains_key(name) implies {
                &&& new.files.contains_key(new.names[name])
                &&& new.files[new.names[name]].name == name
            } by {
                if name != file.name {
                    assert(t.names.contains_key(name));
                    assert(t.files[t.names[name]].name == name);
                }
            }
            assert forall|ino: u64| #[trigger] new.files.contains_key(ino) implies ({
                let name = new.files[ino].name;
                if old.names.contains_key(name) {
                    ino == old.names[name]
                } else {
                    ino >= old.next_ino
                }
            }) by {
                if ino != file.ino {
                    assert(t.files.contains_key(ino));
                }
            }
        }
    }
}

/// A refresh keeps the tables in order. A file name that was there before keeps
/// its inode, so that open file handles survive. An inode that was given out
/// before is not given to another name.
pub proof fn law_inodes_are_stable(old: Tables, records: Seq<RecordView>)
    requires
        old.wf(),
        old.next_ino + records.len() <= u64::MAX,
    ensures
        refreshed(old, records).wf(),
        forall|name: Seq<char>|
            old.names.contains_key(name) && refreshed(old, records).names.contains_key(name)
                ==> #[trigger] refreshed(old, records).names[name] == old.names[name],
        forall|ino: u64| #[trigger]
            refreshed(old, records).files.contains_key(ino) && ino < old.next_ino ==> {
                let name = refreshed(old, records).files[ino].name;
                old.names.contains_key(name) && old.names[name] == ino
            },
{
    let new = refreshed(old, records);
    lemma_rebuilt(old, records, records.len() as int);
    assert forall|name: Seq<char>|
        old.names.contains_key(name) && new.names.contains_key(
            name,
        ) implies #[trigger] new.names[name] == old.names[name] by {
        assert(new.files.contains_key(new.names[name]));
    }
}

proof fn lemma_later_keys_leave_file(old: Tables, records: Seq<RecordView>, i: int, k: int)
    requires
        old.wf(),
        old.next_ino + records.len() <= u64::MAX,
        0 <= i < k <= records.len(),
        is_shown(records, i),
        forall|j: int|
            i < j < k && is_shown(records, j) ==> #[trigger] name_at(records, j) != name_at(
                records,
                i,
            ),
    ensures
        rebuilt(old, records, k).names.contains_key(name_at(records, i)),
        rebuilt(old, records, k).names[name_at(records, i)] == ino_at(old, records, i),
        rebuilt(old, records, k).files.contains_key(ino_at(old, records, i)),
        rebuilt(old, records, k).files[ino_at(old, records, i)] == file_at(old, records, i),
    decreases k,
{
    if i < k - 1 {
        lemma_later_keys_leave_file(old, records, i, k - 1);
        lemma_rebuilt(old, records, k - 1);
        if is_shown(records, k - 1) {
            let mine = file_at(old, records, i);
            let other = file_at(old, records, k - 1);
            assert(name_at(records, k - 1) != name_at(records, i));
            lemma_allocated_bound(old, records, i, k - 1);
            let t = rebuilt(old, records, k - 1);
            assert(t.files.contains_key(mine.ino));
            if old.names.contains_key(other.name) {
                assert(old.files[old.names[other.name]].name == other.name);
                if old.names.contains_key(mine.name) {
                    assert(old.files[old.names[mine.name]].name == mine.name);
                }
            }
            assert(other.ino != mine.ino);
        }
    }
}

/// After a refresh the file named after a key holds that key's line: its name
/// leads to its inode, and the inode to its content. A key is left out only if
/// a later one has the same file name.
pub proof fn law_key_is_found_under_its_name(old: Tables, records: Seq<RecordView>, i: int)
    requires
        old.wf(),
        old.next_ino + records.len() <= u64::MAX,
        0 <= i < records.len(),
        is_shown(records, i),
        forall|j: int|
            i < j < records.len() && is_shown(records, j) ==> #[trigger] name_at(records, j)
                != name_at(records, i),
    ensures
        refreshed(old, records).names.contains_key(name_at(records, i)),
        ({
            let ino = refreshed(old, records).names[name_at(records, i)];
            &&& refreshed(old, records).files.contains_key(ino)
            &&& refreshed(old, records).files[ino].name == name_at(records, i)
            &&& refreshed(old, records).files[ino].content == content_of(records[i].line->Ok_0)
        }),
{
    lemma_later_keys_leave_file(old, records, i, records.len() as int);
}

proof fn lemma_names_are_listed(old: Tables, records: Seq<RecordView>, k: int, name: Seq<char>)
    requires
        0 <= k <= records.len(),
        rebuilt(old, records, k).names.contains_key(name),
    ensures
        exists|i: int| 0 <= i < k && is_shown(records, i) && #[trigger] name_at(records, i) == name,
    decreases k,
{
    if k > 0 {
        if is_shown(records, k - 1) && name_at(records, k - 1) == name {
        } else {
            lemma_names_are_listed(old, records, k - 1, name);
        }
    }
}

/// After a refresh there is no file but those of the keys that were listed, so
/// the file of a key that the agent has dropped is gone.
pub proof fn law_only_listed_keys_are_shown(
    old: Tables,
    records: Seq<RecordView>,
    name: Seq<char>,
)
    requires
        refreshed(old, records).names.contains_key(name),
    ensures
        exists|i: int|
            0 <= i < records.len() && is_shown(records, i) && #[trigger] name_at(records, i)
                == name,
{
    lemma_names_are_listed(old, records, records.len() as int, name);
}

/// Keys that ask for the same name get different file names.
pub proof fn law_same_comment_is_numbered(records: Seq<RecordView>, i: int, j: int)
    requires
        0 <= i < j < records.len(),
        records[i].base == records[j].base,
    ensures
        name_at(records, i) != name_at(records, j),
{
    lemma_earlier_grows(records, i, j);
    names::law_file_names_clash(
        records[i].base,
        earlier(records, records[i].base, i),
        records[j].base,
        earlier(records, records[j].base, j),
    );
    if name_at(records, i) == name_at(records, j) {
        let n = earlier(records, records[j].base, j);
        reveal_strlit("_");
        assert(records[i].base.len() == (records[j].base + "_"@ + crate::text::decimal(n)).len());
    }
}

/// Keys that ask for different names get different file names, unless the name
/// that one of them asks for is the numbered file name of the other.
pub proof fn law_different_comments_clash_only_by_number(
    records: Seq<RecordView>,
    i: int,
    j: int,
)
    requires
        0 <= i < records.len(),
        0 <= j < records.len(),
        records[i].base != records[j].base,
    ensures
        name_at(records, i) == name_at(records, j) <==> {
            let m = earlier(records, records[i].base, i);
            let n = earlier(records, records[j].base, j);
            ||| m == 0 && n > 0 && records[i].base == records[j].base + "_"@
                + crate::text::decimal(n)
            ||| n == 0 && m > 0 && records[j].base == records[i].base + "_"@
                + crate::text::decimal(m)
        },
{
    names::law_file_names_clash(
        records[i].base,
        earlier(records, records[i].base, i),
        records[j].base,
        earlier(records, records[j].base, j),
    );
}

/// Whether every name that two files share was there before, so that the two
/// share an inode too.
pub open spec fn shares_only_known_names(old: Tables, records: Seq<RecordView>) -> bool {
    forall|i: int, j: int|
        0 <= i < j < records.len() && is_shown(records, i) && is_shown(records, j)
            && #[trigger] name_at(records, i) == #[trigger] name_at(records, j)
            ==> old.names.contains_key(name_at(records, i))
}

proof fn lemma_shown_key_has_a_name(old: Tables, records: Seq<RecordView>, i: int, k: int)
    requires
        0 <= i < k <= records.len(),
        is_shown(records, i),
    ensures
        rebuilt(old, records, k).names.contains_key(name_at(records, i)),
    decreases k,
{
    if i < k - 1 {
        lemma_shown_key_has_a_name(old, records, i, k - 1);
    }
}

proof fn lemma_rebuilt_again(old: Tables, records: Seq<RecordView>, k: int)
    requires
        old.wf(),
        old.next_ino + records.len() <= u64::MAX,
        0 <= k <= records.len(),
        shares_only_known_names(old, records),
    ensures
        ({
            let once = refreshed(old, records);
            let again = rebuilt(once, records, k);
            &&& allocated(once, records, k) == 0
            &&& again.files == rebuilt(old, records, k).files
            &&& again.names == rebuilt(old, records, k).names
            &&& again.next_ino == once.next_ino
        }),
    decreases k,
{
    if k > 0 {
        lemma_rebuilt_again(old, records, k - 1);
        if is_shown(records, k - 1) {
            let once = refreshed(old, records);
            let name = name_at(records, k - 1);
            lemma_shown_key_has_a_name(old, records, k - 1, records.len() as int);
            if old.names.contains_key(name) {
                law_inodes_are_stable(old, records);
                assert(once.names[name] == old.names[name]);
            } else {
                lemma_later_keys_leave_file(old, records, k - 1, records.len() as int);
            }
            assert(file_at(once, records, k - 1) == file_at(old, records, k - 1));
        }
    }
}

/// A refresh that finds the same keys again changes nothing, unless two of their
/// files share a name that was new at the first.
pub proof fn law_refresh_is_idempotent(old: Tables, records: Seq<RecordView>)
    requires
        old.wf(),
        old.next_ino + records.len() <= u64::MAX,
        shares_only_known_names(old, records),
    ensures
        refreshed(refreshed(old, records), records) == refreshed(old, records),
{
    lemma_rebuilt_again(old, records, records.len() as int);
}

/// Whatever names the files share, from the second refresh on nothing changes
/// while the agent's keys stay the same.
pub proof fn law_refresh_settles(old: Tables, records: Seq<RecordView>)
    requires
        old.wf(),
        old.next_ino + 2 * records.len() <= u64::MAX,
    ensures
        ({
            let twice = refreshed(refreshed(old, records), records);
            refreshed(twice, records) == twice
        }),
{
    let once = refreshed(old, records);
    lemma_rebuilt(old, records, records.len() as int);
    lemma_allocated_bound(old, records, 0, records.len() as int);
    assert forall|i: int, j: int|
        0 <= i < j < records.len() && is_shown(records, i) && is_shown(records, j)
            && #[trigger] name_at(records, i) == #[trigger] name_at(
            records,
            j,
        ) implies once.names.contains_key(name_at(records, i)) by {
        lemma_shown_key_has_a_name(old, records, i, records.len() as int);
    }
    law_refresh_is_idempotent(once, records);
}

/// Whether two listed keys are the same key, comments aside.
pub open spec fn is_same_key(a: IdentityView, b: IdentityView) -> bool {
    match (a, b) {
        (
            IdentityView::PublicKey { blob: x, .. },
            IdentityView::PublicKey { blob: y, .. },
        ) => x == y,
        (
            IdentityView::Certificate { blob: x, .. },
            IdentityView::Certificate { blob: y, .. },
        ) => x == y,
        _ => false,
    }
}

/// Whether a listed key has no comment to name its file after.
pub open spec fn is_uncommented(identity: IdentityView) -> bool {
    match identity {
        IdentityView::PublicKey { comment, .. } => names::sanitized(comment) is None,
        IdentityView::Certificate { comment, .. } => names::sanitized(comment) is None,
    }
}

/// The same key without a usable comment gets the same file name in any two
/// listings, of whatever agents, exactly if as many keys ask for that name
/// before it in the one as in the other.
pub proof fn law_uncommented_key_keeps_its_file_name(
    a: Seq<IdentityView>,
    i: int,
    b: Seq<IdentityView>,
    j: int,
)
    requires
        0 <= i < a.len(),
        0 <= j < b.len(),
        is_same_key(a[i], b[j]),
        is_uncommented(a[i]),
        is_uncommented(b[j]),
        keys::records_of(a, a.len() as int) is Ok,
        keys::records_of(b, b.len() as int) is Ok,
    ensures
        ({
            let x = keys::records_of(a, a.len() as int)->Ok_0;
            let y = keys::records_of(b, b.len() as int)->Ok_0;
            &&& x[i].base == y[j].base
            &&& name_at(x, i) == name_at(y, j) <==> earlier(x, x[i].base, i) == earlier(
                y,
                y[j].base,
                j,
            )
        }),
{
    let x = keys::records_of(a, a.len() as int)->Ok_0;
    let y = keys::records_of(b, b.len() as int)->Ok_0;
    keys::law_records_follow_listing(a, a.len() as int, i);
    keys::law_records_follow_listing(b, b.len() as int, j);
    let m = earlier(x, x[i].base, i);
    let n = earlier(y, y[j].base, j);
    names::law_file_names_clash(x[i].base, m, y[j].base, n);
    reveal_strlit("_");
    assert(x[i].base.len() < (x[i].base + "_"@ + crate::text::decimal(m)).len());
    assert(x[i].base.len() < (x[i].base + "_"@ + crate::text::decimal(n)).len());
}

/// Every file's name ends in `.pub`.
pub proof fn law_every_name_ends_in_pub(old: Tables, records: Seq<RecordView>, name: Seq<char>)
    requires
        refreshed(old, records).names.contains_key(name),
    ensures
        names::has_suffix(name, ".pub"@),
{
    lemma_names_are_listed(old, records, records.len() as int, name);
    let i = choose|i: int|
        0 <= i < records.len() && is_shown(records, i) && #[trigger] name_at(records, i) == name;
    assert(name.skip(name.len() - ".pub"@.len()) == ".pub"@);
}

/// The content of a file is the whole line that it shows, in UTF-8, however long
/// it is, and one line feed at the end: the line can be read back from it.
pub proof fn law_content_is_the_whole_line(line: Seq<char>)
    ensures
        content_of(line).len() == encode_utf8(line).len() + 1,
        content_of(line).last() == 10,
        content_of(line).drop_last() == encode_utf8(line),
        valid_utf8(content_of(line).drop_last()),
        decode_utf8(content_of(line).drop_last()) == line,
{
    assert(content_of(line).drop_last() == encode_utf8(line));
    encode_utf8_valid_utf8(line);
    encode_utf8_decode_utf8(line);
}

/// After a refresh the file that is found under a key's name holds the whole
/// line of that key, in UTF-8, and one line feed at the end. This holds of every
/// key that has a line, however long, unless a later key has the same file name.
pub proof fn law_file_holds_the_whole_line(old: Tables, records: Seq<RecordView>, i: int)
    requires
        old.wf(),
        old.next_ino + records.len() <= u64::MAX,
        0 <= i < records.len(),
        records[i].line is Ok,
        forall|j: int|
            i < j < records.len() && records[j].line is Ok ==> #[trigger] name_at(records, j)
                != name_at(records, i),
    ensures
        refreshed(old, records).names.contains_key(name_at(records, i)),
        refreshed(old, records).names[name_at(records, i)] == ino_at(old, records, i),
        ({
            let new = refreshed(old, records);
            let content = new.files[new.names[name_at(records, i)]].content;
            let line = records[i].line->Ok_0;
            &&& content.len() == encode_utf8(line).len() + 1
            &&& content.last() == 10
            &&& content.drop_last() == encode_utf8(line)
            &&& decode_utf8(content.drop_last()) == line
        }),
{
    lemma_later_keys_leave_file(old, records, i, records.len() as int);
    law_content_is_the_whole_line(records[i].line->Ok_0);
}

/// How many keys have asked for a name is the number of those that did, each
/// counted once, shown or not.
pub proof fn law_every_earlier_key_counts(records: Seq<RecordView>, base: Seq<char>, k: int)
    requires
        0 <= k <= records.len(),
    ensures
        earlier(records, base, k) == records.take(k).filter(|r: RecordView| r.base == base).len(),
    decreases k,
{
    reveal(Seq::filter);
    if k > 0 {
        law_every_earlier_key_counts(records, base, k - 1);
        assert(records.take(k).drop_last() == records.take(k - 1));
        assert(records.take(k).last() == records[k - 1]);
    }
}

/// A key's file is named after what the key asks for: with `.pub` behind it if
/// no earlier key asks for the same, and otherwise with an underscore, the
/// number of earlier keys that do, in decimal, and `.pub`.
pub proof fn law_file_is_numbered_by_earlier_keys(records: Seq<RecordView>, i: int)
    requires
        0 <= i < records.len(),
    ensures
        ({
            let base = records[i].base;
            let n = records.take(i).filter(|r: RecordView| r.base == base).len();
            let name = name_at(records, i);
            &&& base.is_prefix_of(name)
            &&& ".pub"@.is_suffix_of(name)
            &&& n == 0 ==> name.len() == base.len() + 4
            &&& n > 0 ==> {
                &&& name.len() > base.len() + 5
                &&& name[base.len() as int] == '_'
                &&& crate::text::number_of(
                    name.subrange(base.len() as int + 1, name.len() - 4),
                ) == n
            }
        }),
{
    let base = records[i].base;
    law_every_earlier_key_counts(records, base, i);
    names::law_file_name_form(base, earlier(records, base, i));
}

proof fn lemma_none_new_between(old: Tables, records: Seq<RecordView>, i: int, k: int)
    requires
        0 <= i <= k,
        forall|j: int| i <= j < k ==> !#[trigger] is_new(old, records, j),
    ensures
        allocated(old, records, k) == allocated(old, records, i),
    decreases k,
{
    if i < k {
        assert(!is_new(old, records, k - 1));
        lemma_none_new_between(old, records, i, k - 1);
    }
}

/// Inodes are given out one after the other: the first file with a new name gets
/// the next one, and each further file with a new name the one after that of the
/// file before it. A file whose name was there before takes none, and neither
/// does a key without a file.
pub proof fn law_new_inodes_are_consecutive(old: Tables, records: Seq<RecordView>, i: int, j: int)
    requires
        old.wf(),
        old.next_ino + records.len() <= u64::MAX,
        0 <= i < j <= records.len(),
        forall|m: int|
            i < m < j ==> records[m].line is Err || old.names.contains_key(
                #[trigger] name_at(records, m),
            ),
    ensures
        old.names.contains_key(name_at(records, i)) ==> ino_at(old, records, i)
            == old.names[name_at(records, i)],
        records[i].line is Ok && !old.names.contains_key(name_at(records, i)) ==> {
            &&& (forall|m: int|
                0 <= m < i ==> records[m].line is Err || old.names.contains_key(
                    #[trigger] name_at(records, m),
                )) ==> ino_at(old, records, i) == old.next_ino
            &&& j < records.len() && records[j].line is Ok && !old.names.contains_key(
                name_at(records, j),
            ) ==> ino_at(old, records, j) == ino_at(old, records, i) + 1
            &&& j == records.len() ==> refreshed(old, records).next_ino == ino_at(
                old,
                records,
                i,
            ) + 1
        },
{
    let n = records.len() as int;
    lemma_allocated_bound(old, records, i, n);
    lemma_allocated_bound(old, records, j, n);
    lemma_rebuilt(old, records, n);
    assert forall|m: int| i + 1 <= m < j implies !#[trigger] is_new(old, records, m) by {
        assert(records[m].line is Err || old.names.contains_key(name_at(records, m)));
    }
    lemma_none_new_between(old, records, i + 1, j);
    if forall|m: int|
        0 <= m < i ==> records[m].line is Err || old.names.contains_key(
            #[trigger] name_at(records, m),
        ) {
        assert forall|m: int| 0 <= m < i implies !#[trigger] is_new(old, records, m) by {
            assert(records[m].line is Err || old.names.contains_key(name_at(records, m)));
        }
        lemma_none_new_between(old, records, 0, i);
    }
    if records[i].line is Ok && !old.names.contains_key(name_at(records, i)) {
        assert(is_new(old, records, i));
        assert(allocated(old, records, i + 1) == allocated(old, records, i) + 1);
    }
}

/// A refresh that finds no new file name gives out no inode.
pub proof fn law_known_names_need_no_inode(old: Tables, records: Seq<RecordView>)
    requires
        old.wf(),
        old.next_ino + records.len() <= u64::MAX,
        forall|m: int|
            0 <= m < records.len() ==> records[m].line is Err || old.names.contains_key(
                #[trigger] name_at(records, m),
            ),
    ensures
        refreshed(old, records).next_ino == old.next_ino,
{
    let n = records.len() as int;
    lemma_rebuilt(old, records, n);
    assert forall|m: int| 0 <= m < n implies !#[trigger] is_new(old, records, m) by {
        assert(records[m].line is Err || old.names.contains_key(name_at(records, m)));
    }
    lemma_none_new_between(old, records, 0, n);
}

proof fn lemma_file_comes_from_a_key(old: Tables, records: Seq<RecordView>, k: int, ino: u64) -> (i:
    int)
    requires
        0 <= k <= records.len(),
        rebuilt(old, records, k).files.contains_key(ino),
    ensures
        0 <= i < k,
        is_shown(records, i),
        ino == ino_at(old, records, i),
        rebuilt(old, records, k).files[ino] == file_at(old, records, i),
    decreases k,
{
    if is_shown(records, k - 1) && ino_at(old, records, k - 1) == ino {
        k - 1
    } else {
        lemma_file_comes_from_a_key(old, records, k - 1, ino)
    }
}

/// After a refresh every file, by whatever inode it is reached, is that of a
/// listed key, the `i`-th: it has the key's file name and holds the key's whole
/// line and a line feed.
pub proof fn law_every_file_is_a_listed_key(
    old: Tables,
    records: Seq<RecordView>,
    ino: u64,
) -> (i: int)
    requires
        refreshed(old, records).files.contains_key(ino),
    ensures
        0 <= i < records.len(),
        records[i].line is Ok,
        ino == ino_at(old, records, i),
        ({
            let file = refreshed(old, records).files[ino];
            &&& file.ino == ino
            &&& file.name == name_at(records, i)
            &&& file.content == encode_utf8(records[i].line->Ok_0).push(10)
        }),
{
    let i = lemma_file_comes_from_a_key(old, records, records.len() as int, ino);
    law_content_is_the_whole_line(records[i].line->Ok_0);
    i
}

proof fn lemma_file_stays_under_its_inode(old: Tables, records: Seq<RecordView>, i: int, k: int)
    requires
        0 <= i < k <= records.len(),
        is_shown(records, i),
        forall|j: int|
            i < j < k && is_shown(records, j) ==> #[trigger] ino_at(old, records, j) != ino_at(
                old,
                records,
                i,
            ),
    ensures
        rebuilt(old, records, k).files.contains_key(ino_at(old, records, i)),
        rebuilt(old, records, k).files[ino_at(old, records, i)] == file_at(old, records, i),
    decreases k,
{
    if i < k - 1 {
        lemma_file_stays_under_its_inode(old, records, i, k - 1);
        if is_shown(records, k - 1) {
            assert(ino_at(old, records, k - 1) != ino_at(old, records, i));
        }
    }
}

/// After a refresh every key that has a line is found under the inode of its
/// file, with its file name, its whole line and a line feed, unless a later
/// key's file has the same inode.
pub proof fn law_file_is_found_under_its_inode(old: Tables, records: Seq<RecordView>, i: int)
    requires
        0 <= i < records.len(),
        records[i].line is Ok,
        forall|j: int|
            i < j < records.len() && records[j].line is Ok ==> #[trigger] ino_at(old, records, j)
                != ino_at(old, records, i),
    ensures
        refreshed(old, records).files.contains_key(ino_at(old, records, i)),
        ({
            let file = refreshed(old, records).files[ino_at(old, records, i)];
            &&& file.name == name_at(records, i)
            &&& file.content == encode_utf8(records[i].line->Ok_0).push(10)
        }),
{
    lemma_file_stays_under_its_inode(old, records, i, records.len() as int);
    law_content_is_the_whole_line(records[i].line->Ok_0);
}

/// The keys that are reported as left out are those without a line, all of them,
/// in the agent's order, each with the name that its file would have had and the
/// reason that was given for it.
pub proof fn law_every_key_without_a_line_is_reported(records: Seq<RecordView>, k: int)
    requires
        0 <= k <= records.len(),
    ensures
        skipped(records, k) == Seq::new(k as nat, |i: int| i).filter(
            |i: int| records[i].line is Err,
        ).map_values(|i: int| (name_at(records, i), records[i].line->Err_0)),
    decreases k,
{
    reveal(Seq::filter);
    if k > 0 {
        law_every_key_without_a_line_is_reported(records, k - 1);
        let all = Seq::new(k as nat, |i: int| i);
        assert(all.drop_last() == Seq::new((k - 1) as nat, |i: int| i));
        assert(all.last() == k - 1);
    }
}

} // verus!
