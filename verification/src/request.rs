//! Requests of the kernel, and the two steps in which each is answered.
//!
//! [`SshAgentFs::handle`] answers a request at once if it can. If the agent has
//! to be asked for its keys first, it says so; whatever came of asking is handed
//! to [`SshAgentFs::resume`], which answers.

use vstd::prelude::*;
use vstd::utf8::*;

use crate::fs;
use crate::fs::{DirEntry, FileAttr, Skipped, SshAgentFs};
use crate::keys;
use crate::keys::{Identity, RecordView};
use crate::table;
use crate::table::ROOT_INO;
use crate::text;
use crate::time;
use crate::time::{Timestamp, TTL_SECS};

verus! {

/// What the kernel asks for.
pub enum Request {
    /// The entry of the given name in a directory. A name that is not valid
    /// Unicode comes as `None`.
    Lookup { parent: u64, name: Option<String> },
    /// The attributes behind an inode.
    Getattr { ino: u64 },
    /// Part of a file's content.
    Read { ino: u64, offset: i64, size: u32 },
    /// The entries of a directory from `offset` on.
    Readdir { ino: u64, offset: i64 },
}

/// What the kernel is told.
pub enum Reply {
    /// A directory entry, with the seconds for which it may be kept.
    Entry { ttl_secs: u64, attr: FileAttr, generation: u64 },
    /// Attributes, with the seconds for which they may be kept.
    Attr { ttl_secs: u64, attr: FileAttr },
    /// Part of a file's content.
    Data(Vec<u8>),
    /// Entries of the directory, as many of which are sent as fit.
    Directory(Vec<DirEntry>),
    /// There is no such file or directory.
    NoEntry,
}

/// What to do about a request.
pub enum Step {
    /// Send this reply.
    Done(Reply),
    /// Ask the agent for its keys, and resume with what came of it.
    QueryAgent,
}

/// What came of asking the agent for its keys.
pub enum Listing {
    /// The agent could not be reached, or did not list its keys.
    Unavailable,
    /// The agent listed its keys; the listing was complete at `at`.
    Taken { identities: Vec<Identity>, at: Timestamp },
}

/// What a listing did to the tables.
pub enum RefreshOutcome {
    /// There was no listing; the tables are as they were.
    Kept,
    /// A key of the listing could not be read; the tables are as they were.
    Refused(String),
    /// The tables were rebuilt, without the keys given here.
    Rebuilt(Vec<Skipped>),
}

/// Whether the answer to a request can depend on the agent's keys.
pub open spec fn concerns_keys(request: Request) -> bool {
    match request {
        Request::Lookup { parent, .. } => parent == ROOT_INO,
        Request::Getattr { ino } => ino != ROOT_INO,
        Request::Read { .. } => true,
        Request::Readdir { ino, .. } => ino == ROOT_INO,
    }
}

/// Whether `reply` is the answer to a request, the tables being what they are.
pub open spec fn is_answer(state: SshAgentFs, request: Request, reply: Reply) -> bool {
    match request {
        Request::Lookup { parent, name } => match state.lookup_of(
            parent,
            text::option_text(name),
        ) {
            Some(attr) => reply == (Reply::Entry { ttl_secs: TTL_SECS, attr, generation: 0 }),
            None => reply is NoEntry,
        },
        Request::Getattr { ino } => match state.getattr_of(ino) {
            Some(attr) => reply == (Reply::Attr { ttl_secs: TTL_SECS, attr }),
            None => reply is NoEntry,
        },
        Request::Read { ino, offset, size } => match state.read_of(ino, offset, size) {
            Some(data) => reply matches Reply::Data(sent) && sent@ == data,
            None => reply is NoEntry,
        },
        Request::Readdir { ino, offset } => if ino == ROOT_INO {
            reply matches Reply::Directory(page) && state.is_page(offset, fs::entry_views(page@))
        } else {
            reply is NoEntry
        },
    }
}

/// What a listing does to the tables: without one, and with one that holds a
/// key that cannot be read, nothing; otherwise they are rebuilt from it.
pub open spec fn is_resumed(
    before: SshAgentFs,
    listing: Listing,
    after: SshAgentFs,
    outcome: RefreshOutcome,
) -> bool {
    match listing {
        Listing::Unavailable => after == before && outcome is Kept,
        Listing::Taken { identities, at } => match keys::records_of(
            keys::identity_views(identities@),
            identities@.len() as int,
        ) {
            Ok(records) => {
                &&& keys::are_described(keys::identity_views(identities@), records)
                &&& after.tables() == table::refreshed(before.tables(), records)
                &&& after.refreshed_at() == at
                &&& outcome matches RefreshOutcome::Rebuilt(skipped)
                &&& fs::skipped_views(skipped@) == table::skipped(records, records.len() as int)
            },
            Err(e) => after == before && (outcome matches RefreshOutcome::Refused(reason)
                && reason@ == e),
        },
    }
}

impl SshAgentFs {
    /// Answers a request from the tables as they are.
    pub fn answer(&self, request: &Request) -> (reply: Reply)
        ensures
            is_answer(*self, *request, reply),
    {
        match request {
            Request::Lookup { parent, name } => {
                let name: Option<&str> = match name {
                    Some(name) => Some(name.as_str()),
                    None => None,
                };
                match self.lookup(*parent, name) {
                    Some(attr) => Reply::Entry { ttl_secs: TTL_SECS, attr, generation: 0 },
                    None => Reply::NoEntry,
                }
            },
            Request::Getattr { ino } => match self.getattr(*ino) {
                Some(attr) => Reply::Attr { ttl_secs: TTL_SECS, attr },
                None => Reply::NoEntry,
            },
            Request::Read { ino, offset, size } => match self.read(*ino, *offset, *size) {
                Some(data) => Reply::Data(data),
                None => Reply::NoEntry,
            },
            Request::Readdir { ino, offset } => match self.readdir(*ino, *offset) {
                Some(page) => Reply::Directory(page),
                None => Reply::NoEntry,
            },
        }
    }

    /// Takes a request that arrives at `now`. The agent has to be asked first
    /// exactly if the request concerns the agent's keys and the last refresh is
    /// out of date.
    pub fn handle(&self, request: &Request, now: Timestamp) -> (step: Step)
        ensures
            match step {
                Step::QueryAgent => concerns_keys(*request) && time::is_stale(
                    self.refreshed_at(),
                    now,
                ),
                Step::Done(reply) => {
                    &&& !(concerns_keys(*request) && time::is_stale(self.refreshed_at(), now))
                    &&& is_answer(*self, *request, reply)
                },
            },
    {
        let concerned: bool = match request {
            Request::Lookup { parent, .. } => *parent == ROOT_INO,
            Request::Getattr { ino } => *ino != ROOT_INO,
            Request::Read { .. } => true,
            Request::Readdir { ino, .. } => *ino == ROOT_INO,
        };
        if concerned && self.maybe_refresh(now) {
            Step::QueryAgent
        } else {
            Step::Done(self.answer(request))
        }
    }

    /// Answers a request for which the agent was asked. Without a usable
    /// listing the answer comes from whatever was cached.
    pub fn resume(&mut self, request: &Request, listing: &Listing) -> (r: (Reply, RefreshOutcome))
        requires
            old(self).wf(),
            listing matches Listing::Taken { identities, .. } ==> old(self).tables().next_ino
                + identities@.len() <= u64::MAX,
        ensures
            final(self).wf(),
            final(self).owner() == old(self).owner(),
            final(self).socket() == old(self).socket(),
            is_resumed(*old(self), *listing, *final(self), r.1),
            is_answer(*final(self), *request, r.0),
    {
        let outcome: RefreshOutcome = match listing {
            Listing::Unavailable => RefreshOutcome::Kept,
            Listing::Taken { identities, at } => match self.refresh(identities, *at) {
                Ok(skipped) => RefreshOutcome::Rebuilt(skipped),
                Err(reason) => RefreshOutcome::Refused(reason),
            },
        };
        let reply: Reply = self.answer(request);
        (reply, outcome)
    }
}

/// A new filesystem asks the agent at the first request that concerns keys,
/// whenever that is, the first second after the Unix epoch excepted.
pub proof fn law_first_request_refreshes(state: SshAgentFs, now: Timestamp)
    requires
        state.refreshed_at().since_epoch() == 0,
        now.since_epoch() < 0 || now.since_epoch() > 1_000_000_000,
    ensures
        time::is_stale(state.refreshed_at(), now),
{
}

/// Once the agent has listed its keys, a file that belongs to none of them is
/// not found any more.
pub proof fn law_dropped_key_disappears(
    before: SshAgentFs,
    listing: Listing,
    after: SshAgentFs,
    outcome: RefreshOutcome,
    records: Seq<RecordView>,
    parent: u64,
    name: String,
    reply: Reply,
)
    requires
        is_resumed(before, listing, after, outcome),
        listing matches Listing::Taken { identities, .. } && keys::records_of(
            keys::identity_views(identities@),
            identities@.len() as int,
        ) == Ok::<Seq<RecordView>, Seq<char>>(records),
        forall|i: int|
            0 <= i < records.len() && table::is_shown(records, i) ==> #[trigger] table::name_at(
                records,
                i,
            ) != name@,
        is_answer(after, Request::Lookup { parent, name: Some(name) }, reply),
    ensures
        reply is NoEntry,
{
    if after.tables().names.contains_key(name@) {
        table::law_only_listed_keys_are_shown(before.tables(), records, name@);
    }
}

/// The agent's keys matter to a lookup in the root directory, to the attributes
/// of anything but the root, to every read and to a listing of the root, and to
/// nothing else.
pub proof fn law_requests_that_concern_keys(
    ino: u64,
    name: Option<String>,
    offset: i64,
    size: u32,
)
    ensures
        concerns_keys(Request::Lookup { parent: ino, name }) <==> ino == 1,
        concerns_keys(Request::Getattr { ino }) <==> ino != 1,
        concerns_keys(Request::Read { ino, offset, size }),
        concerns_keys(Request::Readdir { ino, offset }) <==> ino == 1,
{
}

/// A request that does not concern the agent's keys has the same answer whatever
/// the keys are.
pub proof fn law_other_requests_need_no_keys(
    one: SshAgentFs,
    other: SshAgentFs,
    request: Request,
    reply: Reply,
)
    requires
        !concerns_keys(request),
        one.owner() == other.owner(),
        one.refreshed_at() == other.refreshed_at(),
    ensures
        is_answer(one, request, reply) == is_answer(other, request, reply),
{
}

/// What a lookup is answered: the entry of the file that has the name, with its
/// attributes, kept for one second, of generation zero; or that there is none.
pub proof fn law_lookup_is_answered(
    state: SshAgentFs,
    parent: u64,
    name: Option<String>,
    reply: Reply,
)
    requires
        state.wf(),
        is_answer(state, Request::Lookup { parent, name }, reply),
    ensures
        parent == 1 && name is Some && state.tables().names.contains_key(name->0@) ==> {
            &&& reply matches Reply::Entry { ttl_secs, attr, generation }
            &&& ttl_secs == 1
            &&& generation == 0
            &&& Some(attr) == state.getattr_of(state.tables().names[name->0@])
        },
        !(parent == 1 && name is Some && state.tables().names.contains_key(name->0@))
            ==> reply is NoEntry,
{
    fs::law_lookup_finds_names_of_the_root(state, parent, text::option_text(name));
}

/// What a request for attributes is answered: those behind the inode, kept for
/// one second; or that there is no such inode.
pub proof fn law_getattr_is_answered(state: SshAgentFs, ino: u64, reply: Reply)
    requires
        is_answer(state, Request::Getattr { ino }, reply),
    ensures
        ino == 1 || state.tables().files.contains_key(ino) ==> {
            &&& reply matches Reply::Attr { ttl_secs, attr }
            &&& ttl_secs == 1
            &&& Some(attr) == state.getattr_of(ino)
        },
        ino != 1 && !state.tables().files.contains_key(ino) ==> reply is NoEntry,
{
}

/// What a read is answered: the bytes of the file that it asks for, or that
/// there is no such file.
pub proof fn law_read_is_answered(
    state: SshAgentFs,
    ino: u64,
    offset: i64,
    size: u32,
    reply: Reply,
)
    requires
        is_answer(state, Request::Read { ino, offset, size }, reply),
    ensures
        !state.tables().files.contains_key(ino) ==> reply is NoEntry,
        state.tables().files.contains_key(ino) ==> {
            let content = state.tables().files[ino].content;
            &&& reply matches Reply::Data(data)
            &&& 0 <= offset < content.len() ==> data@ == content.skip(offset as int).take(
                if size <= content.len() - offset {
                    size as int
                } else {
                    content.len() - offset
                },
            )
            &&& offset < 0 || offset >= content.len() ==> data@.len() == 0
        },
{
    fs::law_read_gives_the_bytes_asked_for(state, ino, offset, size);
}

/// What a request for a listing is answered: for the root, its entries from the
/// offset on; for anything else, that there is no such directory.
pub proof fn law_readdir_is_answered(state: SshAgentFs, ino: u64, offset: i64, reply: Reply)
    requires
        is_answer(state, Request::Readdir { ino, offset }, reply),
    ensures
        ino == 1 ==> {
            &&& reply matches Reply::Directory(page)
            &&& state.is_page(offset, fs::entry_views(page@))
        },
        ino != 1 ==> reply is NoEntry,
{
}

/// If the agent gave no listing, or one with a key that cannot be read, the
/// filesystem is as it was, so that every request has the answer that it had,
/// and the agent is asked again as soon as it would have been.
pub proof fn law_cache_survives_a_failed_listing(
    before: SshAgentFs,
    listing: Listing,
    after: SshAgentFs,
    outcome: RefreshOutcome,
)
    requires
        is_resumed(before, listing, after, outcome),
    ensures
        listing is Unavailable ==> after == before && outcome is Kept,
        listing matches Listing::Taken { identities, .. } ==> forall|i: int|
            0 <= i < identities@.len() && keys::record_of(#[trigger] identities@[i]@) is Err && (
            forall|j: int|
                0 <= j < i ==> keys::record_of(#[trigger] identities@[j]@) is Ok) ==> {
                &&& after == before
                &&& outcome matches RefreshOutcome::Refused(reason)
                &&& reason@ == keys::record_of(identities@[i]@)->Err_0
            },
{
    if let Listing::Taken { identities, .. } = listing {
        let views = keys::identity_views(identities@);
        keys::law_first_unreadable_key_decides(views, views.len() as int);
        assert forall|i: int|
            0 <= i < identities@.len() && keys::record_of(#[trigger] identities@[i]@) is Err && (
            forall|j: int|
                0 <= j < i ==> keys::record_of(
                    #[trigger] identities@[j]@,
                ) is Ok) implies keys::records_of(views, views.len() as int) is Err
            && keys::records_of(views, views.len() as int)->Err_0 == keys::record_of(
            identities@[i]@,
        )->Err_0 by {
            assert(views[i] == identities@[i]@);
            assert forall|j: int| 0 <= j < i implies keys::record_of(#[trigger] views[j]) is Ok by {
                assert(views[j] == identities@[j]@);
            }
        }
    }
}

/// Once the agent has listed its keys and each can be read, the listing counts
/// from when it was complete, the tables are those of its keys, and the keys
/// without a line are reported.
pub proof fn law_readable_listing_is_used(
    before: SshAgentFs,
    identities: Vec<Identity>,
    at: Timestamp,
    after: SshAgentFs,
    outcome: RefreshOutcome,
)
    requires
        is_resumed(before, Listing::Taken { identities, at }, after, outcome),
        forall|i: int|
            0 <= i < identities@.len() ==> keys::record_of(#[trigger] identities@[i]@) is Ok,
    ensures
        after.refreshed_at() == at,
        ({
            let records = Seq::new(
                identities@.len(),
                |i: int| keys::record_of(identities@[i]@)->Ok_0,
            );
            &&& after.tables() == table::refreshed(before.tables(), records)
            &&& outcome matches RefreshOutcome::Rebuilt(skipped)
            &&& fs::skipped_views(skipped@) == table::skipped(records, records.len() as int)
        }),
{
    let views = keys::identity_views(identities@);
    let n = views.len() as int;
    let records = Seq::new(identities@.len(), |i: int| keys::record_of(identities@[i]@)->Ok_0);
    keys::law_first_unreadable_key_decides(views, n);
    assert forall|i: int| 0 <= i < n implies keys::record_of(#[trigger] views[i]) is Ok by {
        assert(views[i] == identities@[i]@);
    }
    let found = keys::records_of(views, n)->Ok_0;
    if n > 0 {
        keys::law_records_follow_listing(views, n, 0);
    }
    assert forall|i: int| 0 <= i < n implies found[i] == records[i] by {
        keys::law_records_follow_listing(views, n, i);
        assert(views[i] == identities@[i]@);
    }
    assert(found == records);
}

/// A key that the agent lists can be read through the mount: a lookup of its
/// file name gives a regular file as long as its line and a line feed, and a
/// read of that file gives the line, whole and in UTF-8, and the line feed. This
/// holds of every key that has a line, unless a later key has the same file
/// name.
pub proof fn law_listed_key_is_served(
    before: SshAgentFs,
    listing: Listing,
    after: SshAgentFs,
    outcome: RefreshOutcome,
    records: Seq<RecordView>,
    i: int,
    name: String,
    found: Reply,
    size: u32,
    content: Reply,
)
    requires
        before.wf(),
        before.tables().next_ino + records.len() <= u64::MAX,
        is_resumed(before, listing, after, outcome),
        listing matches Listing::Taken { identities, .. } && keys::records_of(
            keys::identity_views(identities@),
            identities@.len() as int,
        ) == Ok::<Seq<RecordView>, Seq<char>>(records),
        0 <= i < records.len(),
        records[i].line is Ok,
        forall|j: int|
            i < j < records.len() && records[j].line is Ok ==> #[trigger] table::name_at(records, j)
                != table::name_at(records, i),
        name@ == table::name_at(records, i),
        is_answer(after, Request::Lookup { parent: 1, name: Some(name) }, found),
        encode_utf8(records[i].line->Ok_0).len() < size,
        found matches Reply::Entry { attr, .. } ==> is_answer(
            after,
            Request::Read { ino: attr.ino, offset: 0, size },
            content,
        ),
    ensures
        found matches Reply::Entry { attr, .. } && attr.kind == fs::FileType::RegularFile
            && attr.size == encode_utf8(records[i].line->Ok_0).len() + 1,
        content matches Reply::Data(data) && data@ == encode_utf8(records[i].line->Ok_0).push(10),
{
    table::law_content_is_the_whole_line(records[i].line->Ok_0);
    fs::law_key_can_be_read_back(after, before.tables(), records, i, size);
    assert(table::content_of(records[i].line->Ok_0) == encode_utf8(records[i].line->Ok_0).push(10));
}

} // verus!
