//! Making sure that a directory is safe to mount on.
//!
//! The caller examines the directory, does what it is told, and reports back,
//! until it is told the verdict.

use vstd::prelude::*;

use crate::text;
use crate::text::decimal_string;

verus! {

/// What an examination of a path found, without following a symbolic link.
pub enum Stat {
    /// Something is there.
    Found { is_dir: bool, file_type: String, uid: u32, mode: u32 },
    /// Nothing is there.
    NotFound,
    /// The path could not be examined.
    Failed(String),
}

/// What happened.
pub enum DirEvent {
    /// The path was examined.
    Examined(Stat),
    /// The directory was created, with any missing parents.
    Created(Result<(), String>),
    /// The directory's mode was set.
    ModeSet(Result<(), String>),
}

/// What to do next.
pub enum DirStep {
    /// Create the directory, with any missing parents.
    CreateAll,
    /// Set the directory's mode.
    SetMode(u32),
    /// The directory is safe, or what is wrong.
    Finished(Result<(), String>),
}

/// What an examination found, as a mathematical value.
pub enum StatView {
    Found { is_dir: bool, file_type: Seq<char>, uid: u32, mode: u32 },
    NotFound,
    Failed(Seq<char>),
}

/// What happened, as a mathematical value.
pub enum DirEventView {
    Examined(StatView),
    Created(Result<(), Seq<char>>),
    ModeSet(Result<(), Seq<char>>),
}

/// What to do next, as a mathematical value.
pub enum DirStepView {
    CreateAll,
    SetMode(u32),
    Finished(Result<(), Seq<char>>),
}

/// The mathematical value of an outcome.
pub open spec fn outcome_view(r: Result<(), String>) -> Result<(), Seq<char>> {
    match r {
        Ok(()) => Ok(()),
        Err(e) => Err(e@),
    }
}

impl View for Stat {
    type V = StatView;

    open spec fn view(&self) -> StatView {
        match self {
            Stat::Found { is_dir, file_type, uid, mode } => StatView::Found {
                is_dir: *is_dir,
                file_type: file_type@,
                uid: *uid,
                mode: *mode,
            },
            Stat::NotFound => StatView::NotFound,
            Stat::Failed(e) => StatView::Failed(e@),
        }
    }
}

impl View for DirEvent {
    type V = DirEventView;

    open spec fn view(&self) -> DirEventView {
        match self {
            DirEvent::Examined(stat) => DirEventView::Examined(stat@),
            DirEvent::Created(r) => DirEventView::Created(outcome_view(*r)),
            DirEvent::ModeSet(r) => DirEventView::ModeSet(outcome_view(*r)),
        }
    }
}

impl View for DirStep {
    type V = DirStepView;

    open spec fn view(&self) -> DirStepView {
        match self {
            DirStep::CreateAll => DirStepView::CreateAll,
            DirStep::SetMode(mode) => DirStepView::SetMode(*mode),
            DirStep::Finished(r) => DirStepView::Finished(outcome_view(*r)),
        }
    }
}

/// The mode of a directory that nobody but its owner can use.
pub const PRIVATE_MODE: u32 = 0o700;

/// The permissions of others than the owner.
pub const OTHERS_MASK: u32 = 0o077;

/// What to do next: something other than a directory is refused, and so is
/// another user's directory. A directory that others can use is closed to them,
/// and a missing one is created and closed to them.
pub open spec fn dir_step(event: DirEventView, expected_uid: u32) -> DirStepView {
    match event {
        DirEventView::Examined(StatView::Found { is_dir, file_type, uid, mode }) => if !is_dir {
            DirStepView::Finished(Err("not a directory (got "@ + file_type + ")"@))
        } else if uid != expected_uid {
            DirStepView::Finished(
                Err(
                    "owned by uid "@ + text::decimal(uid as nat) + " (expected "@ + text::decimal(
                        expected_uid as nat,
                    ) + "); refusing to mount"@,
                ),
            )
        } else if mode & OTHERS_MASK != 0 {
            DirStepView::SetMode(PRIVATE_MODE)
        } else {
            DirStepView::Finished(Ok(()))
        },
        DirEventView::Examined(StatView::NotFound) => DirStepView::CreateAll,
        DirEventView::Examined(StatView::Failed(e)) => DirStepView::Finished(Err("stat: "@ + e)),
        DirEventView::Created(Ok(())) => DirStepView::SetMode(PRIVATE_MODE),
        DirEventView::Created(Err(e)) => DirStepView::Finished(Err("create: "@ + e)),
        DirEventView::ModeSet(Ok(())) => DirStepView::Finished(Ok(())),
        DirEventView::ModeSet(Err(e)) => DirStepView::Finished(Err("chmod 0700 failed: "@ + e)),
    }
}

fn prefixed(prefix: &str, e: &String) -> (s: String)
    ensures
        s@ == prefix@ + e@,
{
    let mut s: String = prefix.to_owned();
    s.append(e.as_str());
    s
}

/// Decides what to do about a directory that is to be mounted on by the user
/// `expected_uid`, given what happened last.
pub fn ensure_safe_dir(event: &DirEvent, expected_uid: u32) -> (step: DirStep)
    ensures
        step@ == dir_step(event@, expected_uid),
{
    match event {
        DirEvent::Examined(stat) => match stat {
            Stat::Found { is_dir, file_type, uid, mode } => {
                if !*is_dir {
                    let mut message: String = prefixed("not a directory (got ", file_type);
                    message.append(")");
                    DirStep::Finished(Err(message))
                } else if *uid != expected_uid {
                    let owner: String = decimal_string(*uid as u64);
                    let expected: String = decimal_string(expected_uid as u64);
                    let mut message: String = prefixed("owned by uid ", &owner);
                    message.append(" (expected ");
                    message.append(expected.as_str());
                    message.append("); refusing to mount");
                    DirStep::Finished(Err(message))
                } else if *mode & OTHERS_MASK != 0 {
                    DirStep::SetMode(PRIVATE_MODE)
                } else {
                    DirStep::Finished(Ok(()))
                }
            },
            Stat::NotFound => DirStep::CreateAll,
            Stat::Failed(e) => DirStep::Finished(Err(prefixed("stat: ", e))),
        },
        DirEvent::Created(r) => match r {
            Ok(()) => DirStep::SetMode(PRIVATE_MODE),
            Err(e) => DirStep::Finished(Err(prefixed("create: ", e))),
        },
        DirEvent::ModeSet(r) => match r {
            Ok(()) => DirStep::Finished(Ok(())),
            Err(e) => DirStep::Finished(Err(prefixed("chmod 0700 failed: ", e))),
        },
    }
}

/// Whether `event` reports on `step`.
pub open spec fn reports_on(event: DirEventView, step: DirStepView) -> bool {
    match step {
        DirStepView::CreateAll => event is Created,
        DirStepView::SetMode(_) => event is ModeSet,
        DirStepView::Finished(_) => false,
    }
}

/// Whether the `i`-th event reports on what the one before it asked for.
pub open spec fn follows(events: Seq<DirEventView>, expected_uid: u32, i: int) -> bool {
    reports_on(events[i], dir_step(events[i - 1], expected_uid))
}

/// Whether `events` is a run: it begins with the examination of the path, and
/// each further event reports on what the one before it asked for.
pub open spec fn is_run(events: Seq<DirEventView>, expected_uid: u32) -> bool {
    &&& events.len() > 0
    &&& events[0] is Examined
    &&& forall|i: int| 1 <= i < events.len() ==> #[trigger] follows(events, expected_uid, i)
}

/// A run is over after three events at most.
pub proof fn law_runs_are_short(events: Seq<DirEventView>, expected_uid: u32)
    requires
        is_run(events, expected_uid),
    ensures
        events.len() <= 3,
{
    if events.len() > 3 {
        assert(follows(events, expected_uid, 1));
        assert(follows(events, expected_uid, 2));
        assert(follows(events, expected_uid, 3));
    }
}

/// Whether the path was a directory of the expected user's that was closed to
/// others or has been closed to them.
pub open spec fn was_made_safe(events: Seq<DirEventView>, expected_uid: u32) -> bool {
    &&& events[0] matches DirEventView::Examined(StatView::Found { is_dir, uid, mode, .. })
    &&& is_dir
    &&& uid == expected_uid
    &&& if mode & OTHERS_MASK == 0 {
        events.len() == 1
    } else {
        &&& events.len() == 2
        &&& events[1] matches DirEventView::ModeSet(r)
        &&& r is Ok
    }
}

/// Whether nothing was at the path and a directory has been created and closed
/// to others.
pub open spec fn was_created(events: Seq<DirEventView>) -> bool {
    &&& events.len() == 3
    &&& events[0] matches DirEventView::Examined(stat)
    &&& stat is NotFound
    &&& events[1] matches DirEventView::Created(created)
    &&& created is Ok
    &&& events[2] matches DirEventView::ModeSet(set)
    &&& set is Ok
}

/// A run that is over finds the path safe exactly if it was a directory of the
/// expected user's, not reached through a symbolic link, that was closed to
/// others or has been closed to them; or if nothing was there and a directory
/// has been created and closed to others.
pub proof fn law_safe_means_owned_and_private(events: Seq<DirEventView>, expected_uid: u32)
    requires
        is_run(events, expected_uid),
    ensures
        dir_step(events.last(), expected_uid) == DirStepView::Finished(Ok(())) <==> (was_made_safe(
            events,
            expected_uid,
        ) || was_created(events)),
{
    law_runs_are_short(events, expected_uid);
    if events.len() > 1 {
        assert(follows(events, expected_uid, 1));
    }
    if events.len() > 2 {
        assert(follows(events, expected_uid, 2));
    }
}

/// A directory that belongs to another user is refused at once: nothing is done
/// to it.
pub proof fn law_foreign_directory_is_refused(
    file_type: Seq<char>,
    uid: u32,
    mode: u32,
    expected_uid: u32,
)
    requires
        uid != expected_uid,
    ensures
        dir_step(
            DirEventView::Examined(StatView::Found { is_dir: true, file_type, uid, mode }),
            expected_uid,
        ) matches DirStepView::Finished(r) && r is Err,
{
}

/// The only mode that is ever set is one that leaves nothing to others.
pub proof fn law_only_private_mode_is_set(event: DirEventView, expected_uid: u32)
    ensures
        dir_step(event, expected_uid) matches DirStepView::SetMode(mode) ==> mode == 0o700 && mode
            & OTHERS_MASK == 0,
{
    assert(0o700u32 & 0o077u32 == 0) by (bit_vector);
}

/// A directory of the expected user's is never refused for what its mode is. If
/// anyone else has any permission, it is to be closed to them; if nobody has, it
/// is safe as it is. No other bit of the mode matters.
pub proof fn law_own_directory_is_closed_not_refused(file_type: Seq<char>, uid: u32, mode: u32)
    ensures
        ({
            let step = dir_step(
                DirEventView::Examined(StatView::Found { is_dir: true, file_type, uid, mode }),
                uid,
            );
            &&& mode & 0o077 != 0 ==> step == DirStepView::SetMode(0o700)
            &&& mode & 0o077 == 0 ==> step == DirStepView::Finished(Ok(()))
        }),
{
}

/// A mode is one that leaves something to others exactly if one of the six
/// permissions of the group and of the rest of the world is among its bits.
pub proof fn law_others_are_group_and_world(file_type: Seq<char>, uid: u32, mode: u32)
    ensures
        dir_step(
            DirEventView::Examined(StatView::Found { is_dir: true, file_type, uid, mode }),
            uid,
        ) is SetMode <==> {
            ||| mode & 0o040 != 0
            ||| mode & 0o020 != 0
            ||| mode & 0o010 != 0
            ||| mode & 0o004 != 0
            ||| mode & 0o002 != 0
            ||| mode & 0o001 != 0
        },
{
    assert(mode & 0o077 != 0 <==> (mode & 0o040 != 0 || mode & 0o020 != 0 || mode & 0o010 != 0
        || mode & 0o004 != 0 || mode & 0o002 != 0 || mode & 0o001 != 0)) by (bit_vector);
}

/// Whatever is not a directory is refused, whoever owns it and whatever its mode
/// is, with a message that names what it is; and so is a directory that is not
/// the expected user's, with a message that names both users.
pub proof fn law_refusals_say_why(
    is_dir: bool,
    file_type: Seq<char>,
    uid: u32,
    mode: u32,
    expected_uid: u32,
)
    requires
        !is_dir || uid != expected_uid,
    ensures
        ({
            let step = dir_step(
                DirEventView::Examined(StatView::Found { is_dir, file_type, uid, mode }),
                expected_uid,
            );
            if !is_dir {
                step == DirStepView::Finished(Err("not a directory (got "@ + file_type + ")"@))
            } else {
                step == DirStepView::Finished(
                    Err(
                        "owned by uid "@ + text::decimal(uid as nat) + " (expected "@
                            + text::decimal(expected_uid as nat) + "); refusing to mount"@,
                    ),
                )
            }
        }),
{
}

/// A missing directory is created, one that was created is closed to others, and
/// one that was closed to others is safe.
pub proof fn law_missing_directory_is_created_then_closed(expected_uid: u32)
    ensures
        dir_step(DirEventView::Examined(StatView::NotFound), expected_uid)
            == DirStepView::CreateAll,
        dir_step(DirEventView::Created(Ok(())), expected_uid) == DirStepView::SetMode(0o700),
        dir_step(DirEventView::ModeSet(Ok(())), expected_uid) == DirStepView::Finished(Ok(())),
{
}

/// What goes wrong ends the run, and the reason is passed on whole, after a word
/// on what was being done.
pub proof fn law_reasons_are_passed_on(reason: Seq<char>, expected_uid: u32)
    ensures
        dir_step(DirEventView::Examined(StatView::Failed(reason)), expected_uid)
            == DirStepView::Finished(Err("stat: "@ + reason)),
        dir_step(DirEventView::Created(Err(reason)), expected_uid) == DirStepView::Finished(
            Err("create: "@ + reason),
        ),
        dir_step(DirEventView::ModeSet(Err(reason)), expected_uid) == DirStepView::Finished(
            Err("chmod 0700 failed: "@ + reason),
        ),
{
}

/// Events and steps stand for what they hold.
pub proof fn law_events_and_steps_stand_for_themselves(event: DirEvent, step: DirStep)
    ensures
        match event {
            DirEvent::Examined(Stat::Found { is_dir, file_type, uid, mode }) => event@
                == DirEventView::Examined(
                (StatView::Found { is_dir, file_type: file_type@, uid, mode }),
            ),
            DirEvent::Examined(Stat::NotFound) => event@ == DirEventView::Examined(
                StatView::NotFound,
            ),
            DirEvent::Examined(Stat::Failed(e)) => event@ == DirEventView::Examined(
                StatView::Failed(e@),
            ),
            DirEvent::Created(Ok(())) => event@ == DirEventView::Created(Ok(())),
            DirEvent::Created(Err(e)) => event@ == DirEventView::Created(Err(e@)),
            DirEvent::ModeSet(Ok(())) => event@ == DirEventView::ModeSet(Ok(())),
            DirEvent::ModeSet(Err(e)) => event@ == DirEventView::ModeSet(Err(e@)),
        },
        match step {
            DirStep::CreateAll => step@ == DirStepView::CreateAll,
            DirStep::SetMode(mode) => step@ == DirStepView::SetMode(mode),
            DirStep::Finished(Ok(())) => step@ == DirStepView::Finished(Ok(())),
            DirStep::Finished(Err(e)) => step@ == DirStepView::Finished(Err(e@)),
        },
{
}

} // verus!
