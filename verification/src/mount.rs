//! Where the filesystem is mounted if the user does not say.

use vstd::prelude::*;

use crate::names;
use crate::text;
use crate::text::{decimal_string, to_chars};

verus! {

/// The path of `name` in the directory `base`.
pub open spec fn joined(base: Seq<char>, name: Seq<char>) -> Seq<char> {
    if base.len() == 0 || base.last() == '/' {
        base + name
    } else {
        base + "/"@ + name
    }
}

/// The path of `name`, which is relative, in the directory `base`.
fn join(base: &str, name: &str) -> (path: String)
    ensures
        path@ == joined(base@, name@),
{
    let len: usize = base.unicode_len();
    let mut path: String = base.to_owned();
    if len > 0 && base.get_char(len - 1) != '/' {
        path.append("/");
    }
    path.append(name);
    path
}

/// The names in a path, in order, without the empty ones that repeated slashes
/// leave and without `.`.
pub open spec fn names_in(path: Seq<char>) -> Seq<Seq<char>>
    decreases path.len(),
{
    let name = names::before(path, '/');
    let rest = if names::after(path, '/').len() < path.len() {
        names_in(names::after(path, '/'))
    } else {
        Seq::empty()
    };
    if name.len() == 0 || name == "."@ {
        rest
    } else {
        seq![name] + rest
    }
}

/// What a path starts from: the root, the current directory if it says so, or
/// nothing.
pub open spec fn start_of(path: Seq<char>) -> Seq<Seq<char>> {
    if path.len() > 0 && path[0] == '/' {
        seq!["/"@]
    } else if names::before(path, '/') == "."@ {
        seq!["."@]
    } else {
        Seq::empty()
    }
}

/// The components of a path. Two paths that have the same ones are the same as
/// far as can be told without a look at the disk: repeated slashes, slashes at
/// the end, and `.` other than at the beginning do not count.
pub open spec fn components(path: Seq<char>) -> Seq<Seq<char>> {
    start_of(path) + names_in(path)
}

spec fn texts(v: Seq<Vec<char>>) -> Seq<Seq<char>> {
    Seq::new(v.len(), |i: int| v[i]@)
}

proof fn lemma_split(s: Seq<char>, c: char, k: int)
    requires
        0 <= k <= s.len(),
        forall|i: int| 0 <= i < k ==> s[i] != c,
        k < s.len() ==> s[k] == c,
    ensures
        names::before(s, c) == s.take(k),
        names::after(s, c) == if k < s.len() {
            s.skip(k + 1)
        } else {
            Seq::empty()
        },
    decreases k,
{
    if k == 0 {
        assert(s.take(0) == Seq::<char>::empty());
        if s.len() > 0 {
            assert(s.drop_first() == s.skip(1));
        }
    } else {
        let d = s.drop_first();
        assert forall|i: int| 0 <= i < k - 1 implies d[i] != c by {
            assert(d[i] == s[i + 1]);
        }
        lemma_split(d, c, k - 1);
        assert(seq![s[0]] + d.take(k - 1) == s.take(k));
        if k < s.len() {
            assert(d.skip(k) == s.skip(k + 1));
        }
    }
}

fn sub_chars(chars: &Vec<char>, start: usize, end: usize) -> (v: Vec<char>)
    requires
        start <= end <= chars@.len(),
    ensures
        v@ == chars@.subrange(start as int, end as int),
{
    let mut v: Vec<char> = Vec::new();
    let mut i: usize = start;
    while i < end
        invariant
            start <= i <= end <= chars@.len(),
            v@ == chars@.subrange(start as int, i as int),
        decreases end - i,
    {
        v.push(chars[i]);
        i += 1;
    }
    v
}

fn find_slash(chars: &Vec<char>, start: usize) -> (end: usize)
    requires
        start <= chars@.len(),
    ensures
        start <= end <= chars@.len(),
        names::before(chars@.skip(start as int), '/') == chars@.subrange(start as int, end as int),
        names::after(chars@.skip(start as int), '/') == if end < chars@.len() {
            chars@.skip(end + 1)
        } else {
            Seq::empty()
        },
{
    let mut end: usize = start;
    while end < chars.len() && chars[end] != '/'
        invariant
            start <= end <= chars@.len(),
            forall|i: int| start <= i < end ==> chars@[i] != '/',
        decreases chars@.len() - end,
    {
        end += 1;
    }
    proof {
        let s = chars@.skip(start as int);
        lemma_split(s, '/', end - start);
        assert(s.take(end - start) == chars@.subrange(start as int, end as int));
        if end < chars@.len() {
            assert(s.skip(end - start + 1) == chars@.skip(end + 1));
        }
    }
    end
}

fn is_dot(v: &Vec<char>) -> (b: bool)
    ensures
        b == (v@ == "."@),
{
    proof {
        reveal_strlit(".");
    }
    let b: bool = v.len() == 1 && v[0] == '.';
    proof {
        if b {
            assert(v@ == "."@);
        }
    }
    b
}

fn components_of(path: &str) -> (v: Vec<Vec<char>>)
    ensures
        texts(v@) == components(path@),
{
    let chars: Vec<char> = to_chars(path);
    let mut v: Vec<Vec<char>> = Vec::new();
    assert(chars@.skip(0) == chars@);
    if chars.len() > 0 && chars[0] == '/' {
        let root: Vec<char> = to_chars("/");
        v.push(root);
    } else {
        let end: usize = find_slash(&chars, 0);
        let first: Vec<char> = sub_chars(&chars, 0, end);
        if is_dot(&first) {
            v.push(first);
        }
    }
    assert(texts(v@) == start_of(chars@));

    let mut start: usize = 0;
    let mut done: bool = false;
    assert(texts(v@) + names_in(chars@.skip(0)) == components(chars@));
    while !done
        invariant
            start <= chars@.len(),
            !done ==> texts(v@) + names_in(chars@.skip(start as int)) == components(chars@),
            done ==> texts(v@) == components(chars@),
        decreases chars@.len() - start, if done { 0int } else { 1int },
    {
        let ghost rest = chars@.skip(start as int);
        let end: usize = find_slash(&chars, start);
        let name: Vec<char> = sub_chars(&chars, start, end);
        let ghost before = texts(v@);
        let ghost tail = if end < chars@.len() {
            names_in(chars@.skip(end + 1))
        } else {
            Seq::empty()
        };
        proof {
            if end == chars@.len() && rest.len() > 0 {
                assert(names_in(Seq::<char>::empty()) == Seq::<Seq<char>>::empty());
            }
            assert(names_in(rest) == if name@.len() == 0 || name@ == "."@ {
                tail
            } else {
                seq![name@] + tail
            });
        }
        if name.len() > 0 && !is_dot(&name) {
            let ghost text = name@;
            v.push(name);
            assert(texts(v@) == before.push(text));
            assert(before + (seq![text] + tail) == texts(v@) + tail);
        }
        assert(texts(v@) + tail == components(chars@));
        if end < chars.len() {
            start = end + 1;
        } else {
            assert(texts(v@) + tail == texts(v@));
            done = true;
        }
    }
    v
}

fn chars_equal(a: &Vec<char>, b: &Vec<char>) -> (r: bool)
    ensures
        r == (a@ == b@),
{
    if a.len() != b.len() {
        return false;
    }
    let mut i: usize = 0;
    while i < a.len()
        invariant
            i <= a@.len(),
            a@.len() == b@.len(),
            forall|j: int| 0 <= j < i ==> a@[j] == b@[j],
        decreases a@.len() - i,
    {
        if a[i] != b[i] {
            return false;
        }
        i += 1;
    }
    assert(a@ == b@);
    true
}

/// Whether two paths have the same components.
pub fn same_path(a: &str, b: &str) -> (r: bool)
    ensures
        r == (components(a@) == components(b@)),
{
    let u: Vec<Vec<char>> = components_of(a);
    let v: Vec<Vec<char>> = components_of(b);
    if u.len() != v.len() {
        assert(texts(u@).len() != texts(v@).len());
        return false;
    }
    let mut i: usize = 0;
    while i < u.len()
        invariant
            i <= u@.len(),
            u@.len() == v@.len(),
            texts(u@) == components(a@),
            texts(v@) == components(b@),
            forall|j: int| 0 <= j < i ==> u@[j]@ == v@[j]@,
        decreases u@.len() - i,
    {
        if !chars_equal(&u[i], &v[i]) {
            assert(texts(u@)[i as int] != texts(v@)[i as int]);
            return false;
        }
        i += 1;
    }
    assert(texts(u@) == texts(v@));
    true
}

/// The directory that the system keeps for a user's runtime files.
pub open spec fn run_user_of(uid: u32) -> Seq<char> {
    "/run/user/"@ + text::decimal(uid as nat)
}

/// The directory that the system keeps for a user's runtime files.
pub fn run_user_dir(uid: u32) -> (path: String)
    ensures
        path@ == run_user_of(uid),
{
    let mut path: String = "/run/user/".to_owned();
    let number: String = decimal_string(uid as u64);
    path.append(number.as_str());
    path
}

/// The name of a mountpoint in a directory that users share.
pub open spec fn shared_name(uid: u32) -> Seq<char> {
    "ssh-agent-fs-"@ + text::decimal(uid as nat)
}

/// The mountpoint in the directory that `XDG_RUNTIME_DIR` names, if it names
/// one.
pub open spec fn xdg_candidate(xdg: Option<Seq<char>>) -> Seq<Seq<char>> {
    match xdg {
        Some(dir) if dir.len() > 0 => seq![joined(dir, "ssh-agent-fs"@)],
        _ => Seq::empty(),
    }
}

/// The mountpoint in the user's runtime directory, if that exists and gives no
/// path that is there already.
pub open spec fn run_user_candidate(
    uid: u32,
    run_user_exists: bool,
    so_far: Seq<Seq<char>>,
) -> Seq<Seq<char>> {
    let path = joined(run_user_of(uid), "ssh-agent-fs"@);
    if run_user_exists && forall|i: int|
        0 <= i < so_far.len() ==> components(#[trigger] so_far[i]) != components(path) {
        seq![path]
    } else {
        Seq::empty()
    }
}

/// The mountpoint in the directory that `TMPDIR` names, if it names one.
pub open spec fn tmpdir_candidate(uid: u32, tmpdir: Option<Seq<char>>) -> Seq<Seq<char>> {
    match tmpdir {
        Some(dir) if dir.len() > 0 => seq![joined(dir, shared_name(uid))],
        _ => Seq::empty(),
    }
}

/// The mountpoints to try, best first.
pub open spec fn candidates(
    uid: u32,
    xdg: Option<Seq<char>>,
    run_user_exists: bool,
    tmpdir: Option<Seq<char>>,
) -> Seq<Seq<char>> {
    xdg_candidate(xdg) + run_user_candidate(uid, run_user_exists, xdg_candidate(xdg))
        + tmpdir_candidate(uid, tmpdir) + seq!["/tmp/"@ + shared_name(uid)]
}

/// The mathematical values of a list of strings.
pub open spec fn string_views(strings: Seq<String>) -> Seq<Seq<char>> {
    Seq::new(strings.len(), |i: int| strings[i]@)
}

/// The characters of an optional string slice.
pub open spec fn option_str(s: Option<&str>) -> Option<Seq<char>> {
    match s {
        Some(s) => Some(s@),
        None => None,
    }
}

fn push_string(v: &mut Vec<String>, s: String)
    ensures
        string_views(final(v)@) == string_views(old(v)@).push(s@),
{
    v.push(s);
}

/// The mountpoints to try for the user `uid`, best first: in the directory that
/// `XDG_RUNTIME_DIR` names, in the user's runtime directory if it exists, in the
/// directory that `TMPDIR` names, and in `/tmp`. A variable that is not set or
/// empty gives none.
pub fn available_mountpoints(
    uid: u32,
    xdg: Option<&str>,
    run_user_exists: bool,
    tmpdir: Option<&str>,
) -> (paths: Vec<String>)
    ensures
        string_views(paths@) == candidates(
            uid,
            option_str(xdg),
            run_user_exists,
            option_str(tmpdir),
        ),
{
    let mut out: Vec<String> = Vec::new();
    let ghost first = xdg_candidate(option_str(xdg));
    match xdg {
        Some(dir) => {
            if !dir.is_empty() {
                push_string(&mut out, join(dir, "ssh-agent-fs"));
            }
        },
        None => {},
    }
    assert(string_views(out@) == first);

    let ghost second = run_user_candidate(uid, run_user_exists, first);
    if run_user_exists {
        let run_user: String = run_user_dir(uid);
        let path: String = join(run_user.as_str(), "ssh-agent-fs");
        let mut known: bool = false;
        let mut i: usize = 0;
        while i < out.len()
            invariant
                i <= out@.len(),
                string_views(out@) == first,
                known == exists|j: int|
                    0 <= j < i && components(#[trigger] first[j]) == components(path@),
            decreases out@.len() - i,
        {
            assert(first[i as int] == out@[i as int]@);
            if same_path(out[i].as_str(), path.as_str()) {
                assert(components(first[i as int]) == components(path@));
                known = true;
            }
            i += 1;
        }
        if !known {
            push_string(&mut out, path);
        }
    }
    assert(string_views(out@) == first + second);

    let shared: String = {
        let mut shared: String = "ssh-agent-fs-".to_owned();
        let number: String = decimal_string(uid as u64);
        shared.append(number.as_str());
        shared
    };
    let ghost third = tmpdir_candidate(uid, option_str(tmpdir));
    match tmpdir {
        Some(dir) => {
            if !dir.is_empty() {
                push_string(&mut out, join(dir, shared.as_str()));
            }
        },
        None => {},
    }
    assert(string_views(out@) == first + second + third);

    let mut last: String = "/tmp/".to_owned();
    last.append(shared.as_str());
    push_string(&mut out, last);
    out
}

/// What to do next in the search for a mountpoint.
pub enum MountStep {
    /// Make this directory safe to mount on, and come back with the outcome.
    Try(String),
    /// Mount here.
    Found(String),
    /// Give up, with this message.
    Failed(String),
}

/// A step of the search, as a mathematical value.
pub enum MountStepView {
    Try(Seq<char>),
    Found(Seq<char>),
    Failed(Seq<char>),
}

impl View for MountStep {
    type V = MountStepView;

    open spec fn view(&self) -> MountStepView {
        match self {
            MountStep::Try(path) => MountStepView::Try(path@),
            MountStep::Found(path) => MountStepView::Found(path@),
            MountStep::Failed(message) => MountStepView::Failed(message@),
        }
    }
}

/// What came of trying a directory: nothing more to say, or what is wrong.
pub open spec fn outcome_views(outcomes: Seq<Result<(), String>>) -> Seq<Result<(), Seq<char>>> {
    Seq::new(
        outcomes.len(),
        |i: int|
            match outcomes[i] {
                Ok(()) => Ok(()),
                Err(e) => Err(e@),
            },
    )
}

/// The line that says what is wrong with a candidate.
pub open spec fn failure_line(path: Seq<char>, reason: Seq<char>) -> Seq<char> {
    "  "@ + path + ": "@ + reason
}

/// What is wrong with each of the first `n` candidates, a line each.
pub open spec fn failure_lines(
    paths: Seq<Seq<char>>,
    outcomes: Seq<Result<(), Seq<char>>>,
    n: int,
) -> Seq<char>
    decreases n,
{
    if n <= 0 {
        Seq::empty()
    } else if n == 1 {
        failure_line(paths[0], outcomes[0]->Err_0)
    } else {
        failure_lines(paths, outcomes, n - 1) + "\n"@ + failure_line(
            paths[n - 1],
            outcomes[n - 1]->Err_0,
        )
    }
}

/// The next step of the search once the first `i` candidates have failed: try
/// the next one if it was not tried, mount there if that went well, and go on
/// otherwise.
pub open spec fn mount_step_from(
    paths: Seq<Seq<char>>,
    outcomes: Seq<Result<(), Seq<char>>>,
    i: int,
) -> MountStepView
    decreases paths.len() - i,
{
    if i >= paths.len() {
        MountStepView::Failed(
            "no suitable runtime directory found:\n"@ + failure_lines(
                paths,
                outcomes,
                paths.len() as int,
            ),
        )
    } else if i >= outcomes.len() {
        MountStepView::Try(paths[i])
    } else if outcomes[i] is Ok {
        MountStepView::Found(paths[i])
    } else {
        mount_step_from(paths, outcomes, i + 1)
    }
}

/// The next step of the search, given what came of trying the candidates so
/// far.
pub open spec fn mount_step(
    paths: Seq<Seq<char>>,
    outcomes: Seq<Result<(), Seq<char>>>,
) -> MountStepView {
    mount_step_from(paths, outcomes, 0)
}

/// Picks a mountpoint from the candidates `paths`, in order, given what came of
/// trying the first of them: the first that is safe to mount on, or a message
/// that says what is wrong with each.
pub fn default_mountpoint(paths: &Vec<String>, outcomes: &Vec<Result<(), String>>) -> (step:
    MountStep)
    ensures
        step@ == mount_step(string_views(paths@), outcome_views(outcomes@)),
{
    let ghost views = string_views(paths@);
    let ghost results = outcome_views(outcomes@);
    let mut errors: String = String::new();
    let mut i: usize = 0;
    while i < paths.len()
        invariant
            i <= paths@.len(),
            views == string_views(paths@),
            results == outcome_views(outcomes@),
            mount_step(views, results) == mount_step_from(views, results, i as int),
            errors@ == failure_lines(views, results, i as int),
        decreases paths@.len() - i,
    {
        assert(views[i as int] == paths@[i as int]@);
        if i >= outcomes.len() {
            return MountStep::Try(paths[i].clone());
        }
        match &outcomes[i] {
            Ok(()) => {
                assert(results[i as int] is Ok);
                return MountStep::Found(paths[i].clone());
            },
            Err(e) => {
                assert(results[i as int] == Err::<(), Seq<char>>(e@));
                if i > 0 {
                    errors.append("\n");
                }
                let ghost so_far = errors@;
                errors.append("  ");
                errors.append(paths[i].as_str());
                errors.append(": ");
                errors.append(e.as_str());
                assert(errors@ == so_far + failure_line(views[i as int], e@));
            },
        }
        i += 1;
    }
    let mut message: String = "no suitable runtime directory found:\n".to_owned();
    message.append(errors.as_str());
    MountStep::Failed(message)
}

/// There is always a mountpoint to try. What `XDG_RUNTIME_DIR` names comes
/// first if it is set, and `/tmp` comes last.
pub proof fn law_candidates_are_ordered(
    uid: u32,
    xdg: Option<Seq<char>>,
    run_user_exists: bool,
    tmpdir: Option<Seq<char>>,
)
    ensures
        ({
            let paths = candidates(uid, xdg, run_user_exists, tmpdir);
            &&& paths.len() > 0
            &&& paths.last() == "/tmp/"@ + shared_name(uid)
            &&& xdg is Some && xdg->0.len() > 0 ==> paths[0] == joined(xdg->0, "ssh-agent-fs"@)
        }),
{
}

/// The user's runtime directory is not tried twice: if it exists, exactly one of
/// the mountpoints that come before that of `TMPDIR` has its path.
pub proof fn law_run_user_is_tried_once(uid: u32, xdg: Option<Seq<char>>)
    ensures
        ({
            let first = xdg_candidate(xdg);
            let paths = first + run_user_candidate(uid, true, first);
            let path = components(joined(run_user_of(uid), "ssh-agent-fs"@));
            &&& exists|i: int| 0 <= i < paths.len() && components(#[trigger] paths[i]) == path
            &&& forall|i: int, j: int|
                0 <= i < j < paths.len() ==> !(components(#[trigger] paths[i]) == path
                    && components(#[trigger] paths[j]) == path)
        }),
{
    let first = xdg_candidate(xdg);
    let second = run_user_candidate(uid, true, first);
    let paths = first + second;
    let path = components(joined(run_user_of(uid), "ssh-agent-fs"@));
    if second.len() > 0 {
        assert(components(paths[first.len() as int]) == path);
        assert forall|i: int, j: int| 0 <= i < j < paths.len() implies !(components(
            #[trigger] paths[i],
        ) == path && components(#[trigger] paths[j]) == path) by {
            assert(paths[i] == first[i]);
        }
    } else {
        let i = choose|i: int| 0 <= i < first.len() && components(#[trigger] first[i]) == path;
        assert(components(paths[i]) == path);
    }
}

proof fn lemma_failed_ones_are_passed(
    paths: Seq<Seq<char>>,
    outcomes: Seq<Result<(), Seq<char>>>,
    i: int,
    k: int,
)
    requires
        0 <= i <= k <= paths.len(),
        k <= outcomes.len(),
        forall|j: int| 0 <= j < k ==> (#[trigger] outcomes[j]) is Err,
    ensures
        mount_step_from(paths, outcomes, i) == mount_step_from(paths, outcomes, k),
    decreases k - i,
{
    if i < k {
        assert(outcomes[i] is Err);
        lemma_failed_ones_are_passed(paths, outcomes, i + 1, k);
    }
}

/// Candidates are tried in order, and none after the first that is safe to
/// mount on: while all that were tried have failed, the next one is tried, and
/// once one has not, it is the mountpoint.
pub proof fn law_first_safe_candidate_wins(
    paths: Seq<Seq<char>>,
    outcomes: Seq<Result<(), Seq<char>>>,
)
    requires
        outcomes.len() <= paths.len(),
        forall|j: int| 0 <= j < outcomes.len() - 1 ==> (#[trigger] outcomes[j]) is Err,
    ensures
        outcomes.len() > 0 && outcomes.last() is Ok ==> mount_step(paths, outcomes)
            == MountStepView::Found(paths[outcomes.len() - 1]),
        outcomes.len() < paths.len() && !(outcomes.len() > 0 && outcomes.last() is Ok)
            ==> mount_step(paths, outcomes) == MountStepView::Try(paths[outcomes.len() as int]),
        outcomes.len() == paths.len() && !(outcomes.len() > 0 && outcomes.last() is Ok)
            ==> mount_step(paths, outcomes) is Failed,
{
    let n = outcomes.len() as int;
    if n > 0 && outcomes.last() is Ok {
        lemma_failed_ones_are_passed(paths, outcomes, 0, n - 1);
    } else {
        assert forall|j: int| 0 <= j < n implies (#[trigger] outcomes[j]) is Err by {
            if j == n - 1 {
                assert(outcomes[j] == outcomes.last());
            }
        }
        lemma_failed_ones_are_passed(paths, outcomes, 0, n);
    }
}

/// The path of a name in a directory begins with the directory's path and ends
/// in the name, both whole. A slash stands between the two exactly if the
/// directory's path is not empty and does not end in one.
pub proof fn law_joining_adds_at_most_a_slash(base: Seq<char>, name: Seq<char>)
    ensures
        base.is_prefix_of(joined(base, name)),
        name.is_suffix_of(joined(base, name)),
        base.len() > 0 && base.last() != '/' ==> {
            &&& joined(base, name).len() == base.len() + 1 + name.len()
            &&& joined(base, name)[base.len() as int] == '/'
        },
        base.len() == 0 || base.last() == '/' ==> joined(base, name).len() == base.len()
            + name.len(),
{
    reveal_strlit("/");
    let path = joined(base, name);
    assert(base == path.subrange(0, base.len() as int));
    assert(name == path.subrange(path.len() - name.len(), path.len() as int));
}

proof fn lemma_first(s: Seq<char>, c: char) -> (k: int)
    ensures
        k == names::before(s, c).len(),
        0 <= k <= s.len(),
        forall|i: int| 0 <= i < k ==> s[i] != c,
        k < s.len() ==> s[k] == c,
        names::before(s, c) == s.take(k),
        names::after(s, c) == if k < s.len() {
            s.skip(k + 1)
        } else {
            Seq::empty()
        },
    decreases s.len(),
{
    if s.len() == 0 || s[0] == c {
        lemma_split(s, c, 0);
        0
    } else {
        let d = s.drop_first();
        let k = lemma_first(d, c) + 1;
        assert forall|i: int| 0 <= i < k implies s[i] != c by {
            if i > 0 {
                assert(d[i - 1] == s[i]);
            }
        }
        if k < s.len() {
            assert(d[k - 1] == s[k]);
        }
        lemma_split(s, c, k);
        k
    }
}

/// The names in a path are those before any of its slashes and those after it,
/// in order; and what has no slash is one name, unless it is empty or `.`, which
/// counts for nothing.
pub proof fn law_slashes_separate_names(p: Seq<char>, q: Seq<char>)
    ensures
        names_in(p + seq!['/'] + q) == names_in(p) + names_in(q),
        (forall|i: int| 0 <= i < p.len() ==> p[i] != '/') ==> names_in(p) == if p.len() == 0 || p
            == "."@ {
            Seq::empty()
        } else {
            seq![p]
        },
    decreases p.len(),
{
    let path = p + seq!['/'] + q;
    let nothing = Seq::<Seq<char>>::empty();
    assert(names_in(Seq::<char>::empty()) == nothing);
    let k = lemma_first(p, '/');
    if k == p.len() {
        assert(p.take(k) == p);
        assert forall|i: int| 0 <= i < k implies path[i] != '/' by {
            assert(path[i] == p[i]);
        }
        assert(path[k] == '/');
        lemma_split(path, '/', k);
        assert(path.take(k) == p);
        assert(path.skip(k + 1) == q);
        assert(names_in(p) == if p.len() == 0 || p == "."@ {
            nothing
        } else {
            seq![p] + nothing
        });
        assert(seq![p] + nothing == seq![p]);
        assert(nothing + names_in(q) == names_in(q));
    } else {
        let rest = p.skip(k + 1);
        assert forall|i: int| 0 <= i < k implies path[i] != '/' by {
            assert(path[i] == p[i]);
        }
        assert(path[k] == p[k]);
        lemma_split(path, '/', k);
        assert(path.take(k) == p.take(k));
        assert(path.skip(k + 1) == rest + seq!['/'] + q);
        law_slashes_separate_names(rest, q);
        assert(seq![p.take(k)] + (names_in(rest) + names_in(q)) == seq![p.take(k)] + names_in(rest)
            + names_in(q));
    }
}

/// The components of a path are its names, after the root if the path begins
/// with a slash, or after `.` if that is how it begins.
pub proof fn law_components_are_start_and_names(path: Seq<char>)
    ensures
        seq!['/'].is_prefix_of(path) ==> components(path) == seq!["/"@] + names_in(path),
        path == "."@ || seq!['.', '/'].is_prefix_of(path) ==> components(path) == seq!["."@]
            + names_in(path),
        !seq!['/'].is_prefix_of(path) && path != "."@ && !seq!['.', '/'].is_prefix_of(path)
            ==> components(path) == names_in(path),
{
    reveal_strlit(".");
    let k = lemma_first(path, '/');
    let first = names::before(path, '/');
    if path.len() > 0 {
        assert(path.subrange(0, 1) == seq![path[0]]);
        assert(seq!['/'] == path.subrange(0, 1) <==> path[0] == '/') by {
            assert(seq!['/'][0] == '/');
            assert(path.subrange(0, 1)[0] == path[0]);
        }
    }
    assert(!seq!['/'].is_prefix_of(path) <==> !(path.len() > 0 && path[0] == '/'));
    if seq!['.', '/'].is_prefix_of(path) {
        let two = path.subrange(0, 2);
        assert(two[0] == '.' && two[1] == '/');
        assert(path[0] == two[0] && path[1] == two[1]);
        assert(k == 1);
        assert(first == "."@);
    }
    if path == "."@ {
        assert(k == 1);
        assert(first == "."@);
    }
    if first == "."@ {
        assert(first[0] == '.' && first[0] == path[0]);
        if path.len() == 1 {
            assert(path == "."@);
        } else {
            assert(seq!['.', '/'] == path.subrange(0, 2));
        }
    }
    assert(Seq::<Seq<char>>::empty() + names_in(path) == names_in(path));
}

/// How a path is spelled does not matter to its components: a slash more where
/// there is one, a `.` between two slashes, a slash at the end.
pub proof fn law_spelling_does_not_matter(p: Seq<char>, q: Seq<char>)
    requires
        p.len() > 0,
    ensures
        components(p + seq!['/', '/'] + q) == components(p + seq!['/'] + q),
        components(p + seq!['/', '.', '/'] + q) == components(p + seq!['/'] + q),
        components(p + seq!['/']) == components(p),
{
    reveal_strlit(".");
    let nothing = Seq::<char>::empty();
    assert(names_in(nothing) == Seq::<Seq<char>>::empty());
    law_slashes_separate_names(p, q);
    law_slashes_separate_names(p, nothing);
    law_slashes_separate_names(nothing, q);
    law_slashes_separate_names(p, seq!['/'] + q);
    assert(p + seq!['/'] + nothing == p + seq!['/']);
    assert(nothing + seq!['/'] + q == seq!['/'] + q);
    assert(p + seq!['/'] + (seq!['/'] + q) == p + seq!['/', '/'] + q);
    assert(names_in(p) + Seq::<Seq<char>>::empty() == names_in(p));
    assert(Seq::<Seq<char>>::empty() + names_in(q) == names_in(q));
    let dot = seq!['.'];
    assert(dot == "."@);
    law_slashes_separate_names(dot, q);
    law_slashes_separate_names(p, dot + seq!['/'] + q);
    assert(p + seq!['/'] + (dot + seq!['/'] + q) == p + seq!['/', '.', '/'] + q);
    lemma_start_is_before_slash(p, q);
    lemma_start_is_before_slash(p, nothing);
    lemma_start_is_before_slash(p, seq!['/'] + q);
    lemma_start_is_before_slash(p, dot + seq!['/'] + q);
}

proof fn lemma_start_is_before_slash(p: Seq<char>, q: Seq<char>)
    requires
        p.len() > 0,
    ensures
        start_of(p + seq!['/'] + q) == start_of(p),
{
    let path = p + seq!['/'] + q;
    let k = lemma_first(p, '/');
    assert(path[0] == p[0]);
    assert forall|i: int| 0 <= i < k implies path[i] != '/' by {
        assert(path[i] == p[i]);
    }
    if k < p.len() {
        assert(path[k] == p[k]);
    } else {
        assert(path[k] == '/');
    }
    lemma_split(path, '/', k);
    assert(path.take(k) == p.take(k));
}

/// The user's runtime directory is named by the user's number, and so is a
/// mountpoint in a directory that users share; no two users have the same.
pub proof fn law_users_have_paths_of_their_own(uid: u32, other: u32)
    ensures
        "/run/user/"@.is_prefix_of(run_user_of(uid)),
        text::number_of(run_user_of(uid).skip("/run/user/"@.len() as int)) == uid,
        "ssh-agent-fs-"@.is_prefix_of(shared_name(uid)),
        text::number_of(shared_name(uid).skip("ssh-agent-fs-"@.len() as int)) == uid,
        uid != other ==> run_user_of(uid) != run_user_of(other) && shared_name(uid) != shared_name(
            other,
        ),
{
    lemma_number_at_end("/run/user/"@, uid as nat);
    lemma_number_at_end("/run/user/"@, other as nat);
    lemma_number_at_end("ssh-agent-fs-"@, uid as nat);
    lemma_number_at_end("ssh-agent-fs-"@, other as nat);
}

proof fn lemma_number_at_end(front: Seq<char>, n: nat)
    ensures
        front.is_prefix_of(front + text::decimal(n)),
        text::number_of((front + text::decimal(n)).skip(front.len() as int)) == n,
{
    let all = front + text::decimal(n);
    text::law_decimal_reads_back(n);
    assert(all.skip(front.len() as int) == text::decimal(n));
    assert(front == all.subrange(0, front.len() as int));
}

/// The mountpoints to try are these and no others, in this order: in the
/// directory that `XDG_RUNTIME_DIR` names if it names one, in the user's runtime
/// directory if that exists and is not the same path, in the directory that
/// `TMPDIR` names if it names one, and in `/tmp`. They are not dropped or cut
/// short, whatever the directories are called.
pub proof fn law_candidates_are_these(
    uid: u32,
    xdg: Option<Seq<char>>,
    run_user_exists: bool,
    tmpdir: Option<Seq<char>>,
)
    ensures
        ({
            let paths = candidates(uid, xdg, run_user_exists, tmpdir);
            let number = text::decimal(uid as nat);
            let run_user = "/run/user/"@ + number + "/"@ + "ssh-agent-fs"@;
            let has_xdg = xdg is Some && xdg->0.len() > 0;
            let has_run_user = run_user_exists && !(has_xdg && components(
                joined(xdg->0, "ssh-agent-fs"@),
            ) == components(run_user));
            let has_tmpdir = tmpdir is Some && tmpdir->0.len() > 0;
            let a: int = if has_xdg {
                1
            } else {
                0
            };
            let b: int = if has_run_user {
                a + 1
            } else {
                a
            };
            let c: int = if has_tmpdir {
                b + 1
            } else {
                b
            };
            &&& paths.len() == c + 1
            &&& has_xdg ==> paths[0] == joined(xdg->0, "ssh-agent-fs"@)
            &&& has_run_user ==> paths[a] == run_user
            &&& has_tmpdir ==> paths[b] == joined(tmpdir->0, "ssh-agent-fs-"@ + number)
            &&& paths[c] == "/tmp/"@ + "ssh-agent-fs-"@ + number
        }),
{
    let number = text::decimal(uid as nat);
    let run_user = "/run/user/"@ + number + "/"@ + "ssh-agent-fs"@;
    text::law_decimal_reads_back(uid as nat);
    assert(run_user_of(uid).last() == number.last());
    assert(number[number.len() - 1] != '/');
    assert(joined(run_user_of(uid), "ssh-agent-fs"@) == run_user);
    assert("/tmp/"@ + shared_name(uid) == "/tmp/"@ + "ssh-agent-fs-"@ + number);
    let first = xdg_candidate(xdg);
    if first.len() > 0 {
        assert(first[0] == joined(xdg->0, "ssh-agent-fs"@));
    }
}

/// The first candidate that was found safe is the mountpoint, whatever comes
/// after it.
pub proof fn law_first_success_decides(
    paths: Seq<Seq<char>>,
    outcomes: Seq<Result<(), Seq<char>>>,
    k: int,
)
    requires
        0 <= k < paths.len(),
        k < outcomes.len(),
        forall|j: int| 0 <= j < k ==> (#[trigger] outcomes[j]) is Err,
        outcomes[k] is Ok,
    ensures
        mount_step(paths, outcomes) == MountStepView::Found(paths[k]),
{
    lemma_failed_ones_are_passed(paths, outcomes, 0, k);
}

proof fn lemma_lines_look_no_further(
    paths: Seq<Seq<char>>,
    outcomes: Seq<Result<(), Seq<char>>>,
    more_paths: Seq<Seq<char>>,
    more_outcomes: Seq<Result<(), Seq<char>>>,
    n: int,
)
    requires
        n <= paths.len() <= more_paths.len(),
        n <= outcomes.len() <= more_outcomes.len(),
        forall|i: int| 0 <= i < n ==> paths[i] == more_paths[i] && outcomes[i] == more_outcomes[i],
    ensures
        failure_lines(paths, outcomes, n) == failure_lines(more_paths, more_outcomes, n),
    decreases n,
{
    if n > 1 {
        lemma_lines_look_no_further(paths, outcomes, more_paths, more_outcomes, n - 1);
    }
}

/// If every candidate has failed, the message has a line for each, in order: two
/// spaces, the whole path, a colon, a space and the whole reason. With one
/// candidate more it has one line more.
pub proof fn law_message_has_a_line_for_each_candidate(
    paths: Seq<Seq<char>>,
    outcomes: Seq<Result<(), Seq<char>>>,
    path: Seq<char>,
    reason: Seq<char>,
)
    requires
        outcomes.len() == paths.len(),
        forall|j: int| 0 <= j < outcomes.len() ==> (#[trigger] outcomes[j]) is Err,
    ensures
        mount_step(paths, outcomes) is Failed,
        mount_step(paths.push(path), outcomes.push(Err(reason))) is Failed,
        ({
            let message = mount_step(paths, outcomes)->Failed_0;
            let longer = mount_step(paths.push(path), outcomes.push(Err(reason)))->Failed_0;
            let line = "  "@ + path + ": "@ + reason;
            if paths.len() == 0 {
                &&& message == "no suitable runtime directory found:\n"@
                &&& longer == message + line
            } else {
                longer == message + "\n"@ + line
            }
        }),
{
    let n = paths.len() as int;
    let more_paths = paths.push(path);
    let more_outcomes = outcomes.push(Err(reason));
    assert forall|j: int| 0 <= j < more_outcomes.len() implies (
    #[trigger] more_outcomes[j]) is Err by {
        if j < n {
            assert(more_outcomes[j] == outcomes[j]);
        }
    }
    lemma_failed_ones_are_passed(paths, outcomes, 0, n);
    lemma_failed_ones_are_passed(more_paths, more_outcomes, 0, n + 1);
    lemma_lines_look_no_further(paths, outcomes, more_paths, more_outcomes, n);
    let head = "no suitable runtime directory found:\n"@;
    let lines = failure_lines(paths, outcomes, n);
    let line = failure_line(path, reason);
    if n == 0 {
        assert(head + lines == head);
        assert(failure_lines(more_paths, more_outcomes, 1) == line);
    } else {
        assert(failure_lines(more_paths, more_outcomes, n + 1) == lines + "\n"@ + line);
        assert(head + (lines + "\n"@ + line) == head + lines + "\n"@ + line);
    }
}

/// Steps, outcomes and lists of paths stand for what they hold, each item in its
/// place.
pub proof fn law_search_stands_for_itself(
    step: MountStep,
    strings: Seq<String>,
    outcomes: Seq<Result<(), String>>,
    dir: Option<&str>,
    i: int,
)
    ensures
        match step {
            MountStep::Try(path) => step@ == MountStepView::Try(path@),
            MountStep::Found(path) => step@ == MountStepView::Found(path@),
            MountStep::Failed(message) => step@ == MountStepView::Failed(message@),
        },
        string_views(strings).len() == strings.len(),
        0 <= i < strings.len() ==> string_views(strings)[i] == strings[i]@,
        outcome_views(outcomes).len() == outcomes.len(),
        0 <= i < outcomes.len() ==> match outcomes[i] {
            Ok(()) => outcome_views(outcomes)[i] is Ok,
            Err(e) => outcome_views(outcomes)[i] == Err::<(), Seq<char>>(e@),
        },
        match dir {
            Some(s) => option_str(dir) == Some(s@),
            None => option_str(dir) is None,
        },
{
}

proof fn lemma_steps_look_no_further(
    paths: Seq<Seq<char>>,
    outcomes: Seq<Result<(), Seq<char>>>,
    more: Seq<Result<(), Seq<char>>>,
    i: int,
)
    requires
        0 <= i <= paths.len() <= outcomes.len(),
    ensures
        mount_step_from(paths, outcomes + more, i) == mount_step_from(paths, outcomes, i),
    decreases paths.len() - i,
{
    lemma_lines_look_no_further(paths, outcomes, paths, outcomes + more, paths.len() as int);
    if i < paths.len() {
        assert((outcomes + more)[i] == outcomes[i]);
        lemma_steps_look_no_further(paths, outcomes, more, i + 1);
    }
}

/// Outcomes that belong to no candidate change nothing.
pub proof fn law_only_candidates_count(
    paths: Seq<Seq<char>>,
    outcomes: Seq<Result<(), Seq<char>>>,
    more: Seq<Result<(), Seq<char>>>,
)
    requires
        outcomes.len() == paths.len(),
    ensures
        mount_step(paths, outcomes + more) == mount_step(paths, outcomes),
{
    lemma_steps_look_no_further(paths, outcomes, more, 0);
}

} // verus!
