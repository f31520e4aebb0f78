//! The file name under which a key is shown.
//!
//! A key is named after its comment. A key whose comment leaves nothing usable
//! is named after its algorithm and fingerprint. Keys that ask for the same
//! name are numbered.

use vstd::prelude::*;

use crate::text;
use crate::text::{decimal_string, from_chars, to_chars};

verus! {

/// Unicode's control characters (general category `Cc`).
pub open spec fn is_control(c: char) -> bool {
    c as u32 <= 0x1f || 0x7f <= c as u32 <= 0x9f
}

/// The characters that have Unicode's `White_Space` property.
pub open spec fn is_white_space(c: char) -> bool {
    let n = c as u32;
    ||| 0x09 <= n <= 0x0d
    ||| n == 0x20
    ||| n == 0x85
    ||| n == 0xa0
    ||| n == 0x1680
    ||| 0x2000 <= n <= 0x200a
    ||| n == 0x2028
    ||| n == 0x2029
    ||| n == 0x202f
    ||| n == 0x205f
    ||| n == 0x3000
}

/// `char::is_control` tells whether a character is in the general category for
/// control codes, `Cc`.
pub assume_specification[ char::is_control ](c: char) -> (b: bool)
    ensures
        b == is_control(c),
;

/// `char::is_whitespace` tells whether a character has the `White_Space`
/// property of the Unicode Character Database.
pub assume_specification[ char::is_whitespace ](c: char) -> (b: bool)
    ensures
        b == is_white_space(c),
;

/// The characters that a file name must not carry over from a comment.
pub open spec fn is_unfriendly(c: char) -> bool {
    c == '/' || c == '\\' || c == '\0' || is_control(c) || is_white_space(c)
}

/// What a comment's character becomes in a file name.
pub open spec fn clean_char(c: char) -> char {
    if is_unfriendly(c) {
        '_'
    } else {
        c
    }
}

/// A comment with every unfriendly character replaced.
pub open spec fn cleaned(s: Seq<char>) -> Seq<char> {
    Seq::new(s.len(), |i: int| clean_char(s[i]))
}

/// `s` without its leading underscores.
pub open spec fn trim_start(s: Seq<char>) -> Seq<char>
    decreases s.len(),
{
    if s.len() > 0 && s[0] == '_' {
        trim_start(s.drop_first())
    } else {
        s
    }
}

/// `s` without its trailing underscores.
pub open spec fn trim_end(s: Seq<char>) -> Seq<char>
    decreases s.len(),
{
    if s.len() > 0 && s.last() == '_' {
        trim_end(s.drop_last())
    } else {
        s
    }
}

/// The name that a comment asks for: cleaned, without underscores at either
/// end, or nothing if nothing is left.
pub open spec fn sanitized(s: Seq<char>) -> Option<Seq<char>> {
    let trimmed = trim_end(trim_start(cleaned(s)));
    if trimmed.len() == 0 {
        None
    } else {
        Some(trimmed)
    }
}

/// Makes a comment safe to use as a single filename component. Returns `None`
/// if nothing is left once the path-unfriendly characters are gone; the caller
/// then falls back to a fingerprint-based label.
pub fn sanitize_name(s: &str) -> (name: Option<String>)
    ensures
        text::option_text(name) == sanitized(s@),
{
    let mut chars: Vec<char> = to_chars(s);
    let mut i: usize = 0;
    while i < chars.len()
        invariant
            i <= chars@.len(),
            chars@.len() == s@.len(),
            forall|j: int| 0 <= j < i ==> chars@[j] == clean_char(s@[j]),
            forall|j: int| i <= j < chars@.len() ==> chars@[j] == s@[j],
        decreases chars@.len() - i,
    {
        let c: char = chars[i];
        if c == '/' || c == '\\' || c == '\0' || c.is_control() || c.is_whitespace() {
            chars.set(i, '_');
        }
        i += 1;
    }
    assert(chars@ == cleaned(s@));

    let mut start: usize = 0;
    assert(chars@.skip(0) == chars@);
    while start < chars.len() && chars[start] == '_'
        invariant
            start <= chars@.len(),
            trim_start(chars@) == trim_start(chars@.skip(start as int)),
        decreases chars@.len() - start,
    {
        assert(chars@.skip(start as int).drop_first() == chars@.skip(start + 1));
        start += 1;
    }
    assert(trim_start(chars@) == chars@.skip(start as int));

    let mut end: usize = chars.len();
    assert(chars@.subrange(start as int, end as int) == chars@.skip(start as int));
    while start < end && chars[end - 1] == '_'
        invariant
            start <= end <= chars@.len(),
            trim_end(trim_start(chars@)) == trim_end(chars@.subrange(start as int, end as int)),
        decreases end,
    {
        assert(chars@.subrange(start as int, end as int).drop_last() == chars@.subrange(
            start as int,
            end - 1,
        ));
        end -= 1;
    }
    if start == end {
        None
    } else {
        Some(from_chars(&chars, start, end))
    }
}

/// Whether `s` begins with `prefix`.
pub open spec fn has_prefix(s: Seq<char>, prefix: Seq<char>) -> bool {
    s.len() >= prefix.len() && s.take(prefix.len() as int) == prefix
}

/// Whether `s` ends in `suffix`.
pub open spec fn has_suffix(s: Seq<char>, suffix: Seq<char>) -> bool {
    s.len() >= suffix.len() && s.skip(s.len() - suffix.len()) == suffix
}

/// An algorithm's name without the common `ssh-` in front.
pub open spec fn without_ssh(algorithm: Seq<char>) -> Seq<char> {
    if has_prefix(algorithm, "ssh-"@) {
        algorithm.skip("ssh-"@.len() as int)
    } else {
        algorithm
    }
}

/// An algorithm's name as a label shows it: without the common `ssh-`, and with
/// OpenSSH's long certificate suffix cut down to `-cert`.
pub open spec fn short_algorithm(algorithm: Seq<char>) -> Seq<char> {
    let s = without_ssh(algorithm);
    if has_suffix(s, "-cert-v01@openssh.com"@) {
        s.take(s.len() - "-cert-v01@openssh.com"@.len()) + "-cert"@
    } else {
        s
    }
}

/// What precedes the first `c` in `s`: all of `s` if there is none.
pub open spec fn before(s: Seq<char>, c: char) -> Seq<char>
    decreases s.len(),
{
    if s.len() == 0 || s[0] == c {
        Seq::empty()
    } else {
        seq![s[0]] + before(s.drop_first(), c)
    }
}

/// What follows the first `c` in `s`: nothing if there is none.
pub open spec fn after(s: Seq<char>, c: char) -> Seq<char>
    decreases s.len(),
{
    if s.len() == 0 {
        Seq::empty()
    } else if s[0] == c {
        s.drop_first()
    } else {
        after(s.drop_first(), c)
    }
}

/// The number of characters of the fingerprint that a label shows.
pub const DIGEST_CHARS: usize = 8;

/// What a character of a fingerprint becomes in a file name.
pub open spec fn clean_digest_char(c: char) -> char {
    if c == '/' || c == '+' || c == '=' {
        '_'
    } else {
        c
    }
}

/// The part of a fingerprint that a label shows: the first few characters of
/// what stands between its first colon and the next, made safe for a file name.
pub open spec fn short_digest(fingerprint: Seq<char>) -> Seq<char> {
    let field = before(after(fingerprint, ':'), ':');
    let n = if field.len() < DIGEST_CHARS { field.len() } else { DIGEST_CHARS as nat };
    Seq::new(n, |i: int| clean_digest_char(field[i]))
}

/// The label of a key that has no usable comment.
pub open spec fn label(algorithm: Seq<char>, fingerprint: Seq<char>) -> Seq<char> {
    short_algorithm(algorithm) + "-SHA256_"@ + short_digest(fingerprint)
}

fn ends_with(chars: &Vec<char>, start: usize, suffix: &Vec<char>) -> (b: bool)
    requires
        start <= chars@.len(),
    ensures
        b == has_suffix(chars@.skip(start as int), suffix@),
{
    let ghost s = chars@.skip(start as int);
    if chars.len() - start < suffix.len() {
        return false;
    }
    let len: usize = chars.len();
    let offset: usize = len - suffix.len();
    let mut i: usize = 0;
    while i < suffix.len()
        invariant
            i <= suffix@.len(),
            len == chars@.len(),
            offset + suffix@.len() == len,
            start <= offset,
            s == chars@.skip(start as int),
            forall|j: int| 0 <= j < i ==> chars@[offset + j] == suffix@[j],
        decreases suffix@.len() - i,
    {
        if chars[offset + i] != suffix[i] {
            assert(s.skip(s.len() - suffix@.len())[i as int] == chars@[offset + i]);
            return false;
        }
        i += 1;
    }
    assert(s.skip(s.len() - suffix@.len()) == suffix@);
    true
}

fn starts_with(chars: &Vec<char>, prefix: &Vec<char>) -> (b: bool)
    ensures
        b == has_prefix(chars@, prefix@),
{
    if chars.len() < prefix.len() {
        return false;
    }
    let mut i: usize = 0;
    while i < prefix.len()
        invariant
            i <= prefix@.len() <= chars@.len(),
            forall|j: int| 0 <= j < i ==> chars@[j] == prefix@[j],
        decreases prefix@.len() - i,
    {
        if chars[i] != prefix[i] {
            assert(chars@.take(prefix@.len() as int)[i as int] == chars@[i as int]);
            return false;
        }
        i += 1;
    }
    assert(chars@.take(prefix@.len() as int) == prefix@);
    true
}

fn shorten_algorithm(algorithm: &str) -> (s: String)
    ensures
        s@ == short_algorithm(algorithm@),
{
    let chars: Vec<char> = to_chars(algorithm);
    let prefix: Vec<char> = to_chars("ssh-");
    let suffix: Vec<char> = to_chars("-cert-v01@openssh.com");
    let start: usize = if starts_with(&chars, &prefix) {
        prefix.len()
    } else {
        0
    };
    assert(chars@.skip(start as int) == without_ssh(algorithm@));
    let end: usize = chars.len();
    if ends_with(&chars, start, &suffix) {
        let mut s: String = from_chars(&chars, start, end - suffix.len());
        assert(s@ == without_ssh(algorithm@).take(without_ssh(algorithm@).len() - suffix@.len()));
        s.append("-cert");
        s
    } else {
        let s: String = from_chars(&chars, start, end);
        assert(s@ == chars@.skip(start as int));
        s
    }
}

fn shorten_digest(fingerprint: &str) -> (s: String)
    ensures
        s@ == short_digest(fingerprint@),
{
    let chars: Vec<char> = to_chars(fingerprint);
    let mut i: usize = 0;
    assert(chars@.skip(0) == chars@);
    while i < chars.len() && chars[i] != ':'
        invariant
            i <= chars@.len(),
            after(chars@, ':') == after(chars@.skip(i as int), ':'),
        decreases chars@.len() - i,
    {
        assert(chars@.skip(i as int).drop_first() == chars@.skip(i + 1));
        i += 1;
    }
    if i < chars.len() {
        assert(chars@.skip(i as int).drop_first() == chars@.skip(i + 1));
        i += 1;
    }
    assert(after(chars@, ':') == chars@.skip(i as int));

    let ghost rest = chars@.skip(i as int);
    let ghost field = before(rest, ':');
    let mut s: String = String::new();
    let mut n: usize = 0;
    assert(rest.skip(0) == rest);
    assert(field.skip(0) == field);
    while n < DIGEST_CHARS && i < chars.len() && chars[i] != ':'
        invariant
            i <= chars@.len(),
            n <= DIGEST_CHARS,
            n <= field.len(),
            field.skip(n as int) == before(chars@.skip(i as int), ':'),
            s@ == Seq::new(n as nat, |j: int| clean_digest_char(field[j])),
        decreases chars@.len() - i,
    {
        let c: char = chars[i];
        proof {
            assert(chars@.skip(i as int).drop_first() == chars@.skip(i + 1));
            assert(field.skip(n as int) == seq![c] + before(chars@.skip(i + 1), ':'));
            assert(field.skip(n as int)[0] == field[n as int]);
            assert(field.skip(n + 1) == field.skip(n as int).drop_first());
            assert(field.skip(n + 1) == before(chars@.skip(i + 1), ':'));
        }
        if c == '/' || c == '+' || c == '=' {
            s.push('_');
        } else {
            s.push(c);
        }
        i += 1;
        n += 1;
    }
    s
}

/// The label of a key with the given algorithm and the given textual
/// fingerprint.
pub fn label_from_text(algorithm: &str, fingerprint: &str) -> (s: String)
    ensures
        s@ == label(algorithm@, fingerprint@),
{
    let mut s: String = shorten_algorithm(algorithm);
    s.append("-SHA256_");
    let digest: String = shorten_digest(fingerprint);
    s.append(digest.as_str());
    s
}

/// The name of the file of the key that is the `count`-th, counted from zero,
/// to ask for the name `base`.
pub open spec fn file_name_of(base: Seq<char>, count: nat) -> Seq<char> {
    if count == 0 {
        base + ".pub"@
    } else {
        base + "_"@ + text::decimal(count) + ".pub"@
    }
}

/// The name of the file of the key that is the `count`-th, counted from zero,
/// to ask for the name `base`.
pub fn file_name(base: &str, count: u64) -> (name: String)
    ensures
        name@ == file_name_of(base@, count as nat),
{
    let mut name: String = base.to_owned();
    if count != 0 {
        name.append("_");
        let number: String = decimal_string(count);
        name.append(number.as_str());
    }
    name.append(".pub");
    name
}

/// A name that a comment asks for is not empty, holds no unfriendly character
/// and neither begins nor ends with an underscore.
pub proof fn law_sanitized_name_is_safe(s: Seq<char>)
    requires
        sanitized(s) is Some,
    ensures
        sanitized(s)->0.len() > 0,
        forall|i: int| 0 <= i < sanitized(s)->0.len() ==> !is_unfriendly(#[trigger] sanitized(s)->0[i]),
        sanitized(s)->0[0] != '_',
        sanitized(s)->0.last() != '_',
{
    lemma_trim_start(cleaned(s));
    lemma_trim_end(trim_start(cleaned(s)));
    let t = sanitized(s)->0;
    let a = trim_start(cleaned(s));
    let k = cleaned(s).len() - a.len();
    assert forall|i: int| 0 <= i < t.len() implies !is_unfriendly(#[trigger] t[i]) by {
        assert(t[i] == a[i]);
        assert(a[i] == cleaned(s)[k + i]);
        assert(cleaned(s)[k + i] == clean_char(s[k + i]));
    }
}

/// A comment leaves nothing to name a file after exactly if each of its
/// characters is unfriendly or an underscore.
pub proof fn law_nothing_left(s: Seq<char>)
    ensures
        sanitized(s) is None <==> forall|i: int|
            0 <= i < s.len() ==> is_unfriendly(#[trigger] s[i]) || s[i] == '_',
{
    let c = cleaned(s);
    lemma_trim_start(c);
    lemma_trim_end(trim_start(c));
    if forall|i: int| 0 <= i < s.len() ==> is_unfriendly(#[trigger] s[i]) || s[i] == '_' {
        let a = trim_start(c);
        if a.len() > 0 {
            let k = c.len() - a.len();
            assert(a[0] == c[k as int]);
            assert(c[k as int] == clean_char(s[k as int]));
        }
    }
    if sanitized(s) is None {
        let a = trim_start(c);
        let k = c.len() - a.len();
        assert(a.len() == 0);
        assert forall|i: int| 0 <= i < s.len() implies is_unfriendly(#[trigger] s[i]) || s[i]
            == '_' by {
            assert(c[i] == '_');
            assert(c[i] == clean_char(s[i]));
        }
    }
}

/// A comment that is already safe is used as it is.
pub proof fn law_safe_comment_is_kept(s: Seq<char>)
    requires
        s.len() > 0,
        forall|i: int| 0 <= i < s.len() ==> !is_unfriendly(#[trigger] s[i]),
        s[0] != '_',
        s.last() != '_',
    ensures
        sanitized(s) == Some(s),
{
    assert(cleaned(s) == s);
}

/// Sanitizing a name a second time changes nothing.
pub proof fn law_sanitizing_is_idempotent(s: Seq<char>)
    requires
        sanitized(s) is Some,
    ensures
        sanitized(sanitized(s)->0) == sanitized(s),
{
    law_sanitized_name_is_safe(s);
    law_safe_comment_is_kept(sanitized(s)->0);
}

proof fn lemma_trim_start(s: Seq<char>)
    ensures
        trim_start(s).len() <= s.len(),
        trim_start(s) == s.skip(s.len() - trim_start(s).len()),
        trim_start(s).len() > 0 ==> trim_start(s)[0] != '_',
        forall|i: int| 0 <= i < s.len() - trim_start(s).len() ==> s[i] == '_',
    decreases s.len(),
{
    if s.len() > 0 && s[0] == '_' {
        let d = s.drop_first();
        lemma_trim_start(d);
        assert forall|i: int| 0 <= i < s.len() - trim_start(s).len() implies s[i] == '_' by {
            if i > 0 {
                assert(d[i - 1] == s[i]);
            }
        }
    }
}

proof fn lemma_trim_end(s: Seq<char>)
    ensures
        trim_end(s).len() <= s.len(),
        trim_end(s) == s.take(trim_end(s).len() as int),
        trim_end(s).len() > 0 ==> trim_end(s).last() != '_',
        forall|i: int| trim_end(s).len() <= i < s.len() ==> s[i] == '_',
        s.len() > 0 && s[0] != '_' ==> trim_end(s).len() > 0,
    decreases s.len(),
{
    if s.len() > 0 && s.last() == '_' {
        let d = s.drop_last();
        lemma_trim_end(d);
        assert forall|i: int| trim_end(s).len() <= i < s.len() implies s[i] == '_' by {
            if i < d.len() {
                assert(d[i] == s[i]);
            }
        }
    }
}

/// Whether `c` can stand in the name of a directory entry.
pub open spec fn may_stand_in_name(c: char) -> bool {
    c != '/' && c != '\0'
}

/// Whether every character of `s` can stand in the name of a directory entry.
pub open spec fn is_component_text(s: Seq<char>) -> bool {
    forall|i: int| 0 <= i < s.len() ==> may_stand_in_name(#[trigger] s[i])
}

proof fn lemma_component_concat(s: Seq<char>, t: Seq<char>)
    ensures
        is_component_text(s + t) <==> is_component_text(s) && is_component_text(t),
{
    if is_component_text(s + t) {
        assert forall|i: int| 0 <= i < s.len() implies may_stand_in_name(#[trigger] s[i]) by {
            assert((s + t)[i] == s[i]);
        }
        assert forall|i: int| 0 <= i < t.len() implies may_stand_in_name(#[trigger] t[i]) by {
            assert((s + t)[s.len() + i] == t[i]);
        }
    }
}

proof fn lemma_decimal_is_digits(n: nat)
    ensures
        text::decimal(n).len() > 0,
        forall|i: int| 0 <= i < text::decimal(n).len() ==> '0' <= #[trigger] text::decimal(n)[i] <= '9',
{
    text::law_decimal_reads_back(n);
}

proof fn lemma_decimal_injective(m: nat, n: nat)
    requires
        text::decimal(m) == text::decimal(n),
    ensures
        m == n,
{
    text::law_decimal_reads_back(m);
    text::law_decimal_reads_back(n);
}

/// A file's name is a single path component: it is never empty, `.` or `..`,
/// and has no slash and no NUL, if the name that the key asks for has none.
pub proof fn law_file_name_is_component(base: Seq<char>, count: nat)
    requires
        is_component_text(base),
    ensures
        is_component_text(file_name_of(base, count)),
        has_suffix(file_name_of(base, count), ".pub"@),
        file_name_of(base, count).len() > 2,
{
    reveal_strlit(".pub");
    reveal_strlit("_");
    let name = file_name_of(base, count);
    lemma_decimal_is_digits(count);
    if count == 0 {
        lemma_component_concat(base, ".pub"@);
    } else {
        lemma_component_concat(base, "_"@);
        lemma_component_concat(base + "_"@, text::decimal(count));
        lemma_component_concat(base + "_"@ + text::decimal(count), ".pub"@);
    }
    assert(name.skip(name.len() - 4) == ".pub"@);
}

/// Two keys get the same file name exactly if they ask for the same name with
/// the same count, or if one of them asks outright for the numbered form of the
/// other.
pub proof fn law_file_names_clash(b1: Seq<char>, c1: nat, b2: Seq<char>, c2: nat)
    ensures
        file_name_of(b1, c1) == file_name_of(b2, c2) <==> {
            ||| b1 == b2 && c1 == c2
            ||| c1 == 0 && c2 > 0 && b1 == b2 + "_"@ + text::decimal(c2)
            ||| c2 == 0 && c1 > 0 && b2 == b1 + "_"@ + text::decimal(c1)
        },
{
    reveal_strlit("_");
    let s1 = if c1 == 0 { b1 } else { b1 + "_"@ + text::decimal(c1) };
    let s2 = if c2 == 0 { b2 } else { b2 + "_"@ + text::decimal(c2) };
    let n1 = file_name_of(b1, c1);
    let n2 = file_name_of(b2, c2);
    assert(n1 == s1 + ".pub"@);
    assert(n2 == s2 + ".pub"@);
    if n1 == n2 {
        assert(s1 == n1.take(s1.len() as int));
        assert(s2 == n2.take(s2.len() as int));
        assert(s1 == s2);
        if c1 > 0 && c2 > 0 {
            lemma_numbered_injective(b1, c1, b2, c2);
        }
    }
}

proof fn lemma_numbered_injective(b1: Seq<char>, c1: nat, b2: Seq<char>, c2: nat)
    requires
        b1 + "_"@ + text::decimal(c1) == b2 + "_"@ + text::decimal(c2),
    ensures
        b1 == b2,
        c1 == c2,
{
    reveal_strlit("_");
    let s1 = b1 + "_"@ + text::decimal(c1);
    let s2 = b2 + "_"@ + text::decimal(c2);
    lemma_decimal_is_digits(c1);
    lemma_decimal_is_digits(c2);
    assert("_"@.len() == 1);
    assert(s1.len() == s2.len());
    assert(s1[b1.len() as int] == '_');
    assert(s2[b2.len() as int] == '_');
    if b1.len() < b2.len() {
        assert(b2.len() < s1.len());
        assert(s1[b2.len() as int] == text::decimal(c1)[b2.len() - b1.len() - 1]);
    } else if b2.len() < b1.len() {
        assert(b1.len() < s2.len());
        assert(s2[b1.len() as int] == text::decimal(c2)[b1.len() - b2.len() - 1]);
    }
    assert(b1 == s1.take(b1.len() as int));
    assert(b2 == s2.take(b2.len() as int));
    assert(text::decimal(c1) == s1.skip((b1.len() + 1) as int));
    assert(text::decimal(c2) == s2.skip((b2.len() + 1) as int));
    lemma_decimal_injective(c1, c2);
}

/// Whether `c` is a digit of standard Base64.
pub open spec fn is_base64_char(c: char) -> bool {
    'A' <= c <= 'Z' || 'a' <= c <= 'z' || '0' <= c <= '9' || c == '+' || c == '/'
}

/// The outward form of a SHA-256 fingerprint: the name of the hash, a colon and
/// the digest in Base64 without padding.
pub open spec fn is_sha256_text(s: Seq<char>) -> bool {
    &&& s.len() == 50
    &&& s.take(7) == "SHA256:"@
    &&& forall|i: int| 7 <= i < s.len() ==> is_base64_char(#[trigger] s[i])
}

/// Whether `c` is an ASCII letter or digit or an underscore.
pub open spec fn is_word_char(c: char) -> bool {
    'A' <= c <= 'Z' || 'a' <= c <= 'z' || '0' <= c <= '9' || c == '_'
}

/// A label shows eight characters of a SHA-256 fingerprint, each an ASCII
/// letter or digit or an underscore.
pub proof fn law_short_digest_is_safe(fingerprint: Seq<char>)
    requires
        is_sha256_text(fingerprint),
    ensures
        short_digest(fingerprint).len() == 8,
        forall|i: int| 0 <= i < 8 ==> is_word_char(#[trigger] short_digest(fingerprint)[i]),
{
    reveal_strlit("SHA256:");
    let s = fingerprint;
    let head = s.take(7);
    assert(s[0] == head[0] && s[1] == head[1] && s[2] == head[2] && s[3] == head[3]);
    assert(s[4] == head[4] && s[5] == head[5] && s[6] == head[6]);
    let rest = s.skip(7);
    lemma_after_first(s, ':', 6);
    assert forall|i: int| 0 <= i < rest.len() implies #[trigger] rest[i] != ':' by {
        assert(rest[i] == s[7 + i]);
    }
    lemma_before_absent(rest, ':');
    assert forall|i: int| 0 <= i < 8 implies is_word_char(#[trigger] short_digest(s)[i]) by {
        assert(rest[i] == s[7 + i]);
    }
}

proof fn lemma_after_first(s: Seq<char>, c: char, k: int)
    requires
        0 <= k < s.len(),
        s[k] == c,
        forall|i: int| 0 <= i < k ==> s[i] != c,
    ensures
        after(s, c) == s.skip(k + 1),
    decreases k,
{
    if k == 0 {
        assert(s.drop_first() == s.skip(1));
    } else {
        let d = s.drop_first();
        assert forall|i: int| 0 <= i < k - 1 implies d[i] != c by {
            assert(d[i] == s[i + 1]);
        }
        lemma_after_first(d, c, k - 1);
        assert(d.skip(k) == s.skip(k + 1));
    }
}

proof fn lemma_before_absent(s: Seq<char>, c: char)
    requires
        forall|i: int| 0 <= i < s.len() ==> s[i] != c,
    ensures
        before(s, c) == s,
    decreases s.len(),
{
    if s.len() > 0 {
        let d = s.drop_first();
        assert forall|i: int| 0 <= i < d.len() implies d[i] != c by {
            assert(d[i] == s[i + 1]);
        }
        lemma_before_absent(d, c);
        assert(seq![s[0]] + d == s);
    }
}

/// A label can stand as a file's name if the name of the key's algorithm can.
pub proof fn law_label_is_component(algorithm: Seq<char>, fingerprint: Seq<char>)
    requires
        is_component_text(algorithm),
        is_sha256_text(fingerprint),
    ensures
        is_component_text(label(algorithm, fingerprint)),
{
    reveal_strlit("-SHA256_");
    reveal_strlit("-cert");
    law_short_digest_is_safe(fingerprint);
    let a = without_ssh(algorithm);
    assert(is_component_text(a));
    let t = a.take(a.len() - "-cert-v01@openssh.com"@.len());
    if has_suffix(a, "-cert-v01@openssh.com"@) {
        assert forall|i: int| 0 <= i < t.len() implies may_stand_in_name(#[trigger] t[i]) by {
            assert(t[i] == a[i]);
        }
        lemma_component_concat(t, "-cert"@);
    }
    lemma_component_concat(short_algorithm(algorithm), "-SHA256_"@);
    lemma_component_concat(short_algorithm(algorithm) + "-SHA256_"@, short_digest(fingerprint));
}

/// The characters that a file name must not carry over from a comment are the
/// slash, the backslash, and Unicode's control and white-space characters.
pub proof fn law_unfriendly_characters(c: char)
    ensures
        is_unfriendly(c) <==> {
            let n = c as u32;
            ||| c == '/'
            ||| c == '\\'
            ||| n <= 0x20
            ||| 0x7f <= n <= 0xa0
            ||| n == 0x1680
            ||| 0x2000 <= n <= 0x200a
            ||| n == 0x2028
            ||| n == 0x2029
            ||| n == 0x202f
            ||| n == 0x205f
            ||| n == 0x3000
        },
{
}

/// No usable character of a comment is lost, and none is moved. A name is a
/// stretch of its comment, from `r.0` up to `r.1`, character for character, with
/// an underscore for each unfriendly one; and what the comment has outside the
/// stretch is unfriendly or an underscore.
pub proof fn law_no_usable_character_is_lost(s: Seq<char>) -> (r: (int, int))
    requires
        sanitized(s) is Some,
    ensures
        0 <= r.0 < r.1 <= s.len(),
        sanitized(s)->0.len() == r.1 - r.0,
        forall|i: int|
            0 <= i < r.1 - r.0 ==> #[trigger] sanitized(s)->0[i] == (if s[r.0 + i] == '/'
                || s[r.0 + i] == '\\' || s[r.0 + i] == '\0' || is_control(s[r.0 + i])
                || is_white_space(s[r.0 + i]) {
                '_'
            } else {
                s[r.0 + i]
            }),
        forall|i: int|
            (0 <= i < r.0 || r.1 <= i < s.len()) ==> (#[trigger] s[i] == '_' || s[i] == '/'
                || s[i] == '\\' || s[i] == '\0' || is_control(s[i]) || is_white_space(s[i])),
{
    let c = cleaned(s);
    let kept = trim_start(c);
    let name = sanitized(s)->0;
    lemma_trim_start(c);
    lemma_trim_end(kept);
    let a = c.len() - kept.len();
    let b = a + name.len();
    assert forall|i: int| 0 <= i < name.len() implies #[trigger] name[i] == clean_char(
        s[a + i],
    ) by {
        assert(name[i] == kept[i]);
        assert(kept[i] == c[a + i]);
    }
    assert forall|i: int| (0 <= i < a || b <= i < s.len()) implies #[trigger] s[i] == '_'
        || is_unfriendly(s[i]) by {
        if i >= b {
            assert(kept[i - a] == c[i]);
            assert(kept[i - a] == '_');
        }
        assert(c[i] == '_');
        assert(c[i] == clean_char(s[i]));
    }
    (a, b)
}

/// A comment with a usable character gives a name that is as long as the stretch
/// between its usable characters, however long that is: with unfriendly
/// characters or underscores around it, it gives the same name.
pub proof fn law_what_surrounds_a_name_does_not_matter(
    left: Seq<char>,
    s: Seq<char>,
    right: Seq<char>,
)
    requires
        forall|i: int| 0 <= i < left.len() ==> is_unfriendly(#[trigger] left[i]) || left[i] == '_',
        forall|i: int|
            0 <= i < right.len() ==> is_unfriendly(#[trigger] right[i]) || right[i] == '_',
    ensures
        sanitized(left + s + right) == sanitized(s),
{
    let t = left + s + right;
    law_nothing_left(s);
    law_nothing_left(t);
    if sanitized(s) is None {
        assert forall|i: int| 0 <= i < t.len() implies is_unfriendly(#[trigger] t[i]) || t[i]
            == '_' by {
            if left.len() <= i < left.len() + s.len() {
                assert(t[i] == s[i - left.len()]);
            }
        }
    } else {
        let j = choose|j: int| 0 <= j < s.len() && !(is_unfriendly(#[trigger] s[j]) || s[j] == '_');
        assert(t[left.len() + j] == s[j]);
        law_sanitized_name_is_safe(s);
        law_sanitized_name_is_safe(t);
        let (a, b) = law_no_usable_character_is_lost(s);
        let (x, y) = law_no_usable_character_is_lost(t);
        let m = sanitized(s)->0;
        let n = sanitized(t)->0;
        assert(n[0] != '_' && m[0] != '_');
        assert(n[n.len() - 1] != '_' && m[m.len() - 1] != '_');
        assert(t[left.len() + a] == s[a]);
        assert(t[left.len() + b - 1] == s[b - 1]);
        assert(usable(s[a]) && usable(s[b - 1]) && usable(t[x]) && usable(t[y - 1]));
        assert(x == left.len() + a) by {
            if x < left.len() {
                assert(t[x] == left[x]);
            } else if x < left.len() + a {
                assert(t[x] == s[x - left.len()]);
            }
        }
        assert(y == left.len() + b) by {
            if y > left.len() + s.len() {
                assert(t[y - 1] == right[y - 1 - left.len() - s.len()]);
            } else if y > left.len() + b {
                assert(t[y - 1] == s[y - 1 - left.len()]);
            }
        }
        assert forall|i: int| 0 <= i < m.len() implies #[trigger] m[i] == n[i] by {
            assert(t[x + i] == s[a + i]);
        }
        assert(m == n);
    }
}

spec fn usable(c: char) -> bool {
    !is_unfriendly(c) && c != '_'
}

/// How the name of an algorithm is shortened: a leading `ssh-` goes, OpenSSH's
/// certificate suffix becomes `-cert`, and everything else stays, whatever it
/// is.
pub proof fn law_algorithm_is_shortened(name: Seq<char>)
    ensures
        short_algorithm("ssh-"@ + name + "-cert-v01@openssh.com"@) == name + "-cert"@,
        !"-cert-v01@openssh.com"@.is_suffix_of(name) ==> short_algorithm("ssh-"@ + name) == name,
        !"ssh-"@.is_prefix_of(name + "-cert-v01@openssh.com"@) ==> short_algorithm(
            name + "-cert-v01@openssh.com"@,
        ) == name + "-cert"@,
        !"ssh-"@.is_prefix_of(name) && !"-cert-v01@openssh.com"@.is_suffix_of(name)
            ==> short_algorithm(name) == name,
{
    let ssh = "ssh-"@;
    let cert = "-cert-v01@openssh.com"@;
    let both = ssh + name + cert;
    assert(both.take(ssh.len() as int) == ssh);
    assert(both.skip(ssh.len() as int) == name + cert);
    assert((name + cert).skip((name + cert).len() - cert.len()) == cert);
    assert((name + cert).take((name + cert).len() - cert.len()) == name);
    assert((ssh + name).take(ssh.len() as int) == ssh);
    assert((ssh + name).skip(ssh.len() as int) == name);
    if name.len() >= cert.len() {
        assert(name.skip(name.len() - cert.len()) == name.subrange(
            name.len() - cert.len(),
            name.len() as int,
        ));
    }
    if name.len() >= ssh.len() {
        assert(name.take(ssh.len() as int) == name.subrange(0, ssh.len() as int));
    }
    assert((name + cert).len() >= ssh.len() ==> (name + cert).take(ssh.len() as int) == (name
        + cert).subrange(0, ssh.len() as int));
}

/// A label is the short algorithm, `-SHA256_`, and the beginning of the
/// fingerprint's second field: its first eight characters, or all of them if it
/// has fewer, each as it is but for `/`, `+` and `=`, which become underscores.
/// What a third field holds does not matter. Without a second field there are no
/// such characters.
pub proof fn law_label_shows_the_digest(
    algorithm: Seq<char>,
    head: Seq<char>,
    field: Seq<char>,
    rest: Seq<char>,
)
    requires
        forall|i: int| 0 <= i < head.len() ==> head[i] != ':',
        forall|i: int| 0 <= i < field.len() ==> field[i] != ':',
    ensures
        label(algorithm, head) == short_algorithm(algorithm) + "-SHA256_"@,
        label(algorithm, head + seq![':'] + field + seq![':'] + rest) == label(
            algorithm,
            head + seq![':'] + field,
        ),
        ({
            let l = label(algorithm, head + seq![':'] + field);
            let start = short_algorithm(algorithm) + "-SHA256_"@;
            &&& start.is_prefix_of(l)
            &&& l.len() == start.len() + (if field.len() < 8 {
                field.len() as int
            } else {
                8
            })
            &&& forall|i: int|
                start.len() <= i < l.len() ==> #[trigger] l[i] == (if field[i - start.len()] == '/'
                    || field[i - start.len()] == '+' || field[i - start.len()] == '=' {
                    '_'
                } else {
                    field[i - start.len()]
                })
        }),
{
    let one = head + seq![':'] + field;
    let two = head + seq![':'] + field + seq![':'] + rest;
    let k = head.len() as int;
    assert forall|i: int| 0 <= i < k implies one[i] != ':' && two[i] != ':' by {
        assert(one[i] == head[i] && two[i] == head[i]);
    }
    lemma_after_first(one, ':', k);
    lemma_after_first(two, ':', k);
    assert(one.skip(k + 1) == field);
    assert(two.skip(k + 1) == field + seq![':'] + rest);
    lemma_before_absent(field, ':');
    lemma_before_first(field, ':', rest);
    assert(field + (seq![':'] + rest) == field + seq![':'] + rest);
    lemma_after_absent(head, ':');
    assert(short_digest(head) == Seq::<char>::empty());
    assert(label(algorithm, head) == short_algorithm(algorithm) + "-SHA256_"@);
    let l = label(algorithm, one);
    let start = short_algorithm(algorithm) + "-SHA256_"@;
    assert(start == l.subrange(0, start.len() as int));
    assert forall|i: int| start.len() <= i < l.len() implies #[trigger] l[i] == clean_digest_char(
        field[i - start.len()],
    ) by {
        assert(l[i] == short_digest(one)[i - start.len()]);
    }
}

proof fn lemma_after_absent(s: Seq<char>, c: char)
    requires
        forall|i: int| 0 <= i < s.len() ==> s[i] != c,
    ensures
        after(s, c) == Seq::<char>::empty(),
    decreases s.len(),
{
    if s.len() > 0 {
        let d = s.drop_first();
        assert forall|i: int| 0 <= i < d.len() implies d[i] != c by {
            assert(d[i] == s[i + 1]);
        }
        lemma_after_absent(d, c);
    }
}

proof fn lemma_before_first(s: Seq<char>, c: char, rest: Seq<char>)
    requires
        forall|i: int| 0 <= i < s.len() ==> s[i] != c,
    ensures
        before(s + (seq![c] + rest), c) == s,
    decreases s.len(),
{
    let t = s + (seq![c] + rest);
    if s.len() == 0 {
        assert(t[0] == c);
    } else {
        let d = s.drop_first();
        assert forall|i: int| 0 <= i < d.len() implies d[i] != c by {
            assert(d[i] == s[i + 1]);
        }
        lemma_before_first(d, c, rest);
        assert(t[0] == s[0]);
        assert(t.drop_first() == d + (seq![c] + rest));
        assert(seq![s[0]] + d == s);
    }
}

/// The label of a key with a SHA-256 fingerprint ends in the first eight
/// characters of the digest, with underscores for those that cannot stand in a
/// file name. What precedes them is the short algorithm and `-SHA256_`. This
/// holds of every algorithm.
pub proof fn law_label_ends_in_the_digest(algorithm: Seq<char>, fingerprint: Seq<char>)
    requires
        is_sha256_text(fingerprint),
    ensures
        ({
            let l = label(algorithm, fingerprint);
            &&& l.len() >= 8
            &&& l.take(l.len() - 8) == short_algorithm(algorithm) + "-SHA256_"@
            &&& forall|i: int|
                0 <= i < 8 ==> l[l.len() - 8 + i] == (if fingerprint[#[trigger] (7 + i)] == '/'
                    || fingerprint[7 + i] == '+' || fingerprint[7 + i] == '=' {
                    '_'
                } else {
                    fingerprint[7 + i]
                })
        }),
{
    reveal_strlit("SHA256:");
    let head = fingerprint.take(6);
    let field = fingerprint.skip(7);
    let start = fingerprint.take(7);
    assert("SHA256:"@ == start);
    assert forall|i: int| 0 <= i < 6 implies head[i] != ':' by {
        assert(head[i] == start[i]);
        assert("SHA256:"@[i] == start[i]);
        assert(i == 0 || i == 1 || i == 2 || i == 3 || i == 4 || i == 5);
    }
    assert forall|i: int| 0 <= i < field.len() implies field[i] != ':' by {
        assert(field[i] == fingerprint[7 + i]);
    }
    assert(fingerprint[6] == start[6]);
    assert("SHA256:"@[6] == ':');
    assert(fingerprint == head + seq![':'] + field);
    law_label_shows_the_digest(algorithm, head, field, Seq::empty());
    let l = label(algorithm, fingerprint);
    let front = short_algorithm(algorithm) + "-SHA256_"@;
    assert(l.take(l.len() - 8) == l.subrange(0, front.len() as int));
}

/// Two keys get the same label exactly if their short algorithms are the same
/// and so are the first eight characters of their digests, once `/`, `+` and `=`
/// count as underscores.
pub proof fn law_labels_tell_keys_apart(
    algorithm1: Seq<char>,
    fingerprint1: Seq<char>,
    algorithm2: Seq<char>,
    fingerprint2: Seq<char>,
)
    requires
        is_sha256_text(fingerprint1),
        is_sha256_text(fingerprint2),
    ensures
        label(algorithm1, fingerprint1) == label(algorithm2, fingerprint2) <==> {
            &&& short_algorithm(algorithm1) == short_algorithm(algorithm2)
            &&& forall|i: int|
                7 <= i < 15 ==> {
                    let c = #[trigger] fingerprint1[i];
                    let d = fingerprint2[i];
                    ||| c == d
                    ||| (c == '/' || c == '+' || c == '=' || c == '_') && (d == '/' || d == '+'
                        || d == '=' || d == '_')
                }
        },
{
    law_label_ends_in_the_digest(algorithm1, fingerprint1);
    law_label_ends_in_the_digest(algorithm2, fingerprint2);
    let l = label(algorithm1, fingerprint1);
    let m = label(algorithm2, fingerprint2);
    let a = short_algorithm(algorithm1);
    let b = short_algorithm(algorithm2);
    let tag = "-SHA256_"@;
    assert((a + tag).take((a + tag).len() - tag.len()) == a);
    assert((b + tag).take((b + tag).len() - tag.len()) == b);
    if l == m {
        assert forall|i: int| 7 <= i < 15 implies clean_digest_char(#[trigger] fingerprint1[i])
            == clean_digest_char(fingerprint2[i]) by {
            assert(fingerprint1[7 + (i - 7)] == fingerprint1[i]);
            assert(fingerprint2[7 + (i - 7)] == fingerprint2[i]);
            assert(l[l.len() - 8 + (i - 7)] == m[m.len() - 8 + (i - 7)]);
        }
    }
    if a == b && forall|i: int|
        7 <= i < 15 ==> clean_digest_char(#[trigger] fingerprint1[i]) == clean_digest_char(
            fingerprint2[i],
        ) {
        assert(l.take(l.len() - 8) == m.take(m.len() - 8));
        assert(l.len() == m.len()) by {
            assert(l.take(l.len() - 8).len() == l.len() - 8);
            assert(m.take(m.len() - 8).len() == m.len() - 8);
        }
        assert forall|i: int| 0 <= i < l.len() implies l[i] == m[i] by {
            if i < l.len() - 8 {
                assert(l.take(l.len() - 8)[i] == l[i]);
                assert(m.take(m.len() - 8)[i] == m[i]);
            } else {
                let j = i - (l.len() - 8);
                assert(fingerprint1[7 + j] == fingerprint1[j + 7]);
                assert(l[l.len() - 8 + j] == clean_digest_char(fingerprint1[7 + j]));
                assert(m[m.len() - 8 + j] == clean_digest_char(fingerprint2[7 + j]));
            }
        }
        assert(l == m);
    }
}

/// The name of a key's file begins with the whole name that the key asks for and
/// ends in `.pub`. Between the two stands nothing if no earlier key asked for
/// the name; otherwise an underscore and, in decimal, how many did.
pub proof fn law_file_name_form(base: Seq<char>, count: nat)
    ensures
        base.is_prefix_of(file_name_of(base, count)),
        ".pub"@.is_suffix_of(file_name_of(base, count)),
        count == 0 ==> file_name_of(base, count).len() == base.len() + 4,
        count > 0 ==> {
            let name = file_name_of(base, count);
            let number = name.subrange(base.len() as int + 1, name.len() - 4);
            &&& name.len() > base.len() + 5
            &&& name[base.len() as int] == '_'
            &&& text::number_of(number) == count
            &&& number[0] != '0'
            &&& forall|i: int| 0 <= i < number.len() ==> '0' <= #[trigger] number[i] <= '9'
        },
{
    reveal_strlit(".pub");
    reveal_strlit("_");
    text::law_decimal_reads_back(count);
    let name = file_name_of(base, count);
    assert(base == name.subrange(0, base.len() as int));
    assert(".pub"@ == name.subrange(name.len() - 4, name.len() as int));
    if count > 0 {
        let digits = text::decimal(count);
        assert(name.subrange(base.len() as int + 1, name.len() - 4) == digits);
        if digits.len() == 1 && digits[0] == '0' {
            assert(digits.drop_last() == Seq::<char>::empty());
            assert(text::number_of(digits.drop_last()) == 0);
        }
    }
}

} // verus!
