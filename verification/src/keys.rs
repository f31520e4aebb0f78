//! What the agent says of a key, and what a file shows of it.

use vstd::prelude::*;

use crate::names;
use crate::names::{label_from_text, sanitize_name};
use crate::text;

verus! {

/// A key as the agent lists it: the key in SSH's binary encoding, and the
/// comment that the agent holds for it.
pub enum Identity {
    /// A bare public key.
    PublicKey { blob: Vec<u8>, comment: String },
    /// A public key with a certificate.
    Certificate { blob: Vec<u8>, comment: String },
}

/// A listed key, as a mathematical value.
pub enum IdentityView {
    PublicKey { blob: Seq<u8>, comment: Seq<char> },
    Certificate { blob: Seq<u8>, comment: Seq<char> },
}

impl View for Identity {
    type V = IdentityView;

    open spec fn view(&self) -> IdentityView {
        match self {
            Identity::PublicKey { blob, comment } => IdentityView::PublicKey {
                blob: blob@,
                comment: comment@,
            },
            Identity::Certificate { blob, comment } => IdentityView::Certificate {
                blob: blob@,
                comment: comment@,
            },
        }
    }
}

/// The digest of a fingerprint, or the message that stands in for it.
pub open spec fn result_digest(r: Result<[u8; 32], String>) -> Result<Seq<u8>, Seq<char>> {
    match r {
        Ok(digest) => Ok(digest@),
        Err(e) => Err(e@),
    }
}

/// Whether `c` can stand in Base64 with padding.
pub open spec fn is_padded_base64_char(c: char) -> bool {
    names::is_base64_char(c) || c == '='
}

/// The last part of an OpenSSH key line: a space and the comment, or nothing if
/// the comment is empty.
pub open spec fn comment_part(comment: Seq<char>) -> Seq<char> {
    if comment.len() == 0 {
        Seq::empty()
    } else {
        " "@ + comment
    }
}

/// Whether `line` consists of `kind`, a space, some Base64, and the comment.
pub open spec fn is_key_line(line: Seq<char>, kind: Seq<char>, comment: Seq<char>) -> bool {
    exists|data: Seq<char>| #[trigger]
        is_base64_text(data) && line == kind + " "@ + data + comment_part(comment)
}

/// Whether `line` consists of some kind of certificate, a space, some Base64,
/// and the comment. Of a comment that ends in white space nothing is said.
pub open spec fn is_certificate_line(line: Seq<char>, comment: Seq<char>) -> bool {
    comment.len() == 0 || !names::is_white_space(comment.last()) ==> exists|
        kind: Seq<char>,
    | #[trigger]
        is_key_line(line, kind, comment)
}

/// Whether `data` is not empty and made of Base64 characters only.
pub open spec fn is_base64_text(data: Seq<char>) -> bool {
    data.len() > 0 && forall|i: int|
        0 <= i < data.len() ==> is_padded_base64_char(#[trigger] data[i])
}

/// The name of the algorithm of the public key that `blob` encodes.
pub uninterp spec fn public_key_algorithm(blob: Seq<u8>) -> Result<Seq<char>, Seq<char>>;

/// `ssh_key::PublicKey::algorithm`, by name, of the key that `blob` encodes; or
/// what is wrong with `blob` if it encodes none. The name depends on `blob`
/// alone.
#[verifier::external_body]
fn read_public_key_algorithm(blob: &[u8]) -> (r: Result<String, String>)
    ensures
        text::result_text(r) == public_key_algorithm(blob@),
{
    ssh_key::PublicKey::from_bytes(blob).map(|key| key.algorithm().as_str().to_string()).map_err(
        |e| e.to_string(),
    )
}

/// The SHA-256 fingerprint of the public key that `blob` encodes.
pub uninterp spec fn public_key_digest(blob: Seq<u8>) -> Result<Seq<u8>, Seq<char>>;

/// `ssh_key::PublicKey::fingerprint`, with SHA-256, of the key that `blob`
/// encodes; or what is wrong with `blob` if it encodes none. The fingerprint
/// depends on `blob` alone.
#[verifier::external_body]
fn read_public_key_digest(blob: &[u8]) -> (r: Result<[u8; 32], String>)
    ensures
        result_digest(r) == public_key_digest(blob@),
{
    ssh_key::PublicKey::from_bytes(blob).map(
        |key| key.fingerprint(ssh_key::HashAlg::Sha256).sha256().expect("a SHA-256 fingerprint"),
    ).map_err(|e| e.to_string())
}

/// The OpenSSH line of the public key that `blob` encodes, with a comment.
pub uninterp spec fn public_key_line(blob: Seq<u8>, comment: Seq<char>) -> Result<
    Seq<char>,
    Seq<char>,
>;

/// `ssh_key::PublicKey::to_openssh` of the key that `blob` encodes, with
/// `comment` as its comment; or why there is no such line. The line depends on
/// `blob` and `comment` alone. It consists of the name of the key's algorithm,
/// the key in Base64, and the comment if it is not empty.
#[verifier::external_body]
fn write_public_key_line(blob: &[u8], comment: &str) -> (r: Result<String, String>)
    ensures
        text::result_text(r) == public_key_line(blob@, comment@),
        r matches Ok(line) ==> {
            &&& public_key_algorithm(blob@) matches Ok(algorithm)
            &&& is_key_line(line@, algorithm, comment@)
        },
{
    ssh_key::PublicKey::from_bytes(blob).and_then(
        |key| ssh_key::PublicKey::new(key.key_data().clone(), comment).to_openssh(),
    ).map_err(|e| e.to_string())
}

/// The name of the algorithm of the key in the certificate that `blob` encodes.
pub uninterp spec fn certificate_algorithm(blob: Seq<u8>) -> Result<Seq<char>, Seq<char>>;

/// `ssh_key::Certificate::algorithm`, by name, of the certificate that `blob`
/// encodes; or what is wrong with `blob` if it encodes none. The name depends
/// on `blob` alone.
#[verifier::external_body]
fn read_certificate_algorithm(blob: &[u8]) -> (r: Result<String, String>)
    ensures
        text::result_text(r) == certificate_algorithm(blob@),
{
    ssh_key::Certificate::from_bytes(blob).map(
        |cert| cert.algorithm().as_str().to_string(),
    ).map_err(|e| e.to_string())
}

/// The SHA-256 fingerprint of the key in the certificate that `blob` encodes.
pub uninterp spec fn certificate_digest(blob: Seq<u8>) -> Result<Seq<u8>, Seq<char>>;

/// `ssh_key::public::KeyData::fingerprint`, with SHA-256, of the key in the
/// certificate that `blob` encodes; or what is wrong with `blob` if it encodes
/// no certificate. The fingerprint depends on `blob` alone.
#[verifier::external_body]
fn read_certificate_digest(blob: &[u8]) -> (r: Result<[u8; 32], String>)
    ensures
        result_digest(r) == certificate_digest(blob@),
{
    ssh_key::Certificate::from_bytes(blob).map(
        |cert|
            cert.public_key().fingerprint(ssh_key::HashAlg::Sha256).sha256().expect(
                "a SHA-256 fingerprint",
            ),
    ).map_err(|e| e.to_string())
}

/// Whether an algorithm's name has nothing before its `@`. A certificate type
/// such as `-cert-v01@example.com` stands for an algorithm so named.
pub open spec fn is_nameless(algorithm: Seq<char>) -> bool {
    algorithm.len() > 0 && algorithm[0] == '@'
}

/// The OpenSSH line of the certificate that `blob` encodes, with a comment.
pub uninterp spec fn certificate_line(blob: Seq<u8>, comment: Seq<char>) -> Result<
    Seq<char>,
    Seq<char>,
>;

/// `ssh_key::Certificate::to_openssh` of the certificate that `blob` encodes,
/// with `comment` as its comment; or why there is no such line. A certificate
/// takes its comment from the line that it is read from, which drops white
/// space at the comment's end. The line depends on `blob` and `comment` alone.
/// If no white space was dropped, it consists of the name of a certificate
/// type, the certificate in Base64, and the comment if it is not empty. The
/// call panics on a certificate whose algorithm is nameless, so that is left
/// out.
#[verifier::external_body]
fn write_certificate_line(blob: &[u8], comment: &str) -> (r: Result<String, String>)
    requires
        certificate_algorithm(blob@) matches Ok(algorithm) ==> !is_nameless(algorithm),
    ensures
        text::result_text(r) == certificate_line(blob@, comment@),
        r matches Ok(line) ==> is_certificate_line(line@, comment@),
{
    ssh_key::Certificate::from_bytes(blob).and_then(|cert| cert.to_openssh()).and_then(
        |line| ssh_key::Certificate::from_openssh(&format!("{line} {comment}")),
    ).and_then(|cert| cert.to_openssh()).map_err(|e| e.to_string())
}

/// The outward form of the SHA-256 fingerprint with the given digest.
pub uninterp spec fn fingerprint_text(digest: Seq<u8>) -> Seq<char>;

/// The `Display` form of `ssh_key::Fingerprint::Sha256`: `SHA256:` and the
/// digest in Base64 without padding. It depends on the digest alone.
#[verifier::external_body]
fn write_fingerprint(digest: &[u8; 32]) -> (s: String)
    ensures
        s@ == fingerprint_text(digest@),
        names::is_sha256_text(s@),
{
    ssh_key::Fingerprint::Sha256(*digest).to_string()
}

/// The label of a key with the given algorithm and SHA-256 fingerprint. It
/// depends on nothing else, so a key without a usable comment always gets the
/// same name.
pub fn fingerprint_label(algorithm: &str, digest: &[u8; 32]) -> (s: String)
    ensures
        s@ == names::label(algorithm@, fingerprint_text(digest@)),
        names::is_sha256_text(fingerprint_text(digest@)),
{
    let fingerprint: String = write_fingerprint(digest);
    label_from_text(algorithm, fingerprint.as_str())
}

/// What a listed key amounts to: the name that it asks for, and the line that
/// its file shows, or why there is none.
pub struct KeyRecord {
    pub base: String,
    pub line: Result<String, String>,
}

/// A key record, as a mathematical value.
pub struct RecordView {
    pub base: Seq<char>,
    pub line: Result<Seq<char>, Seq<char>>,
}

impl View for KeyRecord {
    type V = RecordView;

    open spec fn view(&self) -> RecordView {
        RecordView { base: self.base@, line: text::result_text(self.line) }
    }
}

/// The name that a key with the given comment asks for.
pub open spec fn base_name(comment: Seq<char>, fallback: Seq<char>) -> Seq<char> {
    match names::sanitized(comment) {
        Some(name) => name,
        None => fallback,
    }
}

/// The record of a key with the given comment, label and line.
pub fn key_record(comment: &str, fallback: String, line: Result<String, String>) -> (r: KeyRecord)
    ensures
        r@ == (RecordView {
            base: base_name(comment@, fallback@),
            line: text::result_text(line),
        }),
{
    let base: String = match sanitize_name(comment) {
        Some(name) => name,
        None => fallback,
    };
    KeyRecord { base, line }
}

/// The record of a key, given what could be read of it: nothing if its blob
/// could not be read.
pub open spec fn record_from(
    comment: Seq<char>,
    algorithm: Result<Seq<char>, Seq<char>>,
    digest: Result<Seq<u8>, Seq<char>>,
    line: Result<Seq<char>, Seq<char>>,
) -> Result<RecordView, Seq<char>> {
    match (algorithm, digest) {
        (Err(e), _) => Err(e),
        (Ok(_), Err(e)) => Err(e),
        (Ok(algorithm), Ok(digest)) => Ok(
            RecordView {
                base: base_name(comment, names::label(algorithm, fingerprint_text(digest))),
                line,
            },
        ),
    }
}

/// Why a certificate of a nameless type is refused.
pub const NAMELESS: &'static str = "certificate type without a name";

/// The name of the algorithm of a certificate's key, with a nameless one
/// refused.
pub open spec fn named(algorithm: Result<Seq<char>, Seq<char>>) -> Result<Seq<char>, Seq<char>> {
    match algorithm {
        Ok(algorithm) => if is_nameless(algorithm) {
            Err(NAMELESS@)
        } else {
            Ok(algorithm)
        },
        Err(e) => Err(e),
    }
}

/// The record of a listed key, or why it cannot be read.
pub open spec fn record_of(identity: IdentityView) -> Result<RecordView, Seq<char>> {
    match identity {
        IdentityView::PublicKey { blob, comment } => record_from(
            comment,
            public_key_algorithm(blob),
            public_key_digest(blob),
            public_key_line(blob, comment),
        ),
        IdentityView::Certificate { blob, comment } => record_from(
            comment,
            named(certificate_algorithm(blob)),
            certificate_digest(blob),
            certificate_line(blob, comment),
        ),
    }
}

/// Whether the name that a listed key asks for can stand as a file's name. If
/// it stems from the key's comment it can; if it stems from the key's algorithm
/// and fingerprint it can if the algorithm's name can.
pub open spec fn is_named_safely(
    comment: Seq<char>,
    algorithm: Result<Seq<char>, Seq<char>>,
    record: RecordView,
) -> bool {
    names::sanitized(comment) is Some || (algorithm matches Ok(name) && names::is_component_text(
        name,
    )) ==> names::is_component_text(record.base)
}

/// Whether `record` is that of a listed key, asks for a safe name, and shows a
/// line of the form that `ssh-add -L` prints: the kind of key, the key in
/// Base64, and the comment.
pub open spec fn is_described(identity: IdentityView, record: RecordView) -> bool {
    &&& record_of(identity) == Ok::<RecordView, Seq<char>>(record)
    &&& match identity {
        IdentityView::PublicKey { blob, comment } => {
            &&& is_named_safely(comment, public_key_algorithm(blob), record)
            &&& record.line matches Ok(line) ==> {
                &&& public_key_algorithm(blob) matches Ok(algorithm)
                &&& is_key_line(line, algorithm, comment)
            }
        },
        IdentityView::Certificate { blob, comment } => {
            &&& is_named_safely(comment, certificate_algorithm(blob), record)
            &&& record.line matches Ok(line) ==> is_certificate_line(line, comment)
        },
    }
}

proof fn lemma_named_safely(
    comment: Seq<char>,
    algorithm: Seq<char>,
    fingerprint: Seq<char>,
    record: RecordView,
)
    requires
        names::is_sha256_text(fingerprint),
        record.base == base_name(comment, names::label(algorithm, fingerprint)),
    ensures
        is_named_safely(comment, Ok(algorithm), record),
{
    if names::sanitized(comment) is Some {
        names::law_sanitized_name_is_safe(comment);
        let base = record.base;
        assert forall|i: int| 0 <= i < base.len() implies names::may_stand_in_name(
            #[trigger] base[i],
        ) by {
            assert(!names::is_unfriendly(names::sanitized(comment)->0[i]));
        }
    } else if names::is_component_text(algorithm) {
        names::law_label_is_component(algorithm, fingerprint);
    }
}

/// The record of a listed key, or why it cannot be read.
pub fn describe(identity: &Identity) -> (r: Result<KeyRecord, String>)
    ensures
        match r {
            Ok(record) => is_described(identity@, record@),
            Err(e) => record_of(identity@) == Err::<RecordView, Seq<char>>(e@),
        },
{
    match identity {
        Identity::PublicKey { blob, comment } => {
            let algorithm: String = match read_public_key_algorithm(blob.as_slice()) {
                Ok(algorithm) => algorithm,
                Err(e) => return Err(e),
            };
            let digest: [u8; 32] = match read_public_key_digest(blob.as_slice()) {
                Ok(digest) => digest,
                Err(e) => return Err(e),
            };
            let fallback: String = fingerprint_label(algorithm.as_str(), &digest);
            let line: Result<String, String> = write_public_key_line(
                blob.as_slice(),
                comment.as_str(),
            );
            let record: KeyRecord = key_record(comment.as_str(), fallback, line);
            proof {
                lemma_named_safely(comment@, algorithm@, fingerprint_text(digest@), record@);
                assert(public_key_algorithm(blob@) == Ok::<Seq<char>, Seq<char>>(algorithm@));
            }
            Ok(record)
        },
        Identity::Certificate { blob, comment } => {
            let algorithm: String = match read_certificate_algorithm(blob.as_slice()) {
                Ok(algorithm) => algorithm,
                Err(e) => return Err(e),
            };
            if algorithm.as_str().unicode_len() > 0 && algorithm.as_str().get_char(0) == '@' {
                return Err(NAMELESS.to_owned());
            }
            let digest: [u8; 32] = match read_certificate_digest(blob.as_slice()) {
                Ok(digest) => digest,
                Err(e) => return Err(e),
            };
            let fallback: String = fingerprint_label(algorithm.as_str(), &digest);
            let line: Result<String, String> = write_certificate_line(
                blob.as_slice(),
                comment.as_str(),
            );
            let record: KeyRecord = key_record(comment.as_str(), fallback, line);
            proof {
                lemma_named_safely(comment@, algorithm@, fingerprint_text(digest@), record@);
                assert(certificate_algorithm(blob@) == Ok::<Seq<char>, Seq<char>>(algorithm@));
            }
            Ok(record)
        },
    }
}

/// The mathematical values of a list of keys.
pub open spec fn identity_views(identities: Seq<Identity>) -> Seq<IdentityView> {
    Seq::new(identities.len(), |i: int| identities[i]@)
}

/// The mathematical values of a list of key records.
pub open spec fn record_views(records: Seq<KeyRecord>) -> Seq<RecordView> {
    Seq::new(records.len(), |i: int| records[i]@)
}

/// The records of the first `k` listed keys, or why the first unreadable one
/// among them cannot be read.
pub open spec fn records_of(identities: Seq<IdentityView>, k: int) -> Result<
    Seq<RecordView>,
    Seq<char>,
>
    decreases k,
{
    if k <= 0 {
        Ok(Seq::empty())
    } else {
        match (records_of(identities, k - 1), record_of(identities[k - 1])) {
            (Err(e), _) => Err(e),
            (Ok(_), Err(e)) => Err(e),
            (Ok(records), Ok(record)) => Ok(records.push(record)),
        }
    }
}

proof fn lemma_unreadable_key_decides(identities: Seq<IdentityView>, i: int, k: int)
    requires
        0 <= i <= k,
        records_of(identities, i) is Err,
    ensures
        records_of(identities, k) == records_of(identities, i),
    decreases k,
{
    if i < k {
        lemma_unreadable_key_decides(identities, i, k - 1);
    }
}

/// Whether `records` are those of the listed keys, one for each, in order.
pub open spec fn are_described(identities: Seq<IdentityView>, records: Seq<RecordView>) -> bool {
    &&& records.len() == identities.len()
    &&& forall|i: int|
        0 <= i < records.len() ==> #[trigger] is_described(identities[i], records[i])
}

/// The records of all listed keys, or why the first unreadable one cannot be
/// read.
pub fn describe_all(identities: &Vec<Identity>) -> (r: Result<Vec<KeyRecord>, String>)
    ensures
        match r {
            Ok(records) => {
                &&& records_of(identity_views(identities@), identities@.len() as int) == Ok::<
                    Seq<RecordView>,
                    Seq<char>,
                >(record_views(records@))
                &&& are_described(identity_views(identities@), record_views(records@))
            },
            Err(e) => records_of(identity_views(identities@), identities@.len() as int) == Err::<
                Seq<RecordView>,
                Seq<char>,
            >(e@),
        },
{
    let ghost views = identity_views(identities@);
    let mut records: Vec<KeyRecord> = Vec::new();
    let mut i: usize = 0;
    assert(record_views(records@) == Seq::<RecordView>::empty());
    while i < identities.len()
        invariant
            i <= identities@.len(),
            views == identity_views(identities@),
            are_described(views.take(i as int), record_views(records@)),
            records_of(views, i as int) == Ok::<Seq<RecordView>, Seq<char>>(
                record_views(records@),
            ),
        decreases identities@.len() - i,
    {
        assert(views[i as int] == identities@[i as int]@);
        match describe(&identities[i]) {
            Ok(record) => {
                let ghost before = records@;
                records.push(record);
                assert(record_views(records@) == record_views(before).push(record@));
                assert(views.take(i + 1) == views.take(i as int).push(views[i as int]));
                assert forall|j: int| 0 <= j < records@.len() implies #[trigger] is_described(
                    views.take(i + 1)[j],
                    record_views(records@)[j],
                ) by {
                    if j < i {
                        assert(is_described(views.take(i as int)[j], record_views(before)[j]));
                    }
                }
            },
            Err(e) => {
                proof {
                    assert(records_of(views, i + 1) == Err::<Seq<RecordView>, Seq<char>>(e@));
                    lemma_unreadable_key_decides(views, i + 1, views.len() as int);
                }
                return Err(e);
            },
        }
        i += 1;
    }
    assert(views.take(views.len() as int) == views);
    Ok(records)
}

/// Each listed key has one record, in the agent's order.
pub proof fn law_records_follow_listing(identities: Seq<IdentityView>, k: int, i: int)
    requires
        0 <= i < k <= identities.len(),
        records_of(identities, k) is Ok,
    ensures
        records_of(identities, k)->Ok_0.len() == k,
        record_of(identities[i]) == Ok::<RecordView, Seq<char>>(records_of(identities, k)->Ok_0[i]),
    decreases k,
{
    if i < k - 1 {
        law_records_follow_listing(identities, k - 1, i);
    } else if k > 1 {
        law_records_follow_listing(identities, k - 1, 0);
    }
}

/// A key without a usable comment asks for the same name whatever the comment
/// is, whoever lists it and whenever: its name depends on the key alone.
pub proof fn law_uncommented_name_depends_on_key_alone(
    blob: Seq<u8>,
    c1: Seq<char>,
    c2: Seq<char>,
)
    requires
        names::sanitized(c1) is None,
        names::sanitized(c2) is None,
    ensures
        ({
            let r1 = record_of(IdentityView::PublicKey { blob, comment: c1 });
            let r2 = record_of(IdentityView::PublicKey { blob, comment: c2 });
            &&& r1 is Ok <==> r2 is Ok
            &&& r1 is Ok ==> r1->Ok_0.base == r2->Ok_0.base
        }),
        ({
            let r1 = record_of(IdentityView::Certificate { blob, comment: c1 });
            let r2 = record_of(IdentityView::Certificate { blob, comment: c2 });
            &&& r1 is Ok <==> r2 is Ok
            &&& r1 is Ok ==> r1->Ok_0.base == r2->Ok_0.base
        }),
{
}

/// A listed public key has a record exactly if its algorithm and its fingerprint
/// can be read, and then its file shows the OpenSSH line of that very key with
/// that very comment. Otherwise the reason is that of what could not be read.
pub proof fn law_public_key_shows_its_line(blob: Seq<u8>, comment: Seq<char>)
    ensures
        ({
            let r = record_of(IdentityView::PublicKey { blob, comment });
            &&& r is Ok <==> public_key_algorithm(blob) is Ok && public_key_digest(blob) is Ok
            &&& r matches Ok(record) ==> record.line == public_key_line(blob, comment)
            &&& public_key_algorithm(blob) matches Err(e) ==> r == Err::<RecordView, Seq<char>>(e)
            &&& public_key_algorithm(blob) is Ok ==> (public_key_digest(blob) matches Err(e)
                ==> r == Err::<RecordView, Seq<char>>(e))
        }),
{
}

/// A listed certificate has a record exactly if the algorithm of its key has a
/// name before its `@` and can be read, and so can the key's fingerprint. Then
/// its file shows the OpenSSH line of that very certificate with that very
/// comment. Otherwise the reason is that of what could not be read, or that the
/// type has no name.
pub proof fn law_certificate_shows_its_line(blob: Seq<u8>, comment: Seq<char>)
    ensures
        ({
            let r = record_of(IdentityView::Certificate { blob, comment });
            let nameless = certificate_algorithm(blob) matches Ok(name) && name.len() > 0
                && name[0] == '@';
            &&& r is Ok <==> certificate_algorithm(blob) is Ok && !nameless && certificate_digest(
                blob,
            ) is Ok
            &&& r matches Ok(record) ==> record.line == certificate_line(blob, comment)
            &&& certificate_algorithm(blob) matches Err(e) ==> r == Err::<RecordView, Seq<char>>(e)
            &&& nameless ==> r == Err::<RecordView, Seq<char>>("certificate type without a name"@)
            &&& certificate_algorithm(blob) is Ok && !nameless ==> (certificate_digest(
                blob,
            ) matches Err(e) ==> r == Err::<RecordView, Seq<char>>(e))
        }),
{
}

/// A key asks for the name that its comment gives, if there is a character in it
/// that can stand in a name, and otherwise for the label of its algorithm and
/// fingerprint.
pub proof fn law_key_is_named_after_comment_or_fingerprint(blob: Seq<u8>, comment: Seq<char>)
    ensures
        ({
            let usable = exists|i: int|
                0 <= i < comment.len() && !names::is_unfriendly(#[trigger] comment[i])
                    && comment[i] != '_';
            let key = record_of(IdentityView::PublicKey { blob, comment });
            let cert = record_of(IdentityView::Certificate { blob, comment });
            &&& key is Ok && usable ==> names::sanitized(comment) == Some(key->Ok_0.base)
            &&& cert is Ok && usable ==> names::sanitized(comment) == Some(cert->Ok_0.base)
            &&& key is Ok && !usable ==> key->Ok_0.base == names::label(
                public_key_algorithm(blob)->Ok_0,
                fingerprint_text(public_key_digest(blob)->Ok_0),
            )
            &&& cert is Ok && !usable ==> cert->Ok_0.base == names::label(
                certificate_algorithm(blob)->Ok_0,
                fingerprint_text(certificate_digest(blob)->Ok_0),
            )
        }),
{
    names::law_nothing_left(comment);
}

/// A comment with a character that can stand in a name decides on the name
/// alone; without one the comment does not matter.
pub proof fn law_fallback_is_for_unusable_comments(comment: Seq<char>, fallback: Seq<char>)
    ensures
        names::sanitized(comment) is Some ==> names::sanitized(comment) == Some(
            base_name(comment, fallback),
        ),
        names::sanitized(comment) is None ==> base_name(comment, fallback) == fallback,
{
}

/// A listing has records exactly if each of its keys can be read. Otherwise the
/// reason is that of the first key that cannot.
pub proof fn law_first_unreadable_key_decides(identities: Seq<IdentityView>, k: int)
    requires
        0 <= k <= identities.len(),
    ensures
        records_of(identities, k) is Ok <==> forall|i: int|
            0 <= i < k ==> record_of(#[trigger] identities[i]) is Ok,
        forall|i: int|
            0 <= i < k && record_of(#[trigger] identities[i]) is Err && (forall|j: int|
                0 <= j < i ==> record_of(#[trigger] identities[j]) is Ok) ==> records_of(
                identities,
                k,
            ) is Err && records_of(identities, k)->Err_0 == record_of(identities[i])->Err_0,
    decreases k,
{
    if k > 0 {
        law_first_unreadable_key_decides(identities, k - 1);
        assert forall|i: int|
            0 <= i < k && record_of(#[trigger] identities[i]) is Err && (forall|j: int|
                0 <= j < i ==> record_of(#[trigger] identities[j]) is Ok) implies records_of(
            identities,
            k,
        ) is Err && records_of(identities, k)->Err_0 == record_of(identities[i])->Err_0 by {
            if i == k - 1 {
                assert(records_of(identities, k - 1) is Ok);
            }
        }
        if records_of(identities, k) is Ok {
            assert(record_of(identities[k - 1]) is Ok);
        } else if records_of(identities, k - 1) is Ok {
            assert(record_of(identities[k - 1]) is Err);
        }
    }
}

/// A listed key, its record, and lists of them stand for what they hold, each
/// item in its place.
pub proof fn law_keys_stand_for_themselves(
    identities: Seq<Identity>,
    records: Seq<KeyRecord>,
    digest: Result<[u8; 32], String>,
    i: int,
)
    ensures
        identity_views(identities).len() == identities.len(),
        record_views(records).len() == records.len(),
        0 <= i < identities.len() ==> match identities[i] {
            Identity::PublicKey { blob, comment } => identity_views(identities)[i] == (
            IdentityView::PublicKey { blob: blob@, comment: comment@ }),
            Identity::Certificate { blob, comment } => identity_views(identities)[i] == (
            IdentityView::Certificate { blob: blob@, comment: comment@ }),
        },
        0 <= i < records.len() ==> {
            let view = record_views(records)[i];
            &&& view.base == records[i].base@
            &&& records[i].line matches Ok(line) ==> view.line == Ok::<Seq<char>, Seq<char>>(line@)
            &&& records[i].line matches Err(e) ==> view.line == Err::<Seq<char>, Seq<char>>(e@)
        },
        digest matches Ok(bytes) ==> result_digest(digest) == Ok::<Seq<u8>, Seq<char>>(bytes@),
        digest matches Err(e) ==> result_digest(digest) == Err::<Seq<u8>, Seq<char>>(e@),
{
}

} // verus!
