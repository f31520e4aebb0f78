use ssh_agent_fs::keys::fingerprint_label;
use ssh_agent_fs::names::{file_name, label_from_text, sanitize_name};
use std::str::FromStr;

const KEY: &str =
    "ssh-ed25519 AAAAC3NzaC1lZDI1NTE5AAAAIAcv0iqu0jysOQa1yqNUYZ02NtFL8Aw3GdMr8wMjqOQy";

fn digest_of(pk: &ssh_key::PublicKey) -> [u8; 32] {
    pk.fingerprint(ssh_key::HashAlg::Sha256).sha256().unwrap()
}

#[test]
fn sanitize_passes_through_clean_input() {
    assert_eq!(sanitize_name("work-laptop").as_deref(), Some("work-laptop"));
    assert_eq!(
        sanitize_name("alice@example.com").as_deref(),
        Some("alice@example.com")
    );
}

#[test]
fn sanitize_replaces_path_separators_and_whitespace() {
    assert_eq!(sanitize_name("hello world").as_deref(), Some("hello_world"));
    assert_eq!(sanitize_name("a/b\\c").as_deref(), Some("a_b_c"));
}

#[test]
fn sanitize_returns_none_for_empty_or_garbage_only() {
    assert_eq!(sanitize_name(""), None);
    assert_eq!(sanitize_name("   "), None);
    assert_eq!(sanitize_name("///"), None);
    assert_eq!(sanitize_name("\t\n  "), None);
}

#[test]
fn sanitize_trims_underscores_and_keeps_inner_ones() {
    assert_eq!(sanitize_name("__a__b__").as_deref(), Some("a__b"));
    assert_eq!(sanitize_name(" /a/ ").as_deref(), Some("a"));
    assert_eq!(sanitize_name("___"), None);
    assert_eq!(sanitize_name("\0x\u{7f}y\u{85}z\u{a0}").as_deref(), Some("x_y_z"));
    assert_eq!(sanitize_name("schl\u{fc}ssel\u{3000}1").as_deref(), Some("schl\u{fc}ssel_1"));
}

#[test]
fn sanitize_is_idempotent() {
    for comment in ["a b", "_x_", "/home/me/.ssh/id", "p\u{2028}q"] {
        let once = sanitize_name(comment).unwrap();
        assert_eq!(sanitize_name(&once), Some(once.clone()));
    }
}

#[test]
fn sanitize_treats_every_character_as_unicode_does() {
    // One comment of all characters, between two that are kept.
    let mut comment = String::from("a");
    let mut expected = String::from("a");
    for n in 0..=0x10ffffu32 {
        if let Some(c) = char::from_u32(n) {
            let control = n <= 0x1f || (0x7f..=0x9f).contains(&n);
            let space = matches!(
                n,
                0x09..=0x0d
                    | 0x20
                    | 0x85
                    | 0xa0
                    | 0x1680
                    | 0x2000..=0x200a
                    | 0x2028
                    | 0x2029
                    | 0x202f
                    | 0x205f
                    | 0x3000
            );
            assert_eq!(c.is_control(), control, "{n:x}");
            assert_eq!(c.is_whitespace(), space, "{n:x}");
            let replaced = control || space || c == '/' || c == '\\';
            comment.push(c);
            expected.push(if replaced { '_' } else { c });
        }
    }
    comment.push('b');
    expected.push('b');
    // Not `assert_eq!`, which would print both strings.
    assert!(sanitize_name(&comment) == Some(expected));
}

#[test]
fn fingerprint_label_is_stable_for_known_key() {
    let pk = ssh_key::PublicKey::from_str(KEY).expect("parse known test key");
    let label = fingerprint_label(pk.algorithm().as_str(), &digest_of(&pk));

    assert!(label.starts_with("ed25519-SHA256_"), "got: {label}");
    let suffix = &label["ed25519-SHA256_".len()..];
    assert_eq!(suffix.len(), 8, "suffix should be 8 chars, got {suffix:?}");
    assert!(
        suffix
            .chars()
            .all(|c| c.is_ascii_alphanumeric() || c == '_'),
        "suffix must be filename-safe, got {suffix:?}",
    );

    let label2 = fingerprint_label(pk.algorithm().as_str(), &digest_of(&pk));
    assert_eq!(label, label2);
}

#[test]
fn fingerprint_label_strips_ssh_prefix() {
    let pk = ssh_key::PublicKey::from_str(KEY).unwrap();
    let label = fingerprint_label("ssh-ed25519", &digest_of(&pk));
    assert!(
        label.starts_with("ed25519-"),
        "should strip ssh- prefix, got: {label}"
    );

    let cert_label = fingerprint_label("ssh-ed25519-cert-v01@openssh.com", &digest_of(&pk));
    assert!(
        cert_label.starts_with("ed25519-cert-"),
        "should reduce the cert-algo name, got: {cert_label}"
    );
}

#[test]
fn fingerprint_label_shows_the_start_of_the_digest() {
    let pk = ssh_key::PublicKey::from_str(KEY).unwrap();
    assert_eq!(
        fingerprint_label(pk.algorithm().as_str(), &digest_of(&pk)),
        "ed25519-SHA256_C_9O1TB2"
    );
}

#[test]
fn label_takes_the_second_field_and_cleans_it() {
    assert_eq!(label_from_text("ssh-rsa", "SHA256:a4/+=cdEfgh"), "rsa-SHA256_a4___cdE");
    assert_eq!(label_from_text("ssh-rsa", "SHA256:ab:cd"), "rsa-SHA256_ab");
    assert_eq!(label_from_text("ssh-rsa", "no colon"), "rsa-SHA256_");
    assert_eq!(label_from_text("ssh-rsa", ""), "rsa-SHA256_");
    assert_eq!(label_from_text("ssh-rsa", "SHA256:"), "rsa-SHA256_");
}

#[test]
fn label_shortens_only_whole_prefixes_and_suffixes() {
    assert_eq!(
        label_from_text("ecdsa-sha2-nistp256", "x:y"),
        "ecdsa-sha2-nistp256-SHA256_y"
    );
    assert_eq!(
        label_from_text("ecdsa-sha2-nistp256-cert-v01@openssh.com", "x:y"),
        "ecdsa-sha2-nistp256-cert-SHA256_y"
    );
    assert_eq!(
        label_from_text("my-ssh-key@openssh.com", "x:y"),
        "my-ssh-key@openssh.com-SHA256_y"
    );
    assert_eq!(
        label_from_text("my-ssh-key-cert-v01@openssh.com", "x:y"),
        "my-ssh-key-cert-SHA256_y"
    );
    assert_eq!(label_from_text("ssh-", "x:y"), "-SHA256_y");
    assert_eq!(label_from_text("-cert-v01@openssh.com", "x:y"), "-cert-SHA256_y");
    assert_eq!(label_from_text("ssh", "x:y"), "ssh-SHA256_y");
}

#[test]
fn file_names_are_numbered_from_the_second_on() {
    assert_eq!(file_name("work", 0), "work.pub");
    assert_eq!(file_name("work", 1), "work_1.pub");
    assert_eq!(file_name("work", 10), "work_10.pub");
    assert_eq!(file_name("work", u64::MAX), "work_18446744073709551615.pub");
}

#[test]
fn file_names_clash_only_with_a_numbered_name() {
    assert_eq!(file_name("work_1", 0), file_name("work", 1));
    assert_ne!(file_name("work_1", 1), file_name("work", 1));
    assert_ne!(file_name("work_1", 0), file_name("work", 11));
}
