use ssh_agent_fs::keys::{describe, describe_all, key_record, Identity};
use std::str::FromStr;

const KEY: &str =
    "ssh-ed25519 AAAAC3NzaC1lZDI1NTE5AAAAIAcv0iqu0jysOQa1yqNUYZ02NtFL8Aw3GdMr8wMjqOQy";

const CERT: &str = "ssh-ed25519-cert-v01@openssh.com AAAAIHNzaC1lZDI1NTE5LWNlcnQtdjAxQG9wZW5zc2guY29tAAAAIAYkJPGaYen7NK8MwZwWmNAyRaFNsc86AU9NObU2cM2uAAAAILM+rvN+ot98qgEN796jTiQfZfG1KaT0PtFDJ/XFSqtiAAAAAAAAAAAAAAACAAAAB2VkMjU1MTkAAAAUAAAAEGhvc3QuZXhhbXBsZS5jb20AAAAAYkx3NwAAAAB8DuY3AAAAAAAAAAAAAAAAAAAAMwAAAAtzc2gtZWQyNTUxOQAAACCzPq7zfqLffKoBDe/eo04kH2XxtSmk9D7RQyf1xUqrYgAAAFMAAAALc3NoLWVkMjU1MTkAAABApVXBNiYPlPoa1BYH5G4NP9XtjTMZlm7HO5GdbLSvvAw5Vdob7Ka+23hB7isJKHYtzFGGSKXAqxp/Zi8REbCaAw==";

fn key(comment: &str) -> Identity {
    let pk = ssh_key::PublicKey::from_str(KEY).unwrap();
    Identity::PublicKey { blob: pk.to_bytes().unwrap(), comment: comment.to_string() }
}

fn cert(comment: &str) -> Identity {
    let cert = ssh_key::Certificate::from_str(CERT).unwrap();
    Identity::Certificate { blob: cert.to_bytes().unwrap(), comment: comment.to_string() }
}

fn ssh_string(bytes: &[u8]) -> Vec<u8> {
    let mut out = (bytes.len() as u32).to_be_bytes().to_vec();
    out.extend_from_slice(bytes);
    out
}

#[test]
fn commented_key_is_named_after_its_comment() {
    let record = describe(&key("work laptop")).ok().unwrap();
    assert_eq!(record.base, "work_laptop");
    assert_eq!(record.line, Ok(format!("{KEY} work laptop")));
}

#[test]
fn uncommented_key_is_named_after_its_fingerprint() {
    let record = describe(&key("")).ok().unwrap();
    assert_eq!(record.base, "ed25519-SHA256_C_9O1TB2");
    assert_eq!(record.line, Ok(KEY.to_string()));
    let record = describe(&key(" / ")).ok().unwrap();
    assert_eq!(record.base, "ed25519-SHA256_C_9O1TB2");
}

#[test]
fn certificate_is_shown_with_its_comment() {
    let record = describe(&cert("user@example.com")).ok().unwrap();
    assert_eq!(record.base, "user@example.com");
    assert_eq!(record.line, Ok(format!("{CERT} user@example.com")));
}

#[test]
fn uncommented_certificate_is_named_after_the_fingerprint_of_its_key() {
    let record = describe(&cert("")).ok().unwrap();
    assert_eq!(record.base, "ed25519-SHA256_UCUiLr7P");
    assert_eq!(record.line, Ok(CERT.to_string()));
}

#[test]
fn certificate_with_comment_reads_as_the_parsed_certificate_does() {
    let text = format!("{CERT} two words");
    let parsed = ssh_key::Certificate::from_str(&text).unwrap();
    let identity = Identity::Certificate {
        blob: parsed.to_bytes().unwrap(),
        comment: parsed.comment().to_string(),
    };
    assert_eq!(describe(&identity).ok().unwrap().line, Ok(parsed.to_openssh().unwrap()));
}

#[test]
fn public_key_with_comment_reads_as_the_parsed_key_does() {
    let parsed = ssh_key::PublicKey::from_str(&format!("{KEY} two words")).unwrap();
    let identity = Identity::PublicKey {
        blob: parsed.to_bytes().unwrap(),
        comment: parsed.comment().to_string(),
    };
    assert_eq!(describe(&identity).ok().unwrap().line, Ok(parsed.to_openssh().unwrap()));
}

#[test]
fn unreadable_blobs_are_refused() {
    let bad = Identity::PublicKey { blob: vec![1, 2, 3], comment: "x".to_string() };
    assert_eq!(describe(&bad).err(), ssh_key::PublicKey::from_bytes(&[1, 2, 3]).err().map(|e| e.to_string()));
    let bad = Identity::Certificate { blob: vec![], comment: "x".to_string() };
    assert!(describe(&bad).is_err());
    // A certificate is no public key.
    let blob = ssh_key::Certificate::from_str(CERT).unwrap().to_bytes().unwrap();
    assert!(describe(&Identity::PublicKey { blob, comment: String::new() }).is_err());
}

#[test]
fn certificate_of_a_nameless_type_is_refused() {
    let good = ssh_key::Certificate::from_str(CERT).unwrap().to_bytes().unwrap();
    // The fields after the type and the nonce, the key's own field left out.
    let rest = &good[4 + 32 + 4 + 32 + 4 + 32..];
    let mut blob = ssh_string(b"-cert-v01@example.com");
    blob.extend_from_slice(&ssh_string(&[7; 32]));
    blob.extend_from_slice(&ssh_string(&[8; 32]));
    blob.extend_from_slice(rest);
    let identity = Identity::Certificate { blob, comment: "x".to_string() };
    assert_eq!(describe(&identity).err().as_deref(), Some("certificate type without a name"));
}

#[test]
fn describe_all_keeps_the_order() {
    let records = describe_all(&vec![key("b"), cert("a"), key("c")]).ok().unwrap();
    let bases: Vec<&str> = records.iter().map(|r| r.base.as_str()).collect();
    assert_eq!(bases, ["b", "a", "c"]);
    assert!(describe_all(&vec![]).ok().unwrap().is_empty());
}

#[test]
fn describe_all_reports_the_first_unreadable_key() {
    let bad = |n: u8| Identity::PublicKey { blob: vec![0; n as usize], comment: String::new() };
    let expected = describe(&bad(3)).err().unwrap();
    let all = describe_all(&vec![key("a"), bad(3), Identity::Certificate {
        blob: vec![0, 0, 0, 1, 65, 9],
        comment: String::new(),
    }]);
    assert_eq!(all.err(), Some(expected));
}

#[test]
fn key_record_falls_back_to_the_label() {
    let record = key_record("me", "label".to_string(), Ok("line".to_string()));
    assert_eq!((record.base.as_str(), record.line), ("me", Ok("line".to_string())));
    let record = key_record("//", "label".to_string(), Err("why".to_string()));
    assert_eq!((record.base.as_str(), record.line), ("label", Err("why".to_string())));
}
