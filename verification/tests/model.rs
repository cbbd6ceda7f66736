use repassync::hasher::compute_id;
use repassync::hexfmt::to_hex;
use repassync::model::{Entry, Vault};

#[test]
fn to_hex_exact() {
    assert_eq!(to_hex(&[]), "");
    assert_eq!(to_hex(&[0xde, 0xad, 0x01, 0x00]), "dead0100");
}

#[test]
fn compute_id_exact() {
    // SHA-256 of the concatenation "a" "b" "c" "d", no parent.
    let id = compute_id("a", "b", "c", "d", None).expect("digest");
    assert_eq!(
        id,
        "88d4266fd4e6338d13b845fcf289579d209c897823b9217da3e161936f031589"
    );
}

#[test]
fn compute_id_covers_parent() {
    let without = compute_id("a", "b", "c", "d", None).expect("digest");
    let with = compute_id("a", "b", "c", "d", Some("e")).expect("digest");
    assert_ne!(without, with);
    assert_eq!(with, compute_id("a", "b", "c", "de", None).expect("digest"));
}

#[test]
fn password_change_updates_entry() {
    let mut vault = Vault::new("alice".to_string());
    let mut entry = vault
        .add_entry("email".to_string(), "p@ss1".to_string())
        .expect("add");
    entry
        .add_password_change("alice", "p@ss2")
        .expect("change");
    assert_eq!(entry.secret, "p@ss2");
    assert_eq!(entry.history.len(), 1);
    assert_eq!(entry.history[0].previous_secret, "p@ss1");
    assert_eq!(entry.history[0].parent_id, None);
    assert_eq!(entry.history[0].author, "alice");
    assert_eq!(entry.last_modified_at, entry.history[0].changed_at);
}

#[test]
fn password_change_id_matches_recomputation() {
    let mut entry = Entry::new_at("email".to_string(), "p@ss1".to_string(), 0);
    entry
        .add_password_change_at("alice", "p@ss2", 0)
        .expect("change");
    // The record hashes author, both secrets and the RFC 3339 rendering of
    // the epoch: 1970-01-01T00:00:00+00:00.
    assert_eq!(
        entry.history[0].id,
        "a8434ffe273663ed386e46abb61fa54a8fefbf32897d29f87ff23d86bde45aff"
    );
    let recomputed = compute_id("alice", "p@ss1", "p@ss2", "1970-01-01T00:00:00+00:00", None)
        .expect("digest");
    assert_eq!(entry.history[0].id, recomputed);
}

#[test]
fn history_chains_and_verifies() {
    let mut entry = Entry::new_at("email".to_string(), "one".to_string(), 10);
    entry.add_password_change_at("alice", "two", 20).expect("change");
    entry.add_password_change_at("bob", "three", 30).expect("change");
    assert_eq!(entry.secret, "three");
    assert_eq!(entry.history.len(), 2);
    // Most-recent-first; each record names the next-older one as parent.
    assert_eq!(entry.history[0].author, "bob");
    assert_eq!(entry.history[0].previous_secret, "two");
    assert_eq!(
        entry.history[0].parent_id.as_deref(),
        Some(entry.history[1].id.as_str())
    );
    assert_eq!(entry.history[1].parent_id, None);
    assert_eq!(entry.last_modified_at, 30);
    assert!(entry.verify_history().expect("digest"));
}

#[test]
fn tampered_history_is_detected() {
    let mut entry = Entry::new_at("email".to_string(), "one".to_string(), 10);
    entry.add_password_change_at("alice", "two", 20).expect("change");
    entry.add_password_change_at("bob", "three", 30).expect("change");

    let mut tampered = entry.clone();
    tampered.history[1].previous_secret = "forged".to_string();
    assert!(!tampered.verify_history().expect("digest"));

    let mut relinked = entry.clone();
    relinked.history[0].parent_id = None;
    assert!(!relinked.verify_history().expect("digest"));
}

#[test]
fn add_entry_and_lookup() {
    let mut vault = Vault::new("alice".to_string());
    assert!(vault.is_empty());
    assert!(!vault.has_entry(&"email".to_string()));
    vault
        .add_entry("email".to_string(), "s1".to_string())
        .expect("add");
    assert!(!vault.is_empty());
    assert!(vault.has_entry(&"email".to_string()));
    assert!(!vault.has_entry(&"Email".to_string()));
    let e = vault.get_entry(&"email".to_string()).expect("present");
    assert_eq!(e.secret, "s1");
    assert_eq!(vault.entries().len(), 1);
}

#[test]
fn add_entry_replaces_same_name() {
    let mut vault = Vault::new("alice".to_string());
    vault.add_entry("email".to_string(), "s1".to_string()).expect("add");
    vault.add_entry("other".to_string(), "s2".to_string()).expect("add");
    vault.add_entry("email".to_string(), "s3".to_string()).expect("add");
    assert_eq!(vault.entries().len(), 2);
    let e = vault.get_entry(&"email".to_string()).expect("present");
    assert_eq!(e.secret, "s3");
}

#[test]
fn vault_change_password_rotates_in_place() {
    let mut vault = Vault::new("alice".to_string());
    vault.add_entry("email".to_string(), "s1".to_string()).expect("add");
    let rotated = vault
        .change_password(&"email".to_string(), "alice", "s2")
        .expect("rotate");
    assert!(rotated);
    let e = vault.get_entry(&"email".to_string()).expect("present");
    assert_eq!(e.secret, "s2");
    assert_eq!(e.history.len(), 1);
    assert_eq!(e.history[0].previous_secret, "s1");
    let missing = vault
        .change_password(&"absent".to_string(), "alice", "x")
        .expect("rotate");
    assert!(!missing);
}

#[test]
fn duplicate_copies_all_fields() {
    let mut entry = Entry::new_at("email".to_string(), "one".to_string(), 10);
    entry.comment = Some("work account".to_string());
    entry.tags.push("mail".to_string());
    entry.add_password_change_at("alice", "two", 20).expect("change");
    let copy = entry.duplicate();
    assert_eq!(copy, entry);
}

#[test]
fn fresh_entry_has_no_history() {
    let entry = Entry::new_at("n".to_string(), "s".to_string(), 7);
    assert_eq!(entry.created_at, 7);
    assert_eq!(entry.last_modified_at, 7);
    assert!(entry.history.is_empty());
    assert!(entry.tags.is_empty());
    assert_eq!(entry.comment, None);
    assert_eq!(entry.user_hint, None);
    assert_eq!(entry.uri, None);
    assert!(entry.verify_history().expect("digest"));
}

#[test]
fn entry_new_uses_clock() {
    let entry = Entry::new("site".to_string(), "secret".to_string()).expect("clock");
    assert_eq!(entry.name, "site");
    assert_eq!(entry.secret, "secret");
    assert_eq!(entry.last_modified_at, entry.created_at);
    // A reasonable clock reads well after 2020-01-01.
    assert!(entry.created_at > 1_577_836_800);
    assert!(entry.history.is_empty());
}

#[test]
fn vault_histories_verify_and_tampering_is_found() {
    let mut vault = Vault::new("alice".to_string());
    vault.add_entry("a".to_string(), "1".to_string()).expect("add");
    vault.add_entry("b".to_string(), "2".to_string()).expect("add");
    vault.change_password(&"b".to_string(), "alice", "3").expect("rotate");
    assert!(vault.verify_histories().expect("digest"));

    let mut forged = vault.get_entry(&"b".to_string()).unwrap().clone();
    forged.history[0].previous_secret = "forged".to_string();
    vault.put_entry(forged);
    assert!(!vault.verify_histories().expect("digest"));
}
