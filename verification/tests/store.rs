use repassync::model::Vault;
use repassync::store::{create, locate, save_bytes, unlock, VaultState};
use repassync::VaultError;
use secstr::SecStr;

fn unlock_file(bytes: Vec<u8>, pass: &SecStr) -> Result<Vault, VaultError> {
    match locate(Some(bytes)) {
        VaultState::LockedVault(env) => unlock(&env, pass),
        _ => panic!("expected a locked vault"),
    }
}

#[test]
fn create_save_reload_unlock() {
    // Scenario: a fresh vault for alice survives a save/reload cycle.
    let pass = SecStr::from("correct horse battery staple");
    let vault = create("alice".to_string());
    let bytes = save_bytes(&vault, &pass, 100000).expect("save");
    let reloaded = unlock_file(bytes, &pass).expect("unlock");
    assert_eq!(reloaded.owner, "alice");
    assert_eq!(reloaded.entries().len(), 0);
}

#[test]
fn save_reload_keeps_entries_and_history() {
    let pass = SecStr::from("pw");
    let mut vault = create("owner".to_string());
    vault.add_entry("email".to_string(), "p@ss1".to_string()).expect("add");
    vault.change_password(&"email".to_string(), "owner", "p@ss2").expect("rotate");
    let mut entry = vault.get_entry(&"email".to_string()).unwrap().clone();
    entry.comment = Some("comment ünïcode".to_string());
    entry.tags.push("tag-a".to_string());
    entry.tags.push("tag-b".to_string());
    vault.put_entry(entry);
    let bytes = save_bytes(&vault, &pass, 100000).expect("save");
    let reloaded = unlock_file(bytes, &pass).expect("unlock");
    assert_eq!(reloaded, vault);
    let e = reloaded.get_entry(&"email".to_string()).expect("present");
    assert!(e.verify_history().expect("digest"));
}

#[test]
fn wrong_passphrase_leaves_file_unchanged() {
    // Scenario: a failed unlock neither consumes the envelope nor the bytes.
    let good = SecStr::from("right");
    let bad = SecStr::from("wrong");
    let vault = create("alice".to_string());
    let bytes = save_bytes(&vault, &good, 100000).expect("save");
    let before = bytes.clone();
    let env = match locate(Some(bytes.clone())) {
        VaultState::LockedVault(env) => env,
        _ => panic!("expected a locked vault"),
    };
    match unlock(&env, &bad) {
        // A wrong passphrase almost always fails the padding check; once in
        // roughly 256 attempts the padding validates by chance and the
        // garbage payload fails the structural decode instead.
        Err(VaultError::DecryptionError) | Err(VaultError::StructuralDecodeError) => {}
        r => panic!("expected a rejection, got {:?}", r.map(|_| ())),
    }
    assert_eq!(bytes, before);
    // The same envelope still opens with the right passphrase.
    let v = unlock(&env, &good).expect("unlock");
    assert_eq!(v.owner, "alice");
}

#[test]
fn loading_twice_gives_equal_vaults() {
    let pass = SecStr::from("pw");
    let mut vault = create("owner".to_string());
    vault.add_entry("a".to_string(), "1".to_string()).expect("add");
    vault.add_entry("b".to_string(), "2".to_string()).expect("add");
    let bytes = save_bytes(&vault, &pass, 100000).expect("save");
    let first = unlock_file(bytes.clone(), &pass).expect("unlock");
    let second = unlock_file(bytes, &pass).expect("unlock");
    assert_eq!(first, second);
    assert_eq!(first.entries(), second.entries());
}

#[test]
fn resaving_same_vault_gives_fresh_envelope() {
    let pass = SecStr::from("pw");
    let vault = create("owner".to_string());
    let a = save_bytes(&vault, &pass, 100000).expect("save");
    let b = save_bytes(&vault, &pass, 100000).expect("save");
    assert_ne!(a, b);
}

#[test]
fn missing_file_means_no_vault() {
    assert!(matches!(locate(None), VaultState::NoVaultFile));
}

#[test]
fn unreadable_file_is_an_error_state() {
    assert!(matches!(
        locate(Some(b"not an envelope".to_vec())),
        VaultState::ErrorVault
    ));
}

#[test]
fn garbage_payload_is_a_structural_error() {
    // Seal bytes that are not a vault encoding: decryption succeeds, the
    // structural decode must not.
    let pass = SecStr::from("pw");
    let env = repassync::envelope::Envelope::seal(b"\xff\xff\xff", &pass, 100000).expect("seal");
    match unlock(&env, &pass) {
        Err(VaultError::StructuralDecodeError) => {}
        r => panic!("expected StructuralDecodeError, got {:?}", r.map(|_| ())),
    }
}

#[test]
fn absurd_iteration_count_in_file_is_an_unlock_error() {
    let pass = SecStr::from("pw");
    let vault = create("alice".to_string());
    let bytes = save_bytes(&vault, &pass, 100000).expect("save");
    let mut env = match locate(Some(bytes)) {
        VaultState::LockedVault(env) => env,
        _ => panic!("expected a locked vault"),
    };
    env.iterations = 0x8000_0000;
    let file = repassync::envelope::encode_envelope(&env);
    match locate(Some(file)) {
        VaultState::LockedVault(reread) => match unlock(&reread, &pass) {
            Err(VaultError::DecryptionError) => {}
            r => panic!("expected DecryptionError, got {:?}", r.map(|_| ())),
        },
        _ => panic!("expected a locked vault"),
    }
}

#[test]
fn duplicate_tags_are_a_structural_error() {
    // Tags form a set; a payload carrying the same tag twice must be
    // rejected on decode.
    let pass = SecStr::from("pw");
    let mut vault = create("owner".to_string());
    vault.add_entry("email".to_string(), "s".to_string()).expect("add");
    let mut entry = vault.get_entry(&"email".to_string()).unwrap().clone();
    entry.tags.push("twice".to_string());
    entry.tags.push("twice".to_string());
    let payload = repassync::codec::encode_vault(&Vault {
        owner: "owner".to_string(),
        entries: vec![entry],
    });
    let env = repassync::envelope::Envelope::seal(&payload, &pass, 100000).expect("seal");
    match unlock(&env, &pass) {
        Err(VaultError::StructuralDecodeError) => {}
        r => panic!("expected StructuralDecodeError, got {:?}", r.map(|_| ())),
    }
}
