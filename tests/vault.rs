use base64::Engine;
use amanah::envelope::{check_frame, CipherError, Envelope, ENVELOPE_OVERHEAD};
use amanah::fuzzy::is_close_match;
use amanah::prompts::{confirmation_phrase, confirms_removal, did_you_mean, typed_confirms};
use amanah::store::{PasswordEntry, PasswordManager, StoreError, StoredEntry};

const KEY: [u8; 32] = *b"0123456789abcdef0123456789abcdef";

fn seed(n: u8) -> [u8; 32] {
    [n; 32]
}

fn manager() -> PasswordManager {
    PasswordManager::new(Envelope::new(KEY))
}

fn entry(label: &str, username: &str, password: &str) -> PasswordEntry {
    PasswordEntry {
        label: label.to_string(),
        description: String::new(),
        username: username.to_string(),
        password: password.to_string(),
    }
}

fn labels(entries: &[PasswordEntry]) -> Vec<String> {
    entries.iter().map(|e| e.label.clone()).collect()
}

#[test]
fn wrap_then_unwrap_gives_payload_back() {
    let env = Envelope::new(KEY);
    for payload in [&b""[..], b"p@ss1", b"a longer secret with spaces and \xff bytes"] {
        let sealed = env.wrap(payload, &seed(7)).unwrap();
        assert_eq!(env.unwrap(&sealed).unwrap(), payload.to_vec());
    }
}

#[test]
fn wrap_output_differs_from_payload() {
    let env = Envelope::new(KEY);
    let sealed = env.wrap(b"hunter2", &seed(1)).unwrap();
    assert_ne!(sealed, b"hunter2".to_vec());
    assert_eq!(sealed.len(), 7 + ENVELOPE_OVERHEAD);
    let empty = env.wrap(b"", &seed(1)).unwrap();
    assert_eq!(empty.len(), ENVELOPE_OVERHEAD);
}

#[test]
fn fresh_seeds_give_different_envelopes() {
    let env = Envelope::new(KEY);
    let a = env.wrap(b"same", &seed(1)).unwrap();
    let b = env.wrap(b"same", &seed(2)).unwrap();
    assert_ne!(a, b);
    assert_eq!(env.unwrap(&a).unwrap(), env.unwrap(&b).unwrap());
}

#[test]
fn unwrap_under_another_key_fails() {
    let sealed = Envelope::new(KEY).wrap(b"secret", &seed(3)).unwrap();
    let other = Envelope::new([9u8; 32]);
    assert_eq!(other.unwrap(&sealed), Err(CipherError::Decryption));
}

#[test]
fn unwrap_of_tampered_or_short_container_fails() {
    let env = Envelope::new(KEY);
    let mut sealed = env.wrap(b"secret", &seed(3)).unwrap();
    let last = sealed.len() - 1;
    sealed[last] ^= 1;
    assert_eq!(env.unwrap(&sealed), Err(CipherError::Decryption));
    assert_eq!(env.unwrap(b"short"), Err(CipherError::Decryption));
}

#[test]
fn duplicate_label_is_refused_and_first_entry_kept() {
    let mut m = manager();
    assert_eq!(m.add_entry(&entry("email", "bob", "p@ss1"), &seed(1)), Ok(()));
    assert_eq!(
        m.add_entry(&entry("email", "alice", "other"), &seed(2)),
        Err(StoreError::DuplicateLabel)
    );
    let all = m.get_entries().unwrap();
    assert_eq!(all.len(), 1);
    assert_eq!(all[0].username, "bob");
    assert_eq!(all[0].password, "p@ss1");
}

#[test]
fn labels_are_case_sensitive() {
    let mut m = manager();
    assert_eq!(m.add_entry(&entry("Email", "bob", "x"), &seed(1)), Ok(()));
    assert_eq!(m.add_entry(&entry("email", "bob", "y"), &seed(2)), Ok(()));
    assert_eq!(m.get_entries().unwrap().len(), 2);
}

#[test]
fn remove_twice_is_a_no_op() {
    let mut m = manager();
    m.add_entry(&entry("a", "u", "p"), &seed(1)).unwrap();
    m.add_entry(&entry("b", "u", "q"), &seed(2)).unwrap();
    m.remove_entry("a");
    assert_eq!(labels(&m.get_entries().unwrap()), vec!["b".to_string()]);
    m.remove_entry("a");
    assert_eq!(labels(&m.get_entries().unwrap()), vec!["b".to_string()]);
    m.remove_entry("missing");
    assert_eq!(m.stored_entries().len(), 1);
}

#[test]
fn remove_on_empty_store() {
    let mut m = manager();
    m.remove_entry("anything");
    assert!(m.get_entries().unwrap().is_empty());
}

#[test]
fn fuzzy_threshold() {
    let mut m = manager();
    m.add_entry(&entry("admin", "root", "toor"), &seed(1)).unwrap();
    assert_eq!(labels(&m.search_password("admni")), vec!["admin".to_string()]);
    assert!(m.search_password("xyz").is_empty());
}

#[test]
fn close_match_distances() {
    assert!(is_close_match("admin", "admin"));
    assert!(is_close_match("admin", "admni"));
    assert!(is_close_match("email", "emal"));
    assert!(is_close_match("ab", ""));
    assert!(!is_close_match("abc", ""));
    assert!(!is_close_match("kitten", "sitting"));
    assert!(!is_close_match("admin", "xyz"));
    assert!(!is_close_match("Admin", "aDMIN"));
}

#[test]
fn all_candidates_returned_in_insertion_order() {
    let mut m = manager();
    m.add_entry(&entry("mail", "u1", "secret-m"), &seed(1)).unwrap();
    m.add_entry(&entry("bank", "u2", "secret-b"), &seed(2)).unwrap();
    m.add_entry(&entry("email", "u3", "secret-e"), &seed(3)).unwrap();
    let found = m.find_by_label("mail").unwrap();
    assert_eq!(labels(&found), vec!["mail".to_string(), "email".to_string()]);
    assert_eq!(found[1].password, "secret-e");
}

#[test]
fn list_returns_every_entry_decrypted() {
    let mut m = manager();
    m.add_entry(&entry("a", "ua", "pa"), &seed(1)).unwrap();
    m.add_entry(&entry("b", "ub", "pb"), &seed(2)).unwrap();
    m.add_entry(&entry("c", "uc", "pc"), &seed(3)).unwrap();
    let all = m.get_entries().unwrap();
    assert_eq!(all.len(), 3);
    for (e, (l, u, p)) in all.iter().zip([("a", "ua", "pa"), ("b", "ub", "pb"), ("c", "uc", "pc")]) {
        assert_eq!(e.label, l);
        assert_eq!(e.username, u);
        assert_eq!(e.password, p);
        assert_eq!(e.description, "");
    }
}

#[test]
fn stored_record_holds_sealed_text() {
    let mut m = manager();
    let mut e = entry("site", "me", "plain-password");
    e.description = "ignored".to_string();
    m.add_entry(&e, &seed(1)).unwrap();
    let rec = &m.stored_entries()[0];
    assert_eq!(rec.label, "site");
    assert_eq!(rec.description, "");
    assert_eq!(rec.username, "me");
    assert_ne!(rec.password, "plain-password");
    assert!(rec
        .password
        .chars()
        .all(|c| c.is_ascii_alphanumeric() || c == '+' || c == '/' || c == '='));
    assert_eq!(rec.password.len() % 4, 0);
}

#[test]
fn unicode_password_round_trips() {
    let mut m = manager();
    m.add_entry(&entry("ü", "ø", "pässwörd ✓"), &seed(4)).unwrap();
    let all = m.get_entries().unwrap();
    assert_eq!(all[0].password, "pässwörd ✓");
}

#[test]
fn scenario_add_get_hint_remove() {
    let mut m = manager();
    m.add_entry(&entry("email", "bob", "p@ss1"), &seed(1)).unwrap();
    let found = m.search_password("emal");
    assert_eq!(found.len(), 1);
    assert_eq!(found[0].label, "email");
    assert_eq!(found[0].username, "bob");
    assert_eq!(found[0].password, "p@ss1");
    assert_eq!(did_you_mean("emal", &found[0].label), Some("did you mean: email?".to_string()));
    assert!(confirms_removal("Delete: email.", "email"));
    m.remove_entry("email");
    assert!(m.search_password("email").is_empty());
}

#[test]
fn hint_absent_for_exact_match() {
    assert_eq!(did_you_mean("email", "email"), None);
}

#[test]
fn confirmation_phrase_text() {
    assert_eq!(confirmation_phrase("email"), "Delete: email.");
    assert!(confirms_removal("  Delete: email.\n", "email"));
    assert!(!confirms_removal("delete: email.", "email"));
    assert!(!confirms_removal("Delete: email", "email"));
    assert!(!confirms_removal("Delete: mail.", "email"));
}

#[test]
fn corrupt_base64_is_a_decode_error() {
    let mut m = manager();
    m.add_entry(&entry("good", "u", "p"), &seed(1)).unwrap();
    let bad = StoredEntry {
        label: "bad".to_string(),
        description: String::new(),
        username: "u".to_string(),
        password: "not base64!".to_string(),
    };
    assert_eq!(m.load_entry(bad), Ok(()));
    assert_eq!(m.get_entries().err(), Some(StoreError::Decode));
    assert_eq!(m.find_by_label("good").err(), Some(StoreError::Decode));
    assert!(m.search_password("good").is_empty());
}

#[test]
fn foreign_ciphertext_is_a_decryption_error() {
    let mut other = PasswordManager::new(Envelope::new([5u8; 32]));
    other.add_entry(&entry("x", "u", "p"), &seed(1)).unwrap();
    let rec = &other.stored_entries()[0];
    let copy = StoredEntry {
        label: rec.label.clone(),
        description: rec.description.clone(),
        username: rec.username.clone(),
        password: rec.password.clone(),
    };
    let mut m = manager();
    m.load_entry(copy).unwrap();
    assert_eq!(m.get_entries().err(), Some(StoreError::Decryption));
}

#[test]
fn non_utf8_payload_is_a_decode_error() {
    let env = Envelope::new(KEY);
    let sealed = env.wrap(&[0xff, 0xfe], &seed(1)).unwrap();
    let text = base64::engine::general_purpose::STANDARD.encode(&sealed);
    let mut m = PasswordManager::new(env);
    m.load_entry(StoredEntry {
        label: "raw".to_string(),
        description: String::new(),
        username: "u".to_string(),
        password: text,
    })
    .unwrap();
    assert_eq!(m.get_entries().err(), Some(StoreError::Decode));
}

#[test]
fn load_refuses_duplicate_label() {
    let mut m = manager();
    m.add_entry(&entry("a", "u", "p"), &seed(1)).unwrap();
    let dup = StoredEntry {
        label: "a".to_string(),
        description: String::new(),
        username: "v".to_string(),
        password: String::new(),
    };
    assert_eq!(m.load_entry(dup), Err(StoreError::DuplicateLabel));
    assert_eq!(m.stored_entries().len(), 1);
    assert!(m.has_label("a"));
    assert!(!m.has_label("A"));
}

#[test]
fn typed_phrase_must_match_exactly() {
    assert!(typed_confirms("Delete: email.", "email"));
    assert!(!typed_confirms(" Delete: email.", "email"));
    assert!(!typed_confirms("Delete: emal.", "email"));
}

#[test]
fn unicode_whitespace_is_trimmed() {
    assert!(confirms_removal("\u{3000}\tDelete: a.\u{a0}\r\n", "a"));
    assert!(!confirms_removal("x Delete: a.", "a"));
}

#[test]
fn container_declaring_too_much_payload_is_refused() {
    let env = Envelope::new(KEY);
    let mut huge = vec![0u8; 40];
    for b in &mut huge[12..20] {
        *b = 0xff;
    }
    assert_eq!(env.unwrap(&huge), Err(CipherError::Decryption));
    let mut sealed = env.wrap(b"abc", &seed(2)).unwrap();
    sealed[19] = 4;
    assert_eq!(env.unwrap(&sealed), Err(CipherError::Decryption));
}

#[test]
fn corrupt_length_field_in_store_is_a_decryption_error() {
    let mut container = vec![0u8; 36];
    for b in &mut container[12..20] {
        *b = 0xff;
    }
    let mut m = manager();
    m.load_entry(StoredEntry {
        label: "broken".to_string(),
        description: String::new(),
        username: "u".to_string(),
        password: base64::engine::general_purpose::STANDARD.encode(&container),
    })
    .unwrap();
    assert_eq!(m.get_entries().err(), Some(StoreError::Decryption));
    assert!(m.search_password("broken").is_empty());
}

#[test]
fn frame_check_reads_declared_length() {
    let env = Envelope::new(KEY);
    let sealed = env.wrap(b"abcd", &seed(5)).unwrap();
    assert!(check_frame(&sealed));
    assert_eq!(sealed[19], 4);
    assert!(!check_frame(&sealed[..35]));
    assert!(!check_frame(&sealed[..39]));
}
