use hat::names::{
    first_nickname, nickname_error, partial, sanitize_filename, temp_name, uploads_dir,
};

#[test]
fn nickname_must_not_be_empty() {
    assert_eq!(nickname_error(""), Some("nickname cannot be empty"));
}

#[test]
fn nickname_has_sixteen_characters_at_most() {
    assert_eq!(nickname_error("abcdefghijklmnop"), None);
    assert_eq!(
        nickname_error("abcdefghijklmnopq"),
        Some("nickname is too long (maximum: 16 characters)")
    );
    // Too long goes before wrong characters.
    assert_eq!(
        nickname_error("#################"),
        Some("nickname is too long (maximum: 16 characters)")
    );
}

#[test]
fn nickname_is_made_of_letters_digits_and_two_signs() {
    assert_eq!(nickname_error("Al_ice-42"), None);
    for name in ["a b", "a#b", "é", "中文", "a.b", " "] {
        assert_eq!(
            nickname_error(name),
            Some("nickname may only contain letters, numbers, '_' and '-'")
        );
    }
}

#[test]
fn first_nickname_is_made_of_the_port() {
    assert_eq!(first_nickname(50123), "user#50123");
    // It cannot be asked for.
    assert!(nickname_error(&first_nickname(1)).is_some());
}

#[test]
fn file_names_are_checked() {
    assert_eq!(sanitize_filename("notes.txt").as_deref(), Some("notes.txt"));
    assert_eq!(sanitize_filename("  a-b_c.d \n").as_deref(), Some("a-b_c.d"));
    for name in ["", "   ", ".", "..", ".hidden", "a/b", "a\\b", "a b", "é", "a\0b", "C:x", "a\tb"] {
        assert_eq!(sanitize_filename(name), None, "{name:?}");
    }
    let longest = "a".repeat(255);
    assert_eq!(sanitize_filename(&longest), Some(longest.clone()));
    assert_eq!(sanitize_filename(&"a".repeat(256)), None);
}

#[test]
fn stored_name_is_stable() {
    let stored = sanitize_filename(" x.tar.gz ").unwrap();
    assert_eq!(sanitize_filename(&stored), Some(stored.clone()));
    assert!(!stored.contains('/') && !stored.contains('\\'));
}

#[test]
fn unfinished_uploads_have_names_of_their_own() {
    assert_eq!(temp_name("notes.txt", 50123), "notes.txt.50123.part");
    assert!(partial(&temp_name("notes.txt", 50123)));
    assert!(!partial("notes.txt"));
    assert!(partial(".part"));
    assert_ne!(temp_name("a", 1), temp_name("a", 2));
    assert_ne!(temp_name("a", 1), temp_name("b", 1));
}

#[test]
fn uploads_go_to_one_directory() {
    assert_eq!(uploads_dir(), "uploads");
}
