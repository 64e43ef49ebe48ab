use ssh_key_sync::authorized_keys::{upsert_managed_block, AuthorizedKeysError};

#[test]
fn appends_new_managed_block_when_absent() {
    let input = "ssh-ed25519 AAAA user@host";
    let managed = vec![
        "ssh-ed25519 BBBB node-b".to_owned(),
        "ssh-ed25519 CCCC node-c".to_owned(),
    ];

    let updated = upsert_managed_block(input, &managed).expect("upsert should succeed");

    assert!(updated.contains("ssh-ed25519 AAAA user@host"));
    assert!(updated.contains("# ssh-key-sync begin"));
    assert!(updated.contains("ssh-ed25519 BBBB node-b"));
    assert!(updated.contains("ssh-ed25519 CCCC node-c"));
    assert!(updated.contains("# ssh-key-sync end"));
}

#[test]
fn replaces_existing_managed_block_only() {
    let input = "\
ssh-ed25519 AAAA user@host
# ssh-key-sync begin
ssh-ed25519 OLD old
# ssh-key-sync end
ssh-ed25519 DDDD manual";
    let managed = vec!["ssh-ed25519 BBBB node-b".to_owned()];

    let updated = upsert_managed_block(input, &managed).expect("upsert should succeed");

    assert!(updated.contains("ssh-ed25519 AAAA user@host"));
    assert!(updated.contains("ssh-ed25519 DDDD manual"));
    assert!(updated.contains("ssh-ed25519 BBBB node-b"));
    assert!(!updated.contains("ssh-ed25519 OLD old"));
}

#[test]
fn rejects_invalid_managed_key() {
    let input = "";
    let managed = vec!["invalid".to_owned()];

    let updated = upsert_managed_block(input, &managed);
    assert_eq!(updated, Err(AuthorizedKeysError::InvalidPublicKey));
}

#[test]
fn rejects_missing_block_end() {
    let input = "\
ssh-ed25519 AAAA user@host
# ssh-key-sync begin
ssh-ed25519 OLD old";
    let managed = vec!["ssh-ed25519 BBBB node-b".to_owned()];

    let updated = upsert_managed_block(input, &managed);
    assert_eq!(updated, Err(AuthorizedKeysError::MissingManagedEnd));
}

#[test]
fn empty_file_gets_only_the_block() {
    let managed = vec!["ssh-ed25519 BBBB node-b".to_owned()];
    let updated = upsert_managed_block("", &managed).unwrap();
    assert_eq!(updated, "# ssh-key-sync begin\nssh-ed25519 BBBB node-b\n# ssh-key-sync end");
}

#[test]
fn block_is_separated_from_manual_lines_by_a_blank_line() {
    let managed = vec!["ssh-ed25519 BBBB node-b".to_owned()];
    let updated = upsert_managed_block("ssh-ed25519 AAAA user@host\n", &managed).unwrap();
    assert_eq!(
        updated,
        "ssh-ed25519 AAAA user@host\n\n# ssh-key-sync begin\nssh-ed25519 BBBB node-b\n# ssh-key-sync end"
    );
}

#[test]
fn managed_keys_are_normalized_and_deduplicated_in_order() {
    let managed = vec![
        "  ssh-ed25519   BBBB   node-b ".to_owned(),
        "ssh-rsa CCCC".to_owned(),
        "ssh-ed25519 BBBB node-b".to_owned(),
    ];
    let updated = upsert_managed_block("", &managed).unwrap();
    assert_eq!(
        updated,
        "# ssh-key-sync begin\nssh-ed25519 BBBB node-b\nssh-rsa CCCC\n# ssh-key-sync end"
    );
}

#[test]
fn replacing_keeps_lines_around_the_block_exactly() {
    let input = "a\n  # ssh-key-sync begin  \nold\n# ssh-key-sync end\nz";
    let managed = vec!["ssh-ed25519 N n".to_owned()];
    let updated = upsert_managed_block(input, &managed).unwrap();
    assert_eq!(updated, "a\n# ssh-key-sync begin\nssh-ed25519 N n\n# ssh-key-sync end\nz");
}

#[test]
fn upsert_twice_gives_the_same_text() {
    let managed = vec!["ssh-ed25519 BBBB node-b".to_owned(), "ssh-rsa C c".to_owned()];
    let once = upsert_managed_block("ssh-ed25519 LOCAL local\r\n", &managed).unwrap();
    let twice = upsert_managed_block(&once, &managed).unwrap();
    assert_eq!(once, twice);
}

#[test]
fn no_keys_gives_an_empty_block() {
    let updated = upsert_managed_block("x", &[]).unwrap();
    assert_eq!(updated, "x\n\n# ssh-key-sync begin\n# ssh-key-sync end");
}

#[test]
fn end_marker_alone_is_not_a_block() {
    let managed = vec!["ssh-ed25519 K k".to_owned()];
    let updated = upsert_managed_block("# ssh-key-sync end", &managed).unwrap();
    assert_eq!(
        updated,
        "# ssh-key-sync end\n\n# ssh-key-sync begin\nssh-ed25519 K k\n# ssh-key-sync end"
    );
}
