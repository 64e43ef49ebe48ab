use ssh_key_sync::auth::{sign_envelope, MessageContext};
use ssh_key_sync::discovery::{DiscoveryEngine, DiscoveryError, DiscoveryEvent};

fn announcement_from(sender: &DiscoveryEngine, address: &str, timestamp: u64, nonce: &str) -> ssh_key_sync::auth::SignedEnvelope {
    sender
        .build_startup_announcement("node-b", address, 2222, "ssh-ed25519 AAAAB3Nza node-b", timestamp, nonce)
        .expect("announcement should be built")
}

#[test]
fn loads_bootstrap_peers_and_sets_trigger() {
    let mut engine = DiscoveryEngine::new("group-a", "secret-token", 60, 120);
    engine.add_bootstrap_peers(&[
        "node-a@10.0.0.2:2222".to_owned(),
        "10.0.0.3:2222".to_owned(),
        "invalid".to_owned(),
    ]);

    assert!(engine.peers().contains_key("node-a"));
    assert!(engine.peers().contains_key("10.0.0.3:2222"));
    assert!(engine.take_sync_trigger());
    assert!(!engine.take_sync_trigger());
}

#[test]
fn accepts_valid_announcement_and_adds_peer() {
    let mut receiver = DiscoveryEngine::new("group-a", "secret-token", 60, 120);
    let sender = DiscoveryEngine::new("group-a", "secret-token", 60, 120);
    let envelope = sender
        .build_startup_announcement(
            "node-b",
            "10.0.0.5",
            2222,
            "ssh-ed25519 AAAAB3Nza node-b",
            1_700_000_000,
            "n-1",
        )
        .expect("announcement should be built");

    let event = receiver
        .process_announcement(&envelope, 1_700_000_010)
        .expect("announcement should process");
    assert_eq!(event, DiscoveryEvent::PeerAdded("node-b".to_owned()));
    assert!(receiver.peers().contains_key("node-b"));
    assert!(receiver.take_sync_trigger());
}

#[test]
fn ignores_announcement_with_wrong_sid_token() {
    let mut receiver = DiscoveryEngine::new("group-a", "secret-token", 60, 120);
    let sender = DiscoveryEngine::new("group-a", "wrong-token", 60, 120);
    let envelope = sender
        .build_startup_announcement(
            "node-b",
            "10.0.0.5",
            2222,
            "ssh-ed25519 AAAAB3Nza node-b",
            1_700_000_000,
            "n-1",
        )
        .expect("announcement should be built");

    let event = receiver
        .process_announcement(&envelope, 1_700_000_010)
        .expect("processing should not fail");
    assert_eq!(event, DiscoveryEvent::Ignored);
    assert!(!receiver.peers().contains_key("node-b"));
    assert!(!receiver.take_sync_trigger());
}

#[test]
fn ignores_announcement_with_other_sid() {
    let mut receiver = DiscoveryEngine::new("group-a", "secret-token", 60, 120);
    let sender = DiscoveryEngine::new("group-b", "secret-token", 60, 120);
    let envelope = sender
        .build_startup_announcement(
            "node-b",
            "10.0.0.5",
            2222,
            "ssh-ed25519 AAAAB3Nza node-b",
            1_700_000_000,
            "n-1",
        )
        .expect("announcement should be built");

    let event = receiver
        .process_announcement(&envelope, 1_700_000_010)
        .expect("processing should not fail");
    assert_eq!(event, DiscoveryEvent::Ignored);
}

#[test]
fn rejects_malformed_payload() {
    let mut receiver = DiscoveryEngine::new("group-a", "secret-token", 60, 120);
    let sender = DiscoveryEngine::new("group-a", "secret-token", 60, 120);
    let mut envelope = sender
        .build_startup_announcement(
            "node-b",
            "10.0.0.5",
            2222,
            "ssh-ed25519 AAAAB3Nza node-b",
            1_700_000_000,
            "n-1",
        )
        .expect("announcement should be built");
    envelope.body = b"sid=group-a\nparticipant_id=node-b\naddress=10.0.0.5\nport=bad\n".to_vec();
    envelope.signature_hex = sign_envelope(
        "group-a",
        "secret-token",
        "node-b",
        envelope.timestamp_secs,
        &envelope.nonce,
        MessageContext::UdpAnnouncement,
        &envelope.body,
    )
    .signature_hex;

    let event = receiver.process_announcement(&envelope, 1_700_000_010);
    assert_eq!(event, Err(DiscoveryError::InvalidAnnouncementPayload));
}

#[test]
fn updates_existing_peer_and_triggers_sync() {
    let mut receiver = DiscoveryEngine::new("group-a", "secret-token", 60, 120);
    let sender = DiscoveryEngine::new("group-a", "secret-token", 60, 120);
    let first = sender
        .build_startup_announcement(
            "node-b",
            "10.0.0.5",
            2222,
            "ssh-ed25519 AAAAB3Nza node-b",
            1_700_000_000,
            "n-1",
        )
        .expect("announcement should be built");
    let second = sender
        .build_startup_announcement(
            "node-b",
            "10.0.0.6",
            2222,
            "ssh-ed25519 AAAAB3Nza node-b",
            1_700_000_001,
            "n-2",
        )
        .expect("announcement should be built");

    assert_eq!(
        receiver.process_announcement(&first, 1_700_000_005).expect("first should process"),
        DiscoveryEvent::PeerAdded("node-b".to_owned())
    );
    assert!(receiver.take_sync_trigger());
    assert_eq!(
        receiver.process_announcement(&second, 1_700_000_006).expect("second should process"),
        DiscoveryEvent::PeerUpdated("node-b".to_owned())
    );
    assert!(receiver.take_sync_trigger());
}

#[test]
fn ignores_replayed_nonce() {
    let mut receiver = DiscoveryEngine::new("group-a", "secret-token", 60, 120);
    let sender = DiscoveryEngine::new("group-a", "secret-token", 60, 120);
    let envelope = sender
        .build_startup_announcement(
            "node-b",
            "10.0.0.5",
            2222,
            "ssh-ed25519 AAAAB3Nza node-b",
            1_700_000_000,
            "n-replay",
        )
        .expect("announcement should be built");

    assert_eq!(
        receiver.process_announcement(&envelope, 1_700_000_005).expect("first should process"),
        DiscoveryEvent::PeerAdded("node-b".to_owned())
    );
    assert_eq!(
        receiver.process_announcement(&envelope, 1_700_000_006).expect("second should process"),
        DiscoveryEvent::Ignored
    );
}

#[test]
fn bootstrap_entries_are_trimmed_and_split_at_the_last_colon() {
    let mut engine = DiscoveryEngine::new("g", "t", 60, 120);
    engine.add_bootstrap_peers(&[
        "  node-a @ host:with:colons : 22 ".to_owned(),
        "".to_owned(),
        ":22".to_owned(),
        "node-x@host:99999".to_owned(),
        "node-y@host:-1".to_owned(),
    ]);
    assert_eq!(engine.peers().len(), 1);
    let peer = engine.peers().get("node-a").expect("peer should be present");
    assert_eq!(peer.address, "host:with:colons");
    assert_eq!(peer.port, 22);
    assert_eq!(peer.public_key, "");
}

#[test]
fn bootstrap_updates_a_known_participant_without_a_new_trigger() {
    let mut engine = DiscoveryEngine::new("g", "t", 60, 120);
    engine.add_bootstrap_peers(&["a@h1:1".to_owned()]);
    assert!(engine.take_sync_trigger());
    engine.add_bootstrap_peers(&["a@h2:2".to_owned()]);
    assert!(!engine.take_sync_trigger());
    assert_eq!(engine.peers().len(), 1);
    let peer = engine.peers().get("a").unwrap();
    assert_eq!(peer.address, "h2");
    assert_eq!(peer.port, 2);
}

#[test]
fn identical_announcement_with_fresh_nonce_is_ignored() {
    let mut receiver = DiscoveryEngine::new("group-a", "secret-token", 60, 120);
    let sender = DiscoveryEngine::new("group-a", "secret-token", 60, 120);
    let first = announcement_from(&sender, "10.0.0.5", 1_700_000_000, "n-1");
    let again = announcement_from(&sender, "10.0.0.5", 1_700_000_001, "n-2");
    assert_eq!(
        receiver.process_announcement(&first, 1_700_000_002).unwrap(),
        DiscoveryEvent::PeerAdded("node-b".to_owned())
    );
    assert!(receiver.take_sync_trigger());
    assert_eq!(receiver.process_announcement(&again, 1_700_000_003).unwrap(), DiscoveryEvent::Ignored);
    assert!(!receiver.take_sync_trigger());
}

#[test]
fn stale_announcement_is_ignored() {
    let mut receiver = DiscoveryEngine::new("group-a", "secret-token", 60, 120);
    let sender = DiscoveryEngine::new("group-a", "secret-token", 60, 120);
    let envelope = announcement_from(&sender, "10.0.0.5", 1_700_000_000, "n-1");
    assert_eq!(receiver.process_announcement(&envelope, 1_700_000_061).unwrap(), DiscoveryEvent::Ignored);
    assert_eq!(receiver.peers().len(), 0);
}

#[test]
fn non_announcement_context_is_ignored() {
    let mut receiver = DiscoveryEngine::new("group-a", "secret-token", 60, 120);
    let envelope = sign_envelope(
        "group-a",
        "secret-token",
        "node-b",
        1_700_000_000,
        "n-1",
        MessageContext::HttpRequest { method: "POST".to_owned(), path: "/x".to_owned() },
        b"sid=group-a\nparticipant_id=node-b\naddress=a\nport=1\npublic_key=ssh-rsa K\n",
    );
    assert_eq!(receiver.process_announcement(&envelope, 1_700_000_000).unwrap(), DiscoveryEvent::Ignored);
}

fn signed_body(body: &[u8]) -> ssh_key_sync::auth::SignedEnvelope {
    sign_envelope("group-a", "secret-token", "node-b", 1_700_000_000, "n", MessageContext::UdpAnnouncement, body)
}

#[test]
fn announcement_with_bad_key_or_missing_fields_is_an_error() {
    let mut receiver = DiscoveryEngine::new("group-a", "secret-token", 60, 120);
    let bad_key = signed_body(b"sid=group-a\nparticipant_id=p\naddress=a\nport=1\npublic_key=nope\n");
    assert_eq!(receiver.process_announcement(&bad_key, 1_700_000_000), Err(DiscoveryError::InvalidPublicKey));

    let mut receiver = DiscoveryEngine::new("group-a", "secret-token", 60, 120);
    let missing = signed_body(b"sid=group-a\nparticipant_id=p\nport=1\npublic_key=ssh-rsa K\n");
    assert_eq!(receiver.process_announcement(&missing, 1_700_000_000), Err(DiscoveryError::InvalidAnnouncementPayload));

    let mut receiver = DiscoveryEngine::new("group-a", "secret-token", 60, 120);
    let blank_id = signed_body(b"sid=group-a\nparticipant_id=  \naddress=a\nport=1\npublic_key=ssh-rsa K\n");
    assert_eq!(receiver.process_announcement(&blank_id, 1_700_000_000), Err(DiscoveryError::InvalidAnnouncementPayload));

    let mut receiver = DiscoveryEngine::new("group-a", "secret-token", 60, 120);
    let no_equals = signed_body(b"sid=group-a\njunk\n");
    assert_eq!(receiver.process_announcement(&no_equals, 1_700_000_000), Err(DiscoveryError::InvalidAnnouncementPayload));

    let mut receiver = DiscoveryEngine::new("group-a", "secret-token", 60, 120);
    let not_utf8 = signed_body(&[0xff, 0xfe]);
    assert_eq!(receiver.process_announcement(&not_utf8, 1_700_000_000), Err(DiscoveryError::InvalidAnnouncementPayload));
}

#[test]
fn payload_fields_are_trimmed_and_last_duplicate_wins() {
    let mut receiver = DiscoveryEngine::new("group-a", "secret-token", 60, 120);
    let envelope = signed_body(
        b"\n sid = group-a \nparticipant_id= p \naddress=first\naddress= second \nport= 7 \npublic_key=  ssh-rsa   K  c \n\n",
    );
    assert_eq!(
        receiver.process_announcement(&envelope, 1_700_000_000).unwrap(),
        DiscoveryEvent::PeerAdded("p".to_owned())
    );
    let peer = receiver.peers().get("p").unwrap();
    assert_eq!(peer.address, "second");
    assert_eq!(peer.port, 7);
    assert_eq!(peer.public_key, "ssh-rsa K c");
}

#[test]
fn startup_announcement_rejects_an_invalid_key() {
    let sender = DiscoveryEngine::new("group-a", "secret-token", 60, 120);
    let result = sender.build_startup_announcement("node-b", "a", 1, "garbage", 1, "n");
    assert_eq!(result, Err(DiscoveryError::InvalidPublicKey));
}

#[test]
fn startup_announcement_body_lists_the_fields() {
    let sender = DiscoveryEngine::new("group-a", "secret-token", 60, 120);
    let envelope = sender
        .build_startup_announcement("node-b", "10.0.0.5", 2222, "  ssh-ed25519  K  c ", 9, "n")
        .unwrap();
    assert_eq!(
        envelope.body,
        b"sid=group-a\nparticipant_id=node-b\naddress=10.0.0.5\nport=2222\npublic_key=ssh-ed25519 K c\n".to_vec()
    );
    assert_eq!(envelope.sid, "group-a");
    assert_eq!(envelope.sender_id, "node-b");
    assert_eq!(envelope.timestamp_secs, 9);
    assert_eq!(envelope.context, MessageContext::UdpAnnouncement);
}
