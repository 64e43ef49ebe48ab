use ssh_key_sync::auth::{sign_envelope, verify_envelope, AuthError, EnvelopeVerifier, MessageContext};

#[test]
fn signs_and_verifies_envelope() {
    let envelope = sign_envelope(
        "group-a",
        "secret-token",
        "node-1",
        1_781_771_000,
        "nonce-1",
        MessageContext::UdpAnnouncement,
        b"{\"addr\":\"10.0.0.2\"}",
    );

    let result = verify_envelope(&envelope, "secret-token", "group-a");
    assert_eq!(result, Ok(()));
}

#[test]
fn rejects_sid_mismatch() {
    let envelope = sign_envelope(
        "group-a",
        "secret-token",
        "node-1",
        1_781_771_000,
        "nonce-1",
        MessageContext::UdpAnnouncement,
        b"payload",
    );

    let result = verify_envelope(&envelope, "secret-token", "group-b");
    assert_eq!(result, Err(AuthError::SidMismatch));
}

#[test]
fn rejects_tampered_body() {
    let mut envelope = sign_envelope(
        "group-a",
        "secret-token",
        "node-1",
        1_781_771_000,
        "nonce-1",
        MessageContext::UdpAnnouncement,
        b"payload",
    );
    envelope.body = b"modified".to_vec();

    let result = verify_envelope(&envelope, "secret-token", "group-a");
    assert_eq!(result, Err(AuthError::InvalidSignature));
}

#[test]
fn rejects_invalid_signature_encoding() {
    let mut envelope = sign_envelope(
        "group-a",
        "secret-token",
        "node-1",
        1_781_771_000,
        "nonce-1",
        MessageContext::UdpAnnouncement,
        b"payload",
    );
    envelope.signature_hex = "not-hex".to_owned();

    let result = verify_envelope(&envelope, "secret-token", "group-a");
    assert_eq!(result, Err(AuthError::InvalidSignatureEncoding));
}

#[test]
fn canonical_signature_is_stable_for_same_payload() {
    let first = sign_envelope(
        "group-a",
        "secret-token",
        "node-1",
        1_781_771_000,
        "nonce-1",
        MessageContext::HttpRequest {
            method: "POST".to_owned(),
            path: "/v1/keys".to_owned(),
        },
        b"payload",
    );
    let second = sign_envelope(
        "group-a",
        "secret-token",
        "node-1",
        1_781_771_000,
        "nonce-1",
        MessageContext::HttpRequest {
            method: "POST".to_owned(),
            path: "/v1/keys".to_owned(),
        },
        b"payload",
    );

    assert_eq!(first.signature_hex, second.signature_hex);
}

#[test]
fn different_contexts_produce_different_signatures() {
    let request = sign_envelope(
        "group-a",
        "secret-token",
        "node-1",
        1_781_771_000,
        "nonce-1",
        MessageContext::HttpRequest {
            method: "GET".to_owned(),
            path: "/v1/keys".to_owned(),
        },
        b"payload",
    );
    let response = sign_envelope(
        "group-a",
        "secret-token",
        "node-1",
        1_781_771_000,
        "nonce-1",
        MessageContext::HttpResponse {
            status_code: 200,
            path: "/v1/keys".to_owned(),
        },
        b"payload",
    );
    let announcement = sign_envelope(
        "group-a",
        "secret-token",
        "node-1",
        1_781_771_000,
        "nonce-1",
        MessageContext::UdpAnnouncement,
        b"payload",
    );

    assert_ne!(request.signature_hex, response.signature_hex);
    assert_ne!(request.signature_hex, announcement.signature_hex);
    assert_ne!(response.signature_hex, announcement.signature_hex);
}

#[test]
fn verifier_rejects_outside_timestamp_window() {
    let mut verifier = EnvelopeVerifier::new("secret-token", "group-a", 30, 120);
    let envelope = sign_envelope(
        "group-a",
        "secret-token",
        "node-1",
        1_000,
        "nonce-1",
        MessageContext::UdpAnnouncement,
        b"payload",
    );

    let result = verifier.verify(&envelope, 2_000);
    assert_eq!(result, Err(AuthError::TimestampOutsideWindow));
}

#[test]
fn verifier_rejects_replayed_nonce_inside_ttl() {
    let mut verifier = EnvelopeVerifier::new("secret-token", "group-a", 30, 120);
    let envelope = sign_envelope(
        "group-a",
        "secret-token",
        "node-1",
        1_000,
        "nonce-1",
        MessageContext::UdpAnnouncement,
        b"payload",
    );

    let first = verifier.verify(&envelope, 1_005);
    let second = verifier.verify(&envelope, 1_010);

    assert_eq!(first, Ok(()));
    assert_eq!(second, Err(AuthError::ReplayNonce));
}

#[test]
fn verifier_accepts_same_nonce_after_ttl_expiry() {
    let mut verifier = EnvelopeVerifier::new("secret-token", "group-a", 300, 5);
    let envelope = sign_envelope(
        "group-a",
        "secret-token",
        "node-1",
        1_000,
        "nonce-1",
        MessageContext::UdpAnnouncement,
        b"payload",
    );

    let first = verifier.verify(&envelope, 1_002);
    let second = verifier.verify(&envelope, 1_010);

    assert_eq!(first, Ok(()));
    assert_eq!(second, Ok(()));
}

#[test]
fn signature_is_lowercase_hex_of_a_32_byte_tag() {
    let envelope = sign_envelope(
        "group-a",
        "secret-token",
        "node-1",
        1_000,
        "nonce-1",
        MessageContext::UdpAnnouncement,
        b"payload",
    );
    assert_eq!(envelope.signature_hex.len(), 64);
    assert!(envelope
        .signature_hex
        .chars()
        .all(|c| c.is_ascii_digit() || ('a'..='f').contains(&c)));
}

#[test]
fn signature_depends_on_token_and_body() {
    let base = sign_envelope("g", "t1", "n", 5, "x", MessageContext::UdpAnnouncement, b"body");
    let other_token = sign_envelope("g", "t2", "n", 5, "x", MessageContext::UdpAnnouncement, b"body");
    let other_body = sign_envelope("g", "t1", "n", 5, "x", MessageContext::UdpAnnouncement, b"bodz");
    assert_ne!(base.signature_hex, other_token.signature_hex);
    assert_ne!(base.signature_hex, other_body.signature_hex);
}

#[test]
fn wrong_token_is_an_invalid_signature() {
    let envelope = sign_envelope("g", "t1", "n", 5, "x", MessageContext::UdpAnnouncement, b"body");
    assert_eq!(verify_envelope(&envelope, "t2", "g"), Err(AuthError::InvalidSignature));
}

#[test]
fn uppercase_signature_hex_is_accepted() {
    let mut envelope = sign_envelope("g", "t", "n", 5, "x", MessageContext::UdpAnnouncement, b"b");
    envelope.signature_hex = envelope.signature_hex.to_uppercase();
    assert_eq!(verify_envelope(&envelope, "t", "g"), Ok(()));
}

#[test]
fn odd_length_signature_hex_is_an_encoding_error() {
    let mut envelope = sign_envelope("g", "t", "n", 5, "x", MessageContext::UdpAnnouncement, b"b");
    envelope.signature_hex.pop();
    assert_eq!(verify_envelope(&envelope, "t", "g"), Err(AuthError::InvalidSignatureEncoding));
}

#[test]
fn short_valid_hex_signature_is_rejected() {
    let mut envelope = sign_envelope("g", "t", "n", 5, "x", MessageContext::UdpAnnouncement, b"b");
    envelope.signature_hex = "abcd".to_owned();
    assert_eq!(verify_envelope(&envelope, "t", "g"), Err(AuthError::InvalidSignature));
}

#[test]
fn method_case_does_not_change_the_signature() {
    let lower = sign_envelope(
        "g",
        "t",
        "n",
        5,
        "x",
        MessageContext::HttpRequest { method: "post".to_owned(), path: "/p".to_owned() },
        b"b",
    );
    let upper = sign_envelope(
        "g",
        "t",
        "n",
        5,
        "x",
        MessageContext::HttpRequest { method: "POST".to_owned(), path: "/p".to_owned() },
        b"b",
    );
    assert_eq!(lower.signature_hex, upper.signature_hex);
}

#[test]
fn timestamp_window_edges_are_inclusive() {
    let envelope = sign_envelope("g", "t", "n", 1_000, "x", MessageContext::UdpAnnouncement, b"b");
    let mut verifier = EnvelopeVerifier::new("t", "g", 30, 120);
    assert_eq!(verifier.verify(&envelope, 1_030), Ok(()));
    let mut verifier = EnvelopeVerifier::new("t", "g", 30, 120);
    assert_eq!(verifier.verify(&envelope, 970), Ok(()));
    let mut verifier = EnvelopeVerifier::new("t", "g", 30, 120);
    assert_eq!(verifier.verify(&envelope, 1_031), Err(AuthError::TimestampOutsideWindow));
    let mut verifier = EnvelopeVerifier::new("t", "g", 30, 120);
    assert_eq!(verifier.verify(&envelope, 969), Err(AuthError::TimestampOutsideWindow));
}

#[test]
fn verifier_checks_signature_before_nonce() {
    let mut verifier = EnvelopeVerifier::new("t", "g", 30, 120);
    let envelope = sign_envelope("g", "t", "n", 1_000, "x", MessageContext::UdpAnnouncement, b"b");
    assert_eq!(verifier.verify(&envelope, 1_000), Ok(()));
    let mut forged = envelope.clone();
    forged.body = b"c".to_vec();
    assert_eq!(verifier.verify(&forged, 1_001), Err(AuthError::InvalidSignature));
    assert_eq!(verifier.verify(&envelope, 1_001), Err(AuthError::ReplayNonce));
}

#[test]
fn replay_is_refused_across_other_calls_and_accepted_after_expiry() {
    let mut verifier = EnvelopeVerifier::new("t", "g", 300, 10);
    let first = sign_envelope("g", "t", "a", 1_000, "n1", MessageContext::UdpAnnouncement, b"x");
    let other = sign_envelope("g", "t", "b", 1_000, "n1", MessageContext::UdpAnnouncement, b"y");
    assert_eq!(verifier.verify(&first, 1_000), Ok(()));
    assert_eq!(verifier.verify(&other, 1_003), Ok(()));
    assert_eq!(verifier.verify(&first, 1_005), Err(AuthError::ReplayNonce));
    assert_eq!(verifier.verify(&other, 1_008), Err(AuthError::ReplayNonce));
    assert_eq!(verifier.verify(&first, 1_011), Ok(()));
    assert_eq!(verifier.verify(&first, 1_012), Err(AuthError::ReplayNonce));
}

#[test]
fn refused_calls_leave_later_answers_unchanged() {
    let good = sign_envelope("g", "t", "a", 1_000, "n", MessageContext::UdpAnnouncement, b"x");
    let mut forged = good.clone();
    forged.body = b"z".to_vec();
    let stale = sign_envelope("g", "t", "a", 1, "n", MessageContext::UdpAnnouncement, b"x");

    let mut with_refusals = EnvelopeVerifier::new("t", "g", 30, 10);
    assert_eq!(with_refusals.verify(&forged, 1_000), Err(AuthError::InvalidSignature));
    assert_eq!(with_refusals.verify(&stale, 1_000), Err(AuthError::TimestampOutsideWindow));
    let mut plain = EnvelopeVerifier::new("t", "g", 30, 10);
    for now in [1_001, 1_002, 1_012] {
        assert_eq!(with_refusals.verify(&good, now), plain.verify(&good, now));
    }
}

#[test]
fn replay_holds_for_calls_in_between_at_any_fresh_time() {
    let mut verifier = EnvelopeVerifier::new("t", "g", 300, 10);
    let first = sign_envelope("g", "t", "a", 1_000, "n1", MessageContext::UdpAnnouncement, b"x");
    let other = sign_envelope("g", "t", "b", 1_000, "n2", MessageContext::UdpAnnouncement, b"y");
    assert_eq!(verifier.verify(&first, 1_000), Ok(()));
    assert_eq!(verifier.verify(&other, 1_009), Ok(()));
    assert_eq!(verifier.verify(&other, 995), Err(AuthError::ReplayNonce));
    assert_eq!(verifier.verify(&first, 1_004), Err(AuthError::ReplayNonce));
    assert_eq!(verifier.verify(&first, 1_011), Ok(()));
}
