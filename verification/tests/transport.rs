use ssh_key_sync::auth::{sign_envelope, AuthError, MessageContext};
use ssh_key_sync::transport::{
    sign_http_request, sign_http_response, verify_http_request, verify_http_response,
    HttpKeyExchangeService, KeyExchangeHttpRequest, KeyExchangeHttpResponse,
    ParticipantPublishPayload, TransportError, PATH_GET_PUBLIC_KEY, PATH_PUBLISH_PARTICIPANT,
};

fn local_service() -> HttpKeyExchangeService {
    HttpKeyExchangeService::new("group-a", "secret-token", "node-local", "ssh-ed25519 AAAA node-local")
        .expect("service should initialize")
}

#[test]
fn signs_and_verifies_http_request_envelope() {
    let request = KeyExchangeHttpRequest {
        path: "/v1/keys".to_owned(),
        sender_id: "node-a".to_owned(),
        timestamp_secs: 1_781_771_234,
        nonce: "req-1".to_owned(),
        body: br#"public_key=ssh-ed25519 AAAA node-a"#.to_vec(),
    };
    let envelope = sign_http_request("group-a", "secret-token", &request);

    let verified = verify_http_request(&envelope, "secret-token", "group-a");
    assert_eq!(verified, Ok(()));
}

#[test]
fn signs_and_verifies_http_response_envelope() {
    let response = KeyExchangeHttpResponse {
        path: "/v1/keys".to_owned(),
        status_code: 200,
        sender_id: "node-b".to_owned(),
        timestamp_secs: 1_781_771_240,
        nonce: "res-1".to_owned(),
        body: br#"public_key=ssh-ed25519 BBBB node-b"#.to_vec(),
    };
    let envelope = sign_http_response("group-a", "secret-token", &response);

    let verified = verify_http_response(&envelope, "secret-token", "group-a");
    assert_eq!(verified, Ok(()));
}

#[test]
fn rejects_http_request_with_wrong_sid_token() {
    let request = KeyExchangeHttpRequest {
        path: "/v1/keys".to_owned(),
        sender_id: "node-a".to_owned(),
        timestamp_secs: 1_781_771_234,
        nonce: "req-1".to_owned(),
        body: br#"public_key=ssh-ed25519 AAAA node-a"#.to_vec(),
    };
    let envelope = sign_http_request("group-a", "secret-token", &request);

    let verified = verify_http_request(&envelope, "wrong-token", "group-a");
    assert_eq!(verified, Err(AuthError::InvalidSignature));
}

#[test]
fn handles_get_public_key_request_and_response_without_secret_leak() {
    let service = HttpKeyExchangeService::new(
        "group-a",
        "secret-token",
        "node-local",
        "ssh-ed25519 AAAA node-local",
    )
    .expect("service should initialize");
    let request = service.build_get_public_key_request("node-remote", 1_700_000_000, "req-1");
    let response = service
        .handle_get_public_key_request(&request, 1_700_000_001, "res-1")
        .expect("request should be handled");

    let payload = service
        .verify_and_parse_public_key_response(&response)
        .expect("response should parse");

    assert_eq!(payload.sid, "group-a");
    assert_eq!(payload.participant_id, "node-local");
    assert_eq!(payload.public_key, "ssh-ed25519 AAAA node-local");
    let body_text = String::from_utf8(response.body).expect("response body should be utf-8");
    assert!(!body_text.contains("secret-token"));
}

#[test]
fn handles_publish_request_with_valid_key() {
    let service = HttpKeyExchangeService::new(
        "group-a",
        "secret-token",
        "node-local",
        "ssh-ed25519 AAAA node-local",
    )
    .expect("service should initialize");
    let request = service.build_publish_request(
        "node-remote",
        1_700_000_010,
        "pub-1",
        &ParticipantPublishPayload {
            participant_id: "node-remote".to_owned(),
            address: "10.0.0.5".to_owned(),
            port: 2222,
            public_key: "ssh-ed25519 BBBB node-remote".to_owned(),
        },
    );

    let response = service
        .handle_publish_request(&request, 1_700_000_011, "ack-1")
        .expect("publish request should be handled");
    let verified = verify_http_response(&response, "secret-token", "group-a");
    assert_eq!(verified, Ok(()));
    assert!(matches!(
        response.context,
        MessageContext::HttpResponse {
            status_code: 202,
            ref path
        } if path == PATH_PUBLISH_PARTICIPANT
    ));
}

#[test]
fn rejects_publish_request_with_invalid_public_key() {
    let service = HttpKeyExchangeService::new(
        "group-a",
        "secret-token",
        "node-local",
        "ssh-ed25519 AAAA node-local",
    )
    .expect("service should initialize");
    let request = service.build_publish_request(
        "node-remote",
        1_700_000_010,
        "pub-1",
        &ParticipantPublishPayload {
            participant_id: "node-remote".to_owned(),
            address: "10.0.0.5".to_owned(),
            port: 2222,
            public_key: "invalid".to_owned(),
        },
    );

    let response = service.handle_publish_request(&request, 1_700_000_011, "ack-1");
    assert_eq!(response, Err(TransportError::InvalidPayload));
}

#[test]
fn rejects_get_public_key_request_with_wrong_context_path() {
    let service = HttpKeyExchangeService::new(
        "group-a",
        "secret-token",
        "node-local",
        "ssh-ed25519 AAAA node-local",
    )
    .expect("service should initialize");

    let request = KeyExchangeHttpRequest {
        path: "/v1/other".to_owned(),
        sender_id: "node-remote".to_owned(),
        timestamp_secs: 1_700_000_000,
        nonce: "req-1".to_owned(),
        body: br#"request=public_key"#.to_vec(),
    };
    let envelope = sign_http_request("group-a", "secret-token", &request);

    let response = service.handle_get_public_key_request(&envelope, 1_700_000_001, "res-1");
    assert_eq!(response, Err(TransportError::UnexpectedContext));

    let _ = PATH_GET_PUBLIC_KEY;
}

#[test]
fn service_rejects_an_invalid_own_key() {
    let service = HttpKeyExchangeService::new("group-a", "t", "me", "nonsense");
    assert_eq!(service, Err(TransportError::InvalidPayload));
}

#[test]
fn get_request_has_the_expected_shape() {
    let service = local_service();
    let request = service.build_get_public_key_request("node-remote", 5, "req-9");
    assert_eq!(request.body, b"request=public_key\n".to_vec());
    assert_eq!(request.sid, "group-a");
    assert_eq!(request.sender_id, "node-remote");
    assert_eq!(
        request.context,
        MessageContext::HttpRequest { method: "POST".to_owned(), path: PATH_GET_PUBLIC_KEY.to_owned() }
    );
}

#[test]
fn get_response_names_this_node_and_its_normalized_key() {
    let service = HttpKeyExchangeService::new("group-a", "secret-token", "node-local", "  ssh-ed25519   AAAA   node-local ")
        .unwrap();
    let request = service.build_get_public_key_request("node-remote", 1, "r");
    let response = service.handle_get_public_key_request(&request, 2, "s").unwrap();
    assert_eq!(
        response.body,
        b"sid=group-a\nparticipant_id=node-local\npublic_key=ssh-ed25519 AAAA node-local\n".to_vec()
    );
    assert_eq!(response.sender_id, "node-local");
    assert_eq!(response.timestamp_secs, 2);
    assert_eq!(response.nonce, "s");
    assert_eq!(
        response.context,
        MessageContext::HttpResponse { status_code: 200, path: PATH_GET_PUBLIC_KEY.to_owned() }
    );
}

#[test]
fn get_request_with_wrong_token_is_an_auth_error() {
    let service = local_service();
    let other = HttpKeyExchangeService::new("group-a", "other-token", "x", "ssh-rsa K").unwrap();
    let request = other.build_get_public_key_request("x", 1, "r");
    assert_eq!(
        service.handle_get_public_key_request(&request, 2, "s"),
        Err(TransportError::Auth(AuthError::InvalidSignature))
    );
}

#[test]
fn request_method_is_compared_without_case() {
    let service = local_service();
    let envelope = sign_envelope(
        "group-a",
        "secret-token",
        "x",
        1,
        "n",
        MessageContext::HttpRequest { method: "post".to_owned(), path: PATH_GET_PUBLIC_KEY.to_owned() },
        b"",
    );
    assert!(service.handle_get_public_key_request(&envelope, 2, "s").is_ok());
    let wrong_method = sign_envelope(
        "group-a",
        "secret-token",
        "x",
        1,
        "n",
        MessageContext::HttpRequest { method: "GET".to_owned(), path: PATH_GET_PUBLIC_KEY.to_owned() },
        b"",
    );
    assert_eq!(
        service.handle_get_public_key_request(&wrong_method, 2, "s"),
        Err(TransportError::UnexpectedContext)
    );
}

#[test]
fn response_with_missing_fields_reports_the_field() {
    let service = local_service();
    let response = KeyExchangeHttpResponse {
        path: PATH_GET_PUBLIC_KEY.to_owned(),
        status_code: 200,
        sender_id: "b".to_owned(),
        timestamp_secs: 1,
        nonce: "n".to_owned(),
        body: b"sid=group-a\npublic_key=ssh-rsa K\n".to_vec(),
    };
    let envelope = sign_http_response("group-a", "secret-token", &response);
    assert_eq!(
        service.verify_and_parse_public_key_response(&envelope),
        Err(TransportError::MissingPayloadField("participant_id"))
    );
}

#[test]
fn response_with_wrong_status_or_bad_key_is_refused() {
    let service = local_service();
    let mut response = KeyExchangeHttpResponse {
        path: PATH_GET_PUBLIC_KEY.to_owned(),
        status_code: 500,
        sender_id: "b".to_owned(),
        timestamp_secs: 1,
        nonce: "n".to_owned(),
        body: b"sid=group-a\nparticipant_id=b\npublic_key=ssh-rsa K\n".to_vec(),
    };
    let envelope = sign_http_response("group-a", "secret-token", &response);
    assert_eq!(service.verify_and_parse_public_key_response(&envelope), Err(TransportError::UnexpectedContext));

    response.status_code = 200;
    response.body = b"sid=group-a\nparticipant_id=b\npublic_key=bad\n".to_vec();
    let envelope = sign_http_response("group-a", "secret-token", &response);
    assert_eq!(service.verify_and_parse_public_key_response(&envelope), Err(TransportError::InvalidPayload));

    response.body = b"sid=group-a\nno separator\n".to_vec();
    let envelope = sign_http_response("group-a", "secret-token", &response);
    assert_eq!(service.verify_and_parse_public_key_response(&envelope), Err(TransportError::InvalidPayload));
}

#[test]
fn response_for_another_group_is_a_sid_mismatch() {
    let service = local_service();
    let response = KeyExchangeHttpResponse {
        path: PATH_GET_PUBLIC_KEY.to_owned(),
        status_code: 200,
        sender_id: "b".to_owned(),
        timestamp_secs: 1,
        nonce: "n".to_owned(),
        body: b"sid=group-b\nparticipant_id=b\npublic_key=ssh-rsa K\n".to_vec(),
    };
    let envelope = sign_http_response("group-b", "secret-token", &response);
    assert_eq!(
        service.verify_and_parse_public_key_response(&envelope),
        Err(TransportError::Auth(AuthError::SidMismatch))
    );
}

#[test]
fn publish_request_with_bad_port_is_invalid() {
    let service = local_service();
    let request = KeyExchangeHttpRequest {
        path: PATH_PUBLISH_PARTICIPANT.to_owned(),
        sender_id: "x".to_owned(),
        timestamp_secs: 1,
        nonce: "n".to_owned(),
        body: b"participant_id=x\naddress=a\nport=70000\npublic_key=ssh-rsa K\n".to_vec(),
    };
    let envelope = sign_http_request("group-a", "secret-token", &request);
    assert_eq!(service.handle_publish_request(&envelope, 2, "s"), Err(TransportError::InvalidPayload));
}

#[test]
fn publish_acknowledgement_body_names_the_participant() {
    let service = local_service();
    let request = service.build_publish_request(
        "node-remote",
        1,
        "p",
        &ParticipantPublishPayload {
            participant_id: "node-remote".to_owned(),
            address: "10.0.0.5".to_owned(),
            port: 22,
            public_key: "ssh-ed25519 BBBB node-remote".to_owned(),
        },
    );
    assert_eq!(
        request.body,
        b"participant_id=node-remote\naddress=10.0.0.5\nport=22\npublic_key=ssh-ed25519 BBBB node-remote\n".to_vec()
    );
    let response = service.handle_publish_request(&request, 2, "ack").unwrap();
    assert_eq!(response.body, b"status=accepted\nparticipant_id=node-remote\n".to_vec());
}

#[test]
fn auth_error_converts_into_transport_error() {
    assert_eq!(TransportError::from(AuthError::ReplayNonce), TransportError::Auth(AuthError::ReplayNonce));
}
