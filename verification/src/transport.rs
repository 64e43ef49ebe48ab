//! The HTTP key exchange: signed requests for a node's public key and for
//! publishing a participant, and the signed responses to them.
use vstd::prelude::*;
use crate::auth::{
    lemma_signed_envelope_verifies,
    AuthError, MessageContext, SignedEnvelope, envelope_text, hex_encode_sig, sign_envelope,
    verify_envelope, verify_spec,
};
use crate::payload::{
    lemma_payload_roundtrip, lemma_plain_key, plain_entry, plain_key, trimmed_entries,
    decimal_string, entry_views, lookup, pair_views, parse_entries, payload_get, payload_pairs,
    payload_text, serialize_entries,
};
use crate::ssh_keys::{
    lemma_normalize_idempotent, lemma_normalized_line, normalize_key_spec, normalize_public_key,
};
use crate::text::{
    chars_eq_ignore_ascii_case, chars_equal, chars_of, decimal, eq_ignore_ascii_case, parse_u16,
    parse_u16_chars, string_of, has_char, lemma_decimal_roundtrip, lemma_trim_trim, trim,
};
use vstd::utf8::encode_utf8;

verus! {

/// The path of the public key request.
pub const PATH_GET_PUBLIC_KEY: &'static str = "/v1/keys/get";

/// The path of the participant publish request.
pub const PATH_PUBLISH_PARTICIPANT: &'static str = "/v1/participants/publish";

#[derive(Debug, Clone, PartialEq, Eq)]
pub struct KeyExchangeHttpRequest {
    pub path: String,
    pub sender_id: String,
    pub timestamp_secs: u64,
    pub nonce: String,
    pub body: Vec<u8>,
}

#[derive(Debug, Clone, PartialEq, Eq)]
pub struct KeyExchangeHttpResponse {
    pub path: String,
    pub status_code: u16,
    pub sender_id: String,
    pub timestamp_secs: u64,
    pub nonce: String,
    pub body: Vec<u8>,
}

#[derive(Debug, Clone, PartialEq, Eq)]
pub struct PublicKeyPayload {
    pub sid: String,
    pub participant_id: String,
    pub public_key: String,
}

#[derive(Debug, Clone, PartialEq, Eq)]
pub struct ParticipantPublishPayload {
    pub participant_id: String,
    pub address: String,
    pub port: u16,
    pub public_key: String,
}

#[derive(Debug, Clone, PartialEq, Eq)]
pub enum TransportError {
    Auth(AuthError),
    UnexpectedContext,
    InvalidPayload,
    MissingPayloadField(&'static str),
}

/// A [`TransportError`] with the missing field's name as a character sequence.
pub enum TransportErrorInfo {
    Auth(AuthError),
    UnexpectedContext,
    InvalidPayload,
    MissingPayloadField(Seq<char>),
}

impl View for TransportError {
    type V = TransportErrorInfo;

    open spec fn view(&self) -> TransportErrorInfo {
        match self {
            TransportError::Auth(e) => TransportErrorInfo::Auth(*e),
            TransportError::UnexpectedContext => TransportErrorInfo::UnexpectedContext,
            TransportError::InvalidPayload => TransportErrorInfo::InvalidPayload,
            TransportError::MissingPayloadField(f) => TransportErrorInfo::MissingPayloadField(f@),
        }
    }
}

impl From<AuthError> for TransportError {
    fn from(value: AuthError) -> (r: Self) {
        TransportError::Auth(value)
    }
}

impl vstd::std_specs::convert::FromSpecImpl<AuthError> for TransportError {
    open spec fn obeys_from_spec() -> bool {
        true
    }

    open spec fn from_spec(v: AuthError) -> Self {
        TransportError::Auth(v)
    }
}

/// A key exchange endpoint of one participant of a group.
#[derive(Debug, Clone, PartialEq, Eq)]
pub struct HttpKeyExchangeService {
    sid: String,
    sid_token: String,
    participant_id: String,
    public_key: String,
}

/// The state of a key exchange endpoint.
pub struct ServiceInfo {
    pub sid: Seq<char>,
    pub token: Seq<char>,
    pub participant_id: Seq<char>,
    pub public_key: Seq<char>,
}

impl View for HttpKeyExchangeService {
    type V = ServiceInfo;

    closed spec fn view(&self) -> ServiceInfo {
        ServiceInfo {
            sid: self.sid@,
            token: self.sid_token@,
            participant_id: self.participant_id@,
            public_key: self.public_key@,
        }
    }
}

/// The fields of a [`PublicKeyPayload`].
pub struct PublicKeyInfo {
    pub sid: Seq<char>,
    pub participant_id: Seq<char>,
    pub public_key: Seq<char>,
}

impl View for PublicKeyPayload {
    type V = PublicKeyInfo;

    open spec fn view(&self) -> PublicKeyInfo {
        PublicKeyInfo {
            sid: self.sid@,
            participant_id: self.participant_id@,
            public_key: self.public_key@,
        }
    }
}

/// The fields of a [`ParticipantPublishPayload`].
pub struct PublishInfo {
    pub participant_id: Seq<char>,
    pub address: Seq<char>,
    pub port: u16,
    pub public_key: Seq<char>,
}

impl View for ParticipantPublishPayload {
    type V = PublishInfo;

    open spec fn view(&self) -> PublishInfo {
        PublishInfo {
            participant_id: self.participant_id@,
            address: self.address@,
            port: self.port,
            public_key: self.public_key@,
        }
    }
}

/// Whether `e` carries exactly these fields and the signature of them under
/// `token`.
pub open spec fn signed_with(
    e: SignedEnvelope,
    sid: Seq<char>,
    token: Seq<char>,
    sender_id: Seq<char>,
    timestamp_secs: u64,
    nonce: Seq<char>,
    body: Seq<u8>,
) -> bool {
    &&& e.sid@ == sid
    &&& e.sender_id@ == sender_id
    &&& e.timestamp_secs == timestamp_secs
    &&& e.nonce@ == nonce
    &&& e.body@ == body
    &&& e.signature_hex@ == hex_encode_sig(token, envelope_text(e))
}

/// A `POST` request context for `path`.
pub open spec fn post_context(c: MessageContext, path: Seq<char>) -> bool {
    c matches MessageContext::HttpRequest { method, path: p } && method@ == "POST"@ && p@ == path
}

/// A response context with `status` for `path`.
pub open spec fn response_context(c: MessageContext, status: u16, path: Seq<char>) -> bool {
    c matches MessageContext::HttpResponse { status_code, path: p } && status_code == status && p@
        == path
}

/// Whether an envelope's context is a request with the method (up to ASCII
/// case) and path given.
pub open spec fn request_context_matches(c: MessageContext, method: Seq<char>, path: Seq<char>) -> bool {
    c matches MessageContext::HttpRequest { method: m, path: p } && eq_ignore_ascii_case(m@, method)
        && p@ == path
}

/// Whether an envelope's context is a response with the status and path given.
pub open spec fn response_context_matches(c: MessageContext, status: u16, path: Seq<char>) -> bool {
    response_context(c, status, path)
}

/// The body of a public key response.
pub open spec fn key_response_entries(v: ServiceInfo) -> Seq<(Seq<char>, Seq<char>)> {
    seq![("sid"@, v.sid), ("participant_id"@, v.participant_id), ("public_key"@, v.public_key)]
}

/// The body of a publish request.
pub open spec fn publish_entries(p: PublishInfo) -> Seq<(Seq<char>, Seq<char>)> {
    seq![
        ("participant_id"@, p.participant_id),
        ("address"@, p.address),
        ("port"@, decimal(p.port as nat)),
        ("public_key"@, p.public_key),
    ]
}

/// The body of a publish acknowledgement.
pub open spec fn accepted_entries(participant_id: Seq<char>) -> Seq<(Seq<char>, Seq<char>)> {
    seq![("status"@, "accepted"@), ("participant_id"@, participant_id)]
}

/// What reading a public key response body gives.
pub open spec fn key_payload_spec(body: Seq<u8>) -> Result<PublicKeyInfo, TransportErrorInfo> {
    match payload_pairs(body) {
        None => Err(TransportErrorInfo::InvalidPayload),
        Some(p) => match payload_get(p, "sid"@) {
            None => Err(TransportErrorInfo::MissingPayloadField("sid"@)),
            Some(sid) => match payload_get(p, "participant_id"@) {
                None => Err(TransportErrorInfo::MissingPayloadField("participant_id"@)),
                Some(id) => match payload_get(p, "public_key"@) {
                    None => Err(TransportErrorInfo::MissingPayloadField("public_key"@)),
                    Some(key) => match normalize_key_spec(key) {
                        Err(_) => Err(TransportErrorInfo::InvalidPayload),
                        Ok(public_key) => Ok(
                            PublicKeyInfo { sid, participant_id: id, public_key },
                        ),
                    },
                },
            },
        },
    }
}

/// What reading a publish request body gives.
pub open spec fn publish_payload_spec(body: Seq<u8>) -> Result<PublishInfo, TransportErrorInfo> {
    match payload_pairs(body) {
        None => Err(TransportErrorInfo::InvalidPayload),
        Some(p) => match payload_get(p, "participant_id"@) {
            None => Err(TransportErrorInfo::MissingPayloadField("participant_id"@)),
            Some(id) => match payload_get(p, "address"@) {
                None => Err(TransportErrorInfo::MissingPayloadField("address"@)),
                Some(address) => match payload_get(p, "port"@) {
                    None => Err(TransportErrorInfo::MissingPayloadField("port"@)),
                    Some(port_text) => match parse_u16(port_text) {
                        None => Err(TransportErrorInfo::InvalidPayload),
                        Some(port) => match payload_get(p, "public_key"@) {
                            None => Err(TransportErrorInfo::MissingPayloadField("public_key"@)),
                            Some(key) => Ok(
                                PublishInfo { participant_id: id, address, port, public_key: key },
                            ),
                        },
                    },
                },
            },
        },
    }
}

/// What verifying and reading a public key response gives.
pub open spec fn key_response_spec(v: ServiceInfo, e: SignedEnvelope) -> Result<
    PublicKeyInfo,
    TransportErrorInfo,
> {
    match verify_spec(e, v.token, v.sid) {
        Err(a) => Err(TransportErrorInfo::Auth(a)),
        Ok(_) => if !response_context_matches(e.context, 200, PATH_GET_PUBLIC_KEY@) {
            Err(TransportErrorInfo::UnexpectedContext)
        } else {
            key_payload_spec(e.body@)
        },
    }
}

fn serialize_payload(entries: &[(&str, String)]) -> (b: Vec<u8>)
    ensures
        b@ == encode_utf8(payload_text(entry_views(entries@))),
{
    serialize_entries(entries)
}

fn parse_payload(body: &[u8]) -> (r: Result<Vec<(Vec<char>, Vec<char>)>, TransportError>)
    ensures
        match r {
            Ok(v) => payload_pairs(body@) == Some(pair_views(v@)),
            Err(e) => payload_pairs(body@) is None && e == TransportError::InvalidPayload,
        },
{
    match parse_entries(body) {
        Some(v) => Ok(v),
        None => Err(TransportError::InvalidPayload),
    }
}

fn get_required(payload: &Vec<(Vec<char>, Vec<char>)>, field: &'static str) -> (r: Result<
    String,
    TransportError,
>)
    ensures
        match r {
            Ok(v) => payload_get(pair_views(payload@), field@) == Some(v@),
            Err(e) => payload_get(pair_views(payload@), field@) is None && e
                == TransportError::MissingPayloadField(field),
        },
{
    match lookup(payload, field) {
        Some(v) => Ok(v),
        None => Err(TransportError::MissingPayloadField(field)),
    }
}

fn parse_publish_request(body: &[u8]) -> (r: Result<ParticipantPublishPayload, TransportError>)
    ensures
        match r {
            Ok(p) => publish_payload_spec(body@) == Ok::<PublishInfo, TransportErrorInfo>(p@),
            Err(e) => publish_payload_spec(body@) == Err::<PublishInfo, TransportErrorInfo>(e@),
        },
{
    let payload = parse_payload(body)?;
    let participant_id = get_required(&payload, "participant_id")?;
    let address = get_required(&payload, "address")?;
    let port_text = get_required(&payload, "port")?;
    let port = match parse_u16_chars(chars_of(port_text.as_str()).as_slice()) {
        Some(p) => p,
        None => return Err(TransportError::InvalidPayload),
    };
    let public_key = get_required(&payload, "public_key")?;
    Ok(ParticipantPublishPayload { participant_id, address, port, public_key })
}

fn expect_http_request_context(envelope: &SignedEnvelope, expected_method: &str, expected_path: &str) -> (r:
    Result<(), TransportError>)
    ensures
        r is Ok <==> request_context_matches(envelope.context, expected_method@, expected_path@),
        r matches Err(e) ==> e == TransportError::UnexpectedContext,
{
    match &envelope.context {
        MessageContext::HttpRequest { method, path } => {
            if chars_eq_ignore_ascii_case(
                chars_of(method.as_str()).as_slice(),
                chars_of(expected_method).as_slice(),
            ) && chars_equal(chars_of(path.as_str()).as_slice(), chars_of(expected_path).as_slice()) {
                Ok(())
            } else {
                Err(TransportError::UnexpectedContext)
            }
        },
        _ => Err(TransportError::UnexpectedContext),
    }
}

fn expect_http_response_context(envelope: &SignedEnvelope, expected_status: u16, expected_path: &str) -> (r:
    Result<(), TransportError>)
    ensures
        r is Ok <==> response_context_matches(envelope.context, expected_status, expected_path@),
        r matches Err(e) ==> e == TransportError::UnexpectedContext,
{
    match &envelope.context {
        MessageContext::HttpResponse { status_code, path } => {
            if *status_code == expected_status && chars_equal(
                chars_of(path.as_str()).as_slice(),
                chars_of(expected_path).as_slice(),
            ) {
                Ok(())
            } else {
                Err(TransportError::UnexpectedContext)
            }
        },
        _ => Err(TransportError::UnexpectedContext),
    }
}

/// Signs a request as a `POST` to its path.
pub fn sign_http_request(sid: &str, sid_token: &str, request: &KeyExchangeHttpRequest) -> (e:
    SignedEnvelope)
    ensures
        signed_with(
            e,
            sid@,
            sid_token@,
            request.sender_id@,
            request.timestamp_secs,
            request.nonce@,
            request.body@,
        ),
        post_context(e.context, request.path@),
{
    sign_envelope(
        sid,
        sid_token,
        request.sender_id.as_str(),
        request.timestamp_secs,
        request.nonce.as_str(),
        MessageContext::HttpRequest {
            method: string_of(chars_of("POST").as_slice()),
            path: string_of(chars_of(request.path.as_str()).as_slice()),
        },
        request.body.as_slice(),
    )
}

/// Signs a response with its status code and path.
pub fn sign_http_response(sid: &str, sid_token: &str, response: &KeyExchangeHttpResponse) -> (e:
    SignedEnvelope)
    ensures
        signed_with(
            e,
            sid@,
            sid_token@,
            response.sender_id@,
            response.timestamp_secs,
            response.nonce@,
            response.body@,
        ),
        response_context(e.context, response.status_code, response.path@),
{
    sign_envelope(
        sid,
        sid_token,
        response.sender_id.as_str(),
        response.timestamp_secs,
        response.nonce.as_str(),
        MessageContext::HttpResponse {
            status_code: response.status_code,
            path: string_of(chars_of(response.path.as_str()).as_slice()),
        },
        response.body.as_slice(),
    )
}

/// Checks a signed request as [`verify_envelope`] does.
pub fn verify_http_request(envelope: &SignedEnvelope, sid_token: &str, expected_sid: &str) -> (r:
    Result<(), AuthError>)
    ensures
        r == verify_spec(*envelope, sid_token@, expected_sid@),
{
    verify_envelope(envelope, sid_token, expected_sid)
}

/// Checks a signed response as [`verify_envelope`] does.
pub fn verify_http_response(envelope: &SignedEnvelope, sid_token: &str, expected_sid: &str) -> (r:
    Result<(), AuthError>)
    ensures
        r == verify_spec(*envelope, sid_token@, expected_sid@),
{
    verify_envelope(envelope, sid_token, expected_sid)
}

impl HttpKeyExchangeService {
    /// An endpoint for a participant; its public key is stored normalised.
    pub fn new(sid: &str, sid_token: &str, participant_id: &str, public_key: &str) -> (r: Result<
        Self,
        TransportError,
    >)
        ensures
            match r {
                Ok(s) => normalize_key_spec(public_key@) is Ok && s@ == (ServiceInfo {
                    sid: sid@,
                    token: sid_token@,
                    participant_id: participant_id@,
                    public_key: normalize_key_spec(public_key@)->Ok_0,
                }),
                Err(e) => normalize_key_spec(public_key@) is Err && e
                    == TransportError::InvalidPayload,
            },
    {
        let public_key = match normalize_public_key(public_key) {
            Ok(k) => k,
            Err(_) => return Err(TransportError::InvalidPayload),
        };
        Ok(
            HttpKeyExchangeService {
                sid: string_of(chars_of(sid).as_slice()),
                sid_token: string_of(chars_of(sid_token).as_slice()),
                participant_id: string_of(chars_of(participant_id).as_slice()),
                public_key,
            },
        )
    }

    /// A signed request for the receiver's public key.
    pub fn build_get_public_key_request(&self, sender_id: &str, timestamp_secs: u64, nonce: &str) -> (e:
        SignedEnvelope)
        ensures
            signed_with(
                e,
                self@.sid,
                self@.token,
                sender_id@,
                timestamp_secs,
                nonce@,
                encode_utf8(payload_text(seq![("request"@, "public_key"@)])),
            ),
            post_context(e.context, PATH_GET_PUBLIC_KEY@),
    {
        let entries = vec![("request", string_of(chars_of("public_key").as_slice()))];
        assert(entry_views(entries@) =~= seq![("request"@, "public_key"@)]);
        let request = KeyExchangeHttpRequest {
            path: string_of(chars_of(PATH_GET_PUBLIC_KEY).as_slice()),
            sender_id: string_of(chars_of(sender_id).as_slice()),
            timestamp_secs,
            nonce: string_of(chars_of(nonce).as_slice()),
            body: serialize_payload(entries.as_slice()),
        };
        sign_http_request(self.sid.as_str(), self.sid_token.as_str(), &request)
    }

    /// Answers a verified request for this node's public key with a signed
    /// response holding the group, the participant id and the public key.
    pub fn handle_get_public_key_request(
        &self,
        request_envelope: &SignedEnvelope,
        response_timestamp_secs: u64,
        response_nonce: &str,
    ) -> (r: Result<SignedEnvelope, TransportError>)
        ensures
            match r {
                Ok(e) => verify_spec(*request_envelope, self@.token, self@.sid) is Ok
                    && request_context_matches(
                    request_envelope.context,
                    "POST"@,
                    PATH_GET_PUBLIC_KEY@,
                ) && signed_with(
                    e,
                    self@.sid,
                    self@.token,
                    self@.participant_id,
                    response_timestamp_secs,
                    response_nonce@,
                    encode_utf8(payload_text(key_response_entries(self@))),
                ) && response_context(e.context, 200, PATH_GET_PUBLIC_KEY@),
                Err(err) => match verify_spec(*request_envelope, self@.token, self@.sid) {
                    Err(a) => err == TransportError::Auth(a),
                    Ok(_) => !request_context_matches(
                        request_envelope.context,
                        "POST"@,
                        PATH_GET_PUBLIC_KEY@,
                    ) && err == TransportError::UnexpectedContext,
                },
            },
    {
        match verify_http_request(request_envelope, self.sid_token.as_str(), self.sid.as_str()) {
            Ok(()) => {},
            Err(a) => return Err(TransportError::Auth(a)),
        }
        expect_http_request_context(request_envelope, "POST", PATH_GET_PUBLIC_KEY)?;
        let entries = vec![
            ("sid", self.sid.clone()),
            ("participant_id", self.participant_id.clone()),
            ("public_key", self.public_key.clone()),
        ];
        assert(entry_views(entries@) =~= key_response_entries(self@));
        let response = KeyExchangeHttpResponse {
            path: string_of(chars_of(PATH_GET_PUBLIC_KEY).as_slice()),
            status_code: 200,
            sender_id: self.participant_id.clone(),
            timestamp_secs: response_timestamp_secs,
            nonce: string_of(chars_of(response_nonce).as_slice()),
            body: serialize_payload(entries.as_slice()),
        };
        Ok(sign_http_response(self.sid.as_str(), self.sid_token.as_str(), &response))
    }

    /// Verifies a public key response and reads its payload.
    pub fn verify_and_parse_public_key_response(&self, envelope: &SignedEnvelope) -> (r: Result<
        PublicKeyPayload,
        TransportError,
    >)
        ensures
            match r {
                Ok(p) => key_response_spec(self@, *envelope) == Ok::<
                    PublicKeyInfo,
                    TransportErrorInfo,
                >(p@),
                Err(e) => key_response_spec(self@, *envelope) == Err::<
                    PublicKeyInfo,
                    TransportErrorInfo,
                >(e@),
            },
    {
        match verify_http_response(envelope, self.sid_token.as_str(), self.sid.as_str()) {
            Ok(()) => {},
            Err(a) => return Err(TransportError::Auth(a)),
        }
        expect_http_response_context(envelope, 200, PATH_GET_PUBLIC_KEY)?;
        let payload = parse_payload(envelope.body.as_slice())?;
        let sid = get_required(&payload, "sid")?;
        let participant_id = get_required(&payload, "participant_id")?;
        let key = get_required(&payload, "public_key")?;
        let public_key = match normalize_public_key(key.as_str()) {
            Ok(k) => k,
            Err(_) => return Err(TransportError::InvalidPayload),
        };
        Ok(PublicKeyPayload { sid, participant_id, public_key })
    }

    /// A signed request publishing a participant.
    pub fn build_publish_request(
        &self,
        sender_id: &str,
        timestamp_secs: u64,
        nonce: &str,
        payload: &ParticipantPublishPayload,
    ) -> (e: SignedEnvelope)
        ensures
            signed_with(
                e,
                self@.sid,
                self@.token,
                sender_id@,
                timestamp_secs,
                nonce@,
                encode_utf8(payload_text(publish_entries(payload@))),
            ),
            post_context(e.context, PATH_PUBLISH_PARTICIPANT@),
    {
        let entries = vec![
            ("participant_id", payload.participant_id.clone()),
            ("address", payload.address.clone()),
            ("port", decimal_string(payload.port as u64)),
            ("public_key", payload.public_key.clone()),
        ];
        assert(entry_views(entries@) =~= publish_entries(payload@));
        let request = KeyExchangeHttpRequest {
            path: string_of(chars_of(PATH_PUBLISH_PARTICIPANT).as_slice()),
            sender_id: string_of(chars_of(sender_id).as_slice()),
            timestamp_secs,
            nonce: string_of(chars_of(nonce).as_slice()),
            body: serialize_payload(entries.as_slice()),
        };
        sign_http_request(self.sid.as_str(), self.sid_token.as_str(), &request)
    }

    /// Accepts a verified publish request whose public key is valid, with a
    /// signed `202` acknowledgement naming the participant.
    pub fn handle_publish_request(
        &self,
        request_envelope: &SignedEnvelope,
        response_timestamp_secs: u64,
        response_nonce: &str,
    ) -> (r: Result<SignedEnvelope, TransportError>)
        ensures
            match r {
                Ok(e) => verify_spec(*request_envelope, self@.token, self@.sid) is Ok
                    && request_context_matches(
                    request_envelope.context,
                    "POST"@,
                    PATH_PUBLISH_PARTICIPANT@,
                ) && publish_payload_spec(request_envelope.body@) is Ok && normalize_key_spec(
                    publish_payload_spec(request_envelope.body@)->Ok_0.public_key,
                ) is Ok && signed_with(
                    e,
                    self@.sid,
                    self@.token,
                    self@.participant_id,
                    response_timestamp_secs,
                    response_nonce@,
                    encode_utf8(
                        payload_text(
                            accepted_entries(
                                publish_payload_spec(request_envelope.body@)->Ok_0.participant_id,
                            ),
                        ),
                    ),
                ) && response_context(e.context, 202, PATH_PUBLISH_PARTICIPANT@),
                Err(err) => match verify_spec(*request_envelope, self@.token, self@.sid) {
                    Err(a) => err == TransportError::Auth(a),
                    Ok(_) => if !request_context_matches(
                        request_envelope.context,
                        "POST"@,
                        PATH_PUBLISH_PARTICIPANT@,
                    ) {
                        err == TransportError::UnexpectedContext
                    } else {
                        match publish_payload_spec(request_envelope.body@) {
                            Err(pe) => err@ == pe,
                            Ok(p) => normalize_key_spec(p.public_key) is Err && err
                                == TransportError::InvalidPayload,
                        }
                    },
                },
            },
    {
        match verify_http_request(request_envelope, self.sid_token.as_str(), self.sid.as_str()) {
            Ok(()) => {},
            Err(a) => return Err(TransportError::Auth(a)),
        }
        expect_http_request_context(request_envelope, "POST", PATH_PUBLISH_PARTICIPANT)?;
        let payload = parse_publish_request(request_envelope.body.as_slice())?;
        match normalize_public_key(payload.public_key.as_str()) {
            Ok(_) => {},
            Err(_) => return Err(TransportError::InvalidPayload),
        }
        let entries = vec![
            ("status", string_of(chars_of("accepted").as_slice())),
            ("participant_id", payload.participant_id),
        ];
        assert(entry_views(entries@) =~= accepted_entries(
            publish_payload_spec(request_envelope.body@)->Ok_0.participant_id,
        ));
        let response = KeyExchangeHttpResponse {
            path: string_of(chars_of(PATH_PUBLISH_PARTICIPANT).as_slice()),
            status_code: 202,
            sender_id: self.participant_id.clone(),
            timestamp_secs: response_timestamp_secs,
            nonce: string_of(chars_of(response_nonce).as_slice()),
            body: serialize_payload(entries.as_slice()),
        };
        Ok(sign_http_response(self.sid.as_str(), self.sid_token.as_str(), &response))
    }
}

/// A signed envelope verifies under the token it was signed with and its
/// own group.
pub proof fn lemma_signed_verifies(
    e: SignedEnvelope,
    sid: Seq<char>,
    token: Seq<char>,
    sender_id: Seq<char>,
    timestamp_secs: u64,
    nonce: Seq<char>,
    body: Seq<u8>,
)
    requires
        signed_with(e, sid, token, sender_id, timestamp_secs, nonce, body),
    ensures
        verify_spec(e, token, sid) == Ok::<(), AuthError>(()),
{
    lemma_signed_envelope_verifies(e, token);
}

proof fn lemma_transport_keys()
    ensures
        plain_key("sid"@),
        plain_key("participant_id"@),
        plain_key("address"@),
        plain_key("port"@),
        plain_key("public_key"@),
        "sid"@ != "participant_id"@,
        "sid"@ != "public_key"@,
        "participant_id"@ != "public_key"@,
        "participant_id"@ != "address"@,
        "participant_id"@ != "port"@,
        "address"@ != "port"@,
        "address"@ != "public_key"@,
        "port"@ != "public_key"@,
{
    reveal_strlit("sid");
    reveal_strlit("participant_id");
    reveal_strlit("address");
    reveal_strlit("port");
    reveal_strlit("public_key");
    lemma_plain_key("sid"@);
    lemma_plain_key("participant_id"@);
    lemma_plain_key("address"@);
    lemma_plain_key("port"@);
    lemma_plain_key("public_key"@);
}

/// Two endpoints of one group exchange public keys: the responder accepts a
/// key request built by the requester, and the requester reads from the
/// signed response the responder's group, participant id (both trimmed) and
/// public key. Excluded are a group or participant id with a line feed, on
/// which the response does not read back.
pub proof fn lemma_public_key_exchange(
    a: ServiceInfo,
    b: ServiceInfo,
    request: SignedEnvelope,
    response: SignedEnvelope,
    sender_id: Seq<char>,
    timestamp_secs: u64,
    nonce: Seq<char>,
    response_timestamp_secs: u64,
    response_nonce: Seq<char>,
)
    requires
        a.sid == b.sid,
        a.token == b.token,
        normalize_key_spec(b.public_key) == Ok::<Seq<char>, crate::ssh_keys::PublicKeyError>(
            b.public_key,
        ),
        !has_char(b.sid, '\n'),
        !has_char(b.participant_id, '\n'),
        signed_with(
            request,
            a.sid,
            a.token,
            sender_id,
            timestamp_secs,
            nonce,
            encode_utf8(payload_text(seq![("request"@, "public_key"@)])),
        ),
        post_context(request.context, PATH_GET_PUBLIC_KEY@),
        signed_with(
            response,
            b.sid,
            b.token,
            b.participant_id,
            response_timestamp_secs,
            response_nonce,
            encode_utf8(payload_text(key_response_entries(b))),
        ),
        response_context(response.context, 200, PATH_GET_PUBLIC_KEY@),
    ensures
        verify_spec(request, b.token, b.sid) is Ok,
        request_context_matches(request.context, "POST"@, PATH_GET_PUBLIC_KEY@),
        key_response_spec(a, response) == Ok::<PublicKeyInfo, TransportErrorInfo>(
            PublicKeyInfo {
                sid: trim(b.sid),
                participant_id: trim(b.participant_id),
                public_key: b.public_key,
            },
        ),
{
    lemma_signed_envelope_verifies(request, a.token);
    lemma_signed_envelope_verifies(response, b.token);
    lemma_transport_keys();
    lemma_normalized_line(b.public_key);
    let entries = key_response_entries(b);
    assert forall|i: int| 0 <= i < entries.len() implies plain_entry(#[trigger] entries[i]) by {}
    lemma_payload_roundtrip(entries);
    let te = trimmed_entries(entries);
    assert(te =~= seq![
        ("sid"@, trim(b.sid)),
        ("participant_id"@, trim(b.participant_id)),
        ("public_key"@, b.public_key),
    ]);
    reveal_with_fuel(payload_get, 4);
}

/// A publish request built by a member of the group is accepted by any
/// endpoint of the group when its public key is valid: the endpoint reads the
/// trimmed participant id, address and key and the port, and acknowledges
/// with the participant id. Excluded are fields with line feeds, on which the
/// request does not read back.
pub proof fn lemma_publish_accepted(
    b: ServiceInfo,
    request: SignedEnvelope,
    p: PublishInfo,
    sender_id: Seq<char>,
    timestamp_secs: u64,
    nonce: Seq<char>,
)
    requires
        normalize_key_spec(p.public_key) is Ok,
        !has_char(p.participant_id, '\n'),
        !has_char(p.address, '\n'),
        !has_char(p.public_key, '\n'),
        signed_with(
            request,
            b.sid,
            b.token,
            sender_id,
            timestamp_secs,
            nonce,
            encode_utf8(payload_text(publish_entries(p))),
        ),
        post_context(request.context, PATH_PUBLISH_PARTICIPANT@),
    ensures
        verify_spec(request, b.token, b.sid) is Ok,
        request_context_matches(request.context, "POST"@, PATH_PUBLISH_PARTICIPANT@),
        publish_payload_spec(request.body@) == Ok::<PublishInfo, TransportErrorInfo>(
            PublishInfo {
                participant_id: trim(p.participant_id),
                address: trim(p.address),
                port: p.port,
                public_key: trim(p.public_key),
            },
        ),
        normalize_key_spec(trim(p.public_key)) is Ok,
{
    lemma_signed_envelope_verifies(request, b.token);
    lemma_transport_keys();
    lemma_decimal_roundtrip(p.port);
    lemma_trim_trim(p.public_key);
    let entries = publish_entries(p);
    assert forall|i: int| 0 <= i < entries.len() implies plain_entry(#[trigger] entries[i]) by {}
    lemma_payload_roundtrip(entries);
    let te = trimmed_entries(entries);
    assert(te =~= seq![
        ("participant_id"@, trim(p.participant_id)),
        ("address"@, trim(p.address)),
        ("port"@, decimal(p.port as nat)),
        ("public_key"@, trim(p.public_key)),
    ]);
    reveal_with_fuel(payload_get, 5);
    assert(normalize_key_spec(trim(p.public_key)) == normalize_key_spec(p.public_key));
}

} // verus!
