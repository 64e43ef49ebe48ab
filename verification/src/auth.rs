//! Signed envelopes: every message carries an HMAC-SHA-256 signature under the
//! group's secret token over a canonical text of its fields, and a verifier
//! that also checks the timestamp window and rejects replayed nonces.
use vstd::prelude::*;
use crate::crypto::{
    hmac_sha256, hmac_sha256_matches, hmac_sha256_tag, sha256, sha256_digest, to_uppercase,
    uppercase,
};
use crate::hex::{decode_hex, encode_hex, hex_decode, hex_encode, lemma_hex_roundtrip};
use crate::text::{
    append_chars, chars_equal, chars_of, decimal, lemma_decimal_digits, push_decimal, slice_part,
    string_of, utf8_bytes,
};
use vstd::utf8::encode_utf8;

verus! {

/// What a signature is bound to besides the payload.
#[derive(Debug, Clone, PartialEq, Eq)]
pub enum MessageContext {
    HttpRequest { method: String, path: String },
    HttpResponse { status_code: u16, path: String },
    UdpAnnouncement,
}

/// A message with the fields that its signature covers.
#[derive(Debug, Clone, PartialEq, Eq)]
pub struct SignedEnvelope {
    pub sid: String,
    pub sender_id: String,
    pub timestamp_secs: u64,
    pub nonce: String,
    pub context: MessageContext,
    pub body: Vec<u8>,
    pub signature_hex: String,
}

#[derive(Debug, Clone, PartialEq, Eq, Structural)]
pub enum AuthError {
    SidMismatch,
    InvalidSignatureEncoding,
    InvalidSignature,
    TimestampOutsideWindow,
    ReplayNonce,
}

pub open spec fn newline() -> Seq<char> {
    seq!['\n']
}

/// The text that stands for a context in the signed payload.
pub open spec fn context_text(c: MessageContext) -> Seq<char> {
    match c {
        MessageContext::HttpRequest { method, path } => "http_request:"@ + to_uppercase(method@)
            + seq![':'] + path@,
        MessageContext::HttpResponse { status_code, path } => "http_response:"@ + decimal(
            status_code as nat,
        ) + seq![':'] + path@,
        MessageContext::UdpAnnouncement => "udp_announcement"@,
    }
}

/// The text that is signed: the fields one per line, the body as the hex of
/// its SHA-256 digest.
pub open spec fn canonical_text(
    sid: Seq<char>,
    sender_id: Seq<char>,
    timestamp_secs: u64,
    nonce: Seq<char>,
    context: MessageContext,
    body: Seq<u8>,
) -> Seq<char> {
    sid + newline() + sender_id + newline() + decimal(timestamp_secs as nat) + newline() + nonce
        + newline() + context_text(context) + newline() + hex_encode(sha256(body))
}

/// The signature bytes of a canonical text under a token.
pub open spec fn signature_bytes(token: Seq<char>, canonical: Seq<char>) -> Seq<u8> {
    hmac_sha256(encode_utf8(token), encode_utf8(canonical))
}

/// The hex signature of a canonical text under a token.
pub open spec fn hex_encode_sig(token: Seq<char>, canonical: Seq<char>) -> Seq<char> {
    hex_encode(signature_bytes(token, canonical))
}

/// The canonical text of an envelope's own fields.
pub open spec fn envelope_text(e: SignedEnvelope) -> Seq<char> {
    canonical_text(e.sid@, e.sender_id@, e.timestamp_secs, e.nonce@, e.context, e.body@)
}

/// What checking an envelope against a token and a group gives.
pub open spec fn verify_spec(e: SignedEnvelope, token: Seq<char>, sid: Seq<char>) -> Result<
    (),
    AuthError,
> {
    if e.sid@ != sid {
        Err(AuthError::SidMismatch)
    } else {
        match hex_decode(e.signature_hex@) {
            None => Err(AuthError::InvalidSignatureEncoding),
            Some(sig) => if sig == signature_bytes(token, envelope_text(e)) {
                Ok(())
            } else {
                Err(AuthError::InvalidSignature)
            },
        }
    }
}

fn canonical_context(context: &MessageContext) -> (r: Vec<char>)
    ensures
        r@ == context_text(*context),
{
    match context {
        MessageContext::HttpRequest { method, path } => {
            let mut r = chars_of("http_request:");
            append_chars(&mut r, chars_of(uppercase(method.as_str()).as_str()).as_slice());
            r.push(':');
            append_chars(&mut r, chars_of(path.as_str()).as_slice());
            assert(r@ =~= context_text(*context));
            r
        },
        MessageContext::HttpResponse { status_code, path } => {
            let mut r = chars_of("http_response:");
            push_decimal(&mut r, *status_code as u64);
            r.push(':');
            append_chars(&mut r, chars_of(path.as_str()).as_slice());
            assert(r@ =~= context_text(*context));
            r
        },
        MessageContext::UdpAnnouncement => chars_of("udp_announcement"),
    }
}

/// The hex of the SHA-256 digest of a body.
fn hash_body_hex(body: &[u8]) -> (r: Vec<char>)
    ensures
        r@ == hex_encode(sha256(body@)),
{
    encode_hex(sha256_digest(body).as_slice())
}

fn canonical_payload(
    sid: &str,
    sender_id: &str,
    timestamp_secs: u64,
    nonce: &str,
    context: &MessageContext,
    body: &[u8],
) -> (r: Vec<char>)
    ensures
        r@ == canonical_text(sid@, sender_id@, timestamp_secs, nonce@, *context, body@),
{
    let mut r = chars_of(sid);
    r.push('\n');
    append_chars(&mut r, chars_of(sender_id).as_slice());
    r.push('\n');
    push_decimal(&mut r, timestamp_secs);
    r.push('\n');
    append_chars(&mut r, chars_of(nonce).as_slice());
    r.push('\n');
    append_chars(&mut r, canonical_context(context).as_slice());
    r.push('\n');
    append_chars(&mut r, hash_body_hex(body).as_slice());
    assert(r@ =~= canonical_text(sid@, sender_id@, timestamp_secs, nonce@, *context, body@));
    r
}

fn hmac_signature_hex(sid_token: &str, payload: &[char]) -> (r: String)
    ensures
        r@ == hex_encode(signature_bytes(sid_token@, payload@)),
{
    let text = string_of(payload);
    let tag = hmac_sha256_tag(utf8_bytes(sid_token).as_slice(), utf8_bytes(text.as_str()).as_slice());
    string_of(encode_hex(tag.as_slice()).as_slice())
}

/// Signs a message: the envelope holds the given fields and the hex signature
/// of their canonical text under `sid_token`.
pub fn sign_envelope(
    sid: &str,
    sid_token: &str,
    sender_id: &str,
    timestamp_secs: u64,
    nonce: &str,
    context: MessageContext,
    body: &[u8],
) -> (e: SignedEnvelope)
    ensures
        e.sid@ == sid@,
        e.sender_id@ == sender_id@,
        e.timestamp_secs == timestamp_secs,
        e.nonce@ == nonce@,
        e.context == context,
        e.body@ == body@,
        e.signature_hex@ == hex_encode(signature_bytes(sid_token@, envelope_text(e))),
{
    let canonical = canonical_payload(sid, sender_id, timestamp_secs, nonce, &context, body);
    let signature_hex = hmac_signature_hex(sid_token, canonical.as_slice());
    SignedEnvelope {
        sid: string_of(chars_of(sid).as_slice()),
        sender_id: string_of(chars_of(sender_id).as_slice()),
        timestamp_secs,
        nonce: string_of(chars_of(nonce).as_slice()),
        context,
        body: vstd::slice::slice_to_vec(body),
        signature_hex,
    }
}

/// Checks that an envelope belongs to `expected_sid` and carries a valid
/// signature under `sid_token`.
pub fn verify_envelope(envelope: &SignedEnvelope, sid_token: &str, expected_sid: &str) -> (r:
    Result<(), AuthError>)
    ensures
        r == verify_spec(*envelope, sid_token@, expected_sid@),
{
    if !chars_equal(chars_of(envelope.sid.as_str()).as_slice(), chars_of(expected_sid).as_slice()) {
        return Err(AuthError::SidMismatch);
    }
    let signature = match decode_hex(chars_of(envelope.signature_hex.as_str()).as_slice()) {
        Some(s) => s,
        None => return Err(AuthError::InvalidSignatureEncoding),
    };
    let canonical = canonical_payload(
        envelope.sid.as_str(),
        envelope.sender_id.as_str(),
        envelope.timestamp_secs,
        envelope.nonce.as_str(),
        &envelope.context,
        envelope.body.as_slice(),
    );
    let text = string_of(canonical.as_slice());
    if hmac_sha256_matches(
        utf8_bytes(sid_token).as_slice(),
        utf8_bytes(text.as_str()).as_slice(),
        signature.as_slice(),
    ) {
        Ok(())
    } else {
        Err(AuthError::InvalidSignature)
    }
}

/// An envelope signed with a token verifies under that token and its group.
pub proof fn lemma_signed_envelope_verifies(e: SignedEnvelope, token: Seq<char>)
    requires
        e.signature_hex@ == hex_encode(signature_bytes(token, envelope_text(e))),
    ensures
        verify_spec(e, token, e.sid@) == Ok::<(), AuthError>(()),
{
    lemma_hex_roundtrip(signature_bytes(token, envelope_text(e)));
}

/// Signing is deterministic: two envelopes with the same fields, each signed
/// under the same token, carry the same signature.
pub proof fn lemma_signature_stable(e1: SignedEnvelope, e2: SignedEnvelope, token: Seq<char>)
    requires
        e1.sid@ == e2.sid@,
        e1.sender_id@ == e2.sender_id@,
        e1.timestamp_secs == e2.timestamp_secs,
        e1.nonce@ == e2.nonce@,
        e1.context == e2.context,
        e1.body@ == e2.body@,
        e1.signature_hex@ == hex_encode_sig(token, envelope_text(e1)),
        e2.signature_hex@ == hex_encode_sig(token, envelope_text(e2)),
    ensures
        e1.signature_hex@ == e2.signature_hex@,
{
    assert(envelope_text(e1) == envelope_text(e2));
}

/// Whether two contexts are of the same kind (request, response, announcement).
pub open spec fn same_kind(c1: MessageContext, c2: MessageContext) -> bool {
    &&& (c1 is HttpRequest <==> c2 is HttpRequest)
    &&& (c1 is HttpResponse <==> c2 is HttpResponse)
}

/// The character of a context's text at `k`, which tells the kinds apart.
proof fn lemma_context_marker(c: MessageContext)
    ensures
        context_text(c).len() > 7,
        c is UdpAnnouncement ==> context_text(c)[0] == 'u',
        !(c is UdpAnnouncement) ==> context_text(c)[0] == 'h',
        c is HttpRequest ==> context_text(c)[7] == 'q',
        c is HttpResponse ==> context_text(c)[7] == 's',
{
    reveal_strlit("http_request:");
    reveal_strlit("http_response:");
    reveal_strlit("udp_announcement");
}

proof fn lemma_middle_cancel(a: Seq<char>, m1: Seq<char>, m2: Seq<char>, b: Seq<char>)
    requires
        a + m1 + b == a + m2 + b,
    ensures
        m1 == m2,
{
    let x1 = a + m1 + b;
    let x2 = a + m2 + b;
    assert(x1.len() == (a + m1).len() + b.len());
    assert(x2.len() == (a + m2).len() + b.len());
    assert(x1.len() == x2.len());
    assert(m1.len() == m2.len());
    assert forall|k: int| 0 <= k < m1.len() implies m1[k] == m2[k] by {
        assert((a + m1 + b)[a.len() + k] == m1[k]);
        assert((a + m2 + b)[a.len() + k] == m2[k]);
    }
    assert(m1 =~= m2);
}

proof fn lemma_decimal_injective(n1: nat, n2: nat)
    requires
        decimal(n1) == decimal(n2),
    ensures
        n1 == n2,
{
    lemma_decimal_digits(n1);
    lemma_decimal_digits(n2);
}

/// The signed text covers the timestamp: envelopes whose fields agree but
/// whose timestamps differ are signed over different texts, so an envelope
/// whose timestamp was changed after signing no longer matches its signature
/// text.
pub proof fn lemma_timestamp_is_signed(e1: SignedEnvelope, e2: SignedEnvelope)
    requires
        e1.sid@ == e2.sid@,
        e1.sender_id@ == e2.sender_id@,
        e1.nonce@ == e2.nonce@,
        e1.context == e2.context,
        e1.body@ == e2.body@,
        e1.timestamp_secs != e2.timestamp_secs,
    ensures
        envelope_text(e1) != envelope_text(e2),
{
    let a = e1.sid@ + newline() + e1.sender_id@ + newline();
    let b = newline() + e1.nonce@ + newline() + context_text(e1.context) + newline() + hex_encode(
        sha256(e1.body@),
    );
    let d1 = decimal(e1.timestamp_secs as nat);
    let d2 = decimal(e2.timestamp_secs as nat);
    assert(envelope_text(e1) =~= a + d1 + b);
    assert(envelope_text(e2) =~= a + d2 + b);
    if envelope_text(e1) == envelope_text(e2) {
        lemma_middle_cancel(a, d1, d2, b);
        lemma_decimal_injective(e1.timestamp_secs as nat, e2.timestamp_secs as nat);
    }
}

/// The signed text covers the context: envelopes whose fields agree but whose
/// context texts differ are signed over different texts.
pub proof fn lemma_context_is_signed(e1: SignedEnvelope, e2: SignedEnvelope)
    requires
        e1.sid@ == e2.sid@,
        e1.sender_id@ == e2.sender_id@,
        e1.timestamp_secs == e2.timestamp_secs,
        e1.nonce@ == e2.nonce@,
        e1.body@ == e2.body@,
        context_text(e1.context) != context_text(e2.context),
    ensures
        envelope_text(e1) != envelope_text(e2),
{
    let a = e1.sid@ + newline() + e1.sender_id@ + newline() + decimal(e1.timestamp_secs as nat)
        + newline() + e1.nonce@ + newline();
    let b = newline() + hex_encode(sha256(e1.body@));
    let c1 = context_text(e1.context);
    let c2 = context_text(e2.context);
    assert(envelope_text(e1) =~= a + c1 + b);
    assert(envelope_text(e2) =~= a + c2 + b);
    if envelope_text(e1) == envelope_text(e2) {
        lemma_middle_cancel(a, c1, c2, b);
    }
}

/// The signed text covers a request's path: requests with the same method
/// (up to what upper-casing makes equal) and different paths, whose other
/// fields agree, are signed over different texts.
pub proof fn lemma_request_path_is_signed(
    e1: SignedEnvelope,
    e2: SignedEnvelope,
    m1: String,
    m2: String,
    p1: String,
    p2: String,
)
    requires
        e1.sid@ == e2.sid@,
        e1.sender_id@ == e2.sender_id@,
        e1.timestamp_secs == e2.timestamp_secs,
        e1.nonce@ == e2.nonce@,
        e1.body@ == e2.body@,
        e1.context == (MessageContext::HttpRequest { method: m1, path: p1 }),
        e2.context == (MessageContext::HttpRequest { method: m2, path: p2 }),
        to_uppercase(m1@) == to_uppercase(m2@),
        p1@ != p2@,
    ensures
        context_text(e1.context) != context_text(e2.context),
        envelope_text(e1) != envelope_text(e2),
{
    let x = "http_request:"@ + to_uppercase(m1@) + seq![':'];
    assert(context_text(e1.context) =~= x + p1@ + Seq::<char>::empty());
    assert(context_text(e2.context) =~= x + p2@ + Seq::<char>::empty());
    if context_text(e1.context) == context_text(e2.context) {
        lemma_middle_cancel(x, p1@, p2@, Seq::<char>::empty());
    }
    lemma_context_is_signed(e1, e2);
}

/// The signed text covers a response's status code: responses for the same
/// path with different status codes, whose other fields agree, are signed
/// over different texts.
pub proof fn lemma_response_status_is_signed(
    e1: SignedEnvelope,
    e2: SignedEnvelope,
    s1: u16,
    s2: u16,
    p1: String,
    p2: String,
)
    requires
        e1.sid@ == e2.sid@,
        e1.sender_id@ == e2.sender_id@,
        e1.timestamp_secs == e2.timestamp_secs,
        e1.nonce@ == e2.nonce@,
        e1.body@ == e2.body@,
        e1.context == (MessageContext::HttpResponse { status_code: s1, path: p1 }),
        e2.context == (MessageContext::HttpResponse { status_code: s2, path: p2 }),
        p1@ == p2@,
        s1 != s2,
    ensures
        context_text(e1.context) != context_text(e2.context),
        envelope_text(e1) != envelope_text(e2),
{
    let a = "http_response:"@;
    let b = seq![':'] + p1@;
    let d1 = decimal(s1 as nat);
    let d2 = decimal(s2 as nat);
    assert(context_text(e1.context) =~= a + d1 + b);
    assert(context_text(e2.context) =~= a + d2 + b);
    if context_text(e1.context) == context_text(e2.context) {
        lemma_middle_cancel(a, d1, d2, b);
        lemma_decimal_injective(s1 as nat, s2 as nat);
    }
    lemma_context_is_signed(e1, e2);
}

/// Envelopes whose fields agree but whose contexts are of different kinds are
/// signed over different canonical texts.
pub proof fn lemma_context_kinds_distinguish(e1: SignedEnvelope, e2: SignedEnvelope)
    requires
        e1.sid@ == e2.sid@,
        e1.sender_id@ == e2.sender_id@,
        e1.timestamp_secs == e2.timestamp_secs,
        e1.nonce@ == e2.nonce@,
        e1.body@ == e2.body@,
        !same_kind(e1.context, e2.context),
    ensures
        envelope_text(e1) != envelope_text(e2),
{
    let a = e1.sid@ + newline() + e1.sender_id@ + newline() + decimal(e1.timestamp_secs as nat)
        + newline() + e1.nonce@ + newline();
    let c1 = context_text(e1.context);
    let c2 = context_text(e2.context);
    let tail = newline() + hex_encode(sha256(e1.body@));
    lemma_context_marker(e1.context);
    lemma_context_marker(e2.context);
    assert(envelope_text(e1) =~= a + (c1 + tail));
    assert(envelope_text(e2) =~= a + (c2 + tail));
    let k: int = if e1.context is UdpAnnouncement || e2.context is UdpAnnouncement {
        0
    } else {
        7
    };
    assert(c1[k] != c2[k]);
    assert((a + (c1 + tail))[a.len() + k] == c1[k]);
    assert((a + (c2 + tail))[a.len() + k] == c2[k]);
}

struct SeenNonce {
    key: Vec<char>,
    seen_at: u64,
}

/// Verifies envelopes for one group and remembers the nonces it accepted.
pub struct EnvelopeVerifier {
    sid_token: String,
    expected_sid: String,
    timestamp_skew_secs: u64,
    nonce_ttl_secs: u64,
    seen_nonces: Vec<SeenNonce>,
}

/// The state of a verifier: its token, group, allowed clock skew, how long a
/// nonce is remembered, and the remembered `(sender:nonce, accepted at)` pairs
/// in the order they were accepted.
pub struct VerifierState {
    pub token: Seq<char>,
    pub sid: Seq<char>,
    pub skew: u64,
    pub ttl: u64,
    pub seen: Seq<(Seq<char>, u64)>,
}

impl View for EnvelopeVerifier {
    type V = VerifierState;

    closed spec fn view(&self) -> VerifierState {
        VerifierState {
            token: self.sid_token@,
            sid: self.expected_sid@,
            skew: self.timestamp_skew_secs,
            ttl: self.nonce_ttl_secs,
            seen: self.seen_nonces@.map_values(|n: SeenNonce| (n.key@, n.seen_at)),
        }
    }
}

/// The replay key of an envelope: its sender and nonce joined by `:`.
pub open spec fn nonce_key(e: SignedEnvelope) -> Seq<char> {
    e.sender_id@ + seq![':'] + e.nonce@
}

/// Whether a timestamp lies within `skew` of `now` (bounds saturate).
pub open spec fn within_window(timestamp: u64, now: u64, skew: u64) -> bool {
    now.saturating_sub(skew) <= timestamp <= now.saturating_add(skew)
}

/// Whether a nonce accepted at `seen_at` is still remembered at `now`.
pub open spec fn still_fresh(seen_at: u64, now: u64, ttl: u64) -> bool {
    now.saturating_sub(seen_at) <= ttl
}

/// The remembered pairs that are still fresh at `now`, in order.
pub open spec fn prune(seen: Seq<(Seq<char>, u64)>, now: u64, ttl: u64) -> Seq<(Seq<char>, u64)>
    decreases seen.len(),
{
    if seen.len() == 0 {
        seq![]
    } else {
        let p = prune(seen.drop_last(), now, ttl);
        if still_fresh(seen.last().1, now, ttl) {
            p.push(seen.last())
        } else {
            p
        }
    }
}

/// Whether some remembered pair has the given key.
pub open spec fn has_key(seen: Seq<(Seq<char>, u64)>, key: Seq<char>) -> bool {
    exists|i: int| 0 <= i < seen.len() && #[trigger] seen[i].0 == key
}

/// One verification step: the result and the verifier's next state.
pub open spec fn verify_step(v: VerifierState, e: SignedEnvelope, now: u64) -> (
    Result<(), AuthError>,
    VerifierState,
) {
    let base = verify_spec(e, v.token, v.sid);
    if base is Err {
        (base, v)
    } else if !within_window(e.timestamp_secs, now, v.skew) {
        (Err(AuthError::TimestampOutsideWindow), v)
    } else {
        let kept = prune(v.seen, now, v.ttl);
        let key = nonce_key(e);
        if has_key(kept, key) {
            (Err(AuthError::ReplayNonce), VerifierState { seen: kept, ..v })
        } else {
            (Ok(()), VerifierState { seen: kept.push((key, now)), ..v })
        }
    }
}

impl EnvelopeVerifier {
    pub fn new(sid_token: &str, expected_sid: &str, timestamp_skew_secs: u64, nonce_ttl_secs: u64) -> (r:
        Self)
        ensures
            r@.token == sid_token@,
            r@.sid == expected_sid@,
            r@.skew == timestamp_skew_secs,
            r@.ttl == nonce_ttl_secs,
            r@.seen == Seq::<(Seq<char>, u64)>::empty(),
    {
        let r = EnvelopeVerifier {
            sid_token: string_of(chars_of(sid_token).as_slice()),
            expected_sid: string_of(chars_of(expected_sid).as_slice()),
            timestamp_skew_secs,
            nonce_ttl_secs,
            seen_nonces: Vec::new(),
        };
        assert(r@.seen =~= Seq::<(Seq<char>, u64)>::empty());
        r
    }

    /// Verifies an envelope at time `now_secs`: its signature, its timestamp
    /// window and that its nonce was not accepted within the nonce lifetime.
    pub fn verify(&mut self, envelope: &SignedEnvelope, now_secs: u64) -> (r: Result<(), AuthError>)
        ensures
            (r, final(self)@) == verify_step(old(self)@, *envelope, now_secs),
    {
        let base = verify_envelope(envelope, self.sid_token.as_str(), self.expected_sid.as_str());
        if base.is_err() {
            return base;
        }
        let earliest = now_secs.saturating_sub(self.timestamp_skew_secs);
        let latest = now_secs.saturating_add(self.timestamp_skew_secs);
        if envelope.timestamp_secs < earliest || envelope.timestamp_secs > latest {
            return Err(AuthError::TimestampOutsideWindow);
        }
        self.prune_nonces(now_secs);
        let mut key = chars_of(envelope.sender_id.as_str());
        key.push(':');
        append_chars(&mut key, chars_of(envelope.nonce.as_str()).as_slice());
        assert(key@ =~= nonce_key(*envelope));
        if self.contains_nonce(key.as_slice()) {
            return Err(AuthError::ReplayNonce);
        }
        let ghost before = self@.seen;
        self.seen_nonces.push(SeenNonce { key, seen_at: now_secs });
        assert(self@.seen =~= before.push((nonce_key(*envelope), now_secs)));
        Ok(())
    }

    fn contains_nonce(&self, key: &[char]) -> (b: bool)
        ensures
            b == has_key(self@.seen, key@),
    {
        let n = self.seen_nonces.len();
        for i in 0..n
            invariant
                n == self.seen_nonces@.len(),
                forall|j: int| 0 <= j < i ==> self@.seen[j].0 != key@,
        {
            if chars_equal(self.seen_nonces[i].key.as_slice(), key) {
                assert(self@.seen[i as int].0 == key@);
                return true;
            }
        }
        false
    }

    fn prune_nonces(&mut self, now_secs: u64)
        ensures
            final(self)@ == (VerifierState { seen: prune(old(self)@.seen, now_secs, old(self)@.ttl), ..old(self)@ }),
    {
        let ttl = self.nonce_ttl_secs;
        let mut kept: Vec<SeenNonce> = Vec::new();
        let n = self.seen_nonces.len();
        let ghost all = self@.seen;
        for i in 0..n
            invariant
                n == self.seen_nonces@.len(),
                ttl == self.nonce_ttl_secs,
                all == self@.seen,
                kept@.map_values(|x: SeenNonce| (x.key@, x.seen_at)) == prune(all.take(i as int), now_secs, ttl),
        {
            let seen_at = self.seen_nonces[i].seen_at;
            proof {
                assert(all.take(i + 1).drop_last() =~= all.take(i as int));
                assert(all.take(i + 1).last() == all[i as int]);
            }
            if now_secs.saturating_sub(seen_at) <= ttl {
                let k = self.seen_nonces[i].key.as_slice();
                let copy = slice_part(k, 0, k.len());
                assert(copy@ =~= k@);
                let ghost before = kept@.map_values(|x: SeenNonce| (x.key@, x.seen_at));
                kept.push(SeenNonce { key: copy, seen_at });
                assert(kept@.map_values(|x: SeenNonce| (x.key@, x.seen_at)) =~= before.push(all[i as int]));
            }
        }
        assert(all.take(n as int) =~= all);
        self.seen_nonces = kept;
    }
}

/// A nonce accepted at `t1` is rejected as a replay at any `t2` at which it
/// is still remembered, when the envelope otherwise verifies at `t2`.
pub proof fn lemma_replay_rejected(v: VerifierState, e: SignedEnvelope, t1: u64, t2: u64)
    requires
        verify_step(v, e, t1).0 == Ok::<(), AuthError>(()),
        within_window(e.timestamp_secs, t2, v.skew),
        still_fresh(t1, t2, v.ttl),
    ensures
        verify_step(verify_step(v, e, t1).1, e, t2).0 == Err::<(), AuthError>(AuthError::ReplayNonce),
{
    let v1 = verify_step(v, e, t1).1;
    let kept1 = prune(v.seen, t1, v.ttl);
    assert(v1.seen == kept1.push((nonce_key(e), t1)));
    let kept2 = prune(v1.seen, t2, v.ttl);
    assert(v1.seen.drop_last() =~= kept1);
    assert(kept2.last() == (nonce_key(e), t1));
    assert(kept2[kept2.len() - 1].0 == nonce_key(e));
}

proof fn lemma_prune_keys(seen: Seq<(Seq<char>, u64)>, now: u64, ttl: u64, key: Seq<char>)
    requires
        !has_key(seen, key),
    ensures
        !has_key(prune(seen, now, ttl), key),
    decreases seen.len(),
{
    if seen.len() > 0 {
        let init = seen.drop_last();
        assert forall|i: int| 0 <= i < init.len() implies #[trigger] init[i].0 != key by {
            assert(init[i] == seen[i]);
        }
        lemma_prune_keys(init, now, ttl, key);
        let p = prune(init, now, ttl);
        if still_fresh(seen.last().1, now, ttl) {
            assert(seen[seen.len() - 1].0 != key);
            assert forall|i: int| 0 <= i < p.push(seen.last()).len() implies #[trigger] p.push(
                seen.last(),
            )[i].0 != key by {
                if i < p.len() {
                    assert(p.push(seen.last())[i] == p[i]);
                }
            }
        }
    }
}

/// No two remembered pairs share a key.
pub open spec fn nonces_unique(seen: Seq<(Seq<char>, u64)>) -> bool {
    forall|i: int, j: int| 0 <= i < j < seen.len() ==> (#[trigger] seen[i]).0 != (#[trigger] seen[j]).0
}

proof fn lemma_prune_unique(seen: Seq<(Seq<char>, u64)>, now: u64, ttl: u64)
    requires
        nonces_unique(seen),
    ensures
        nonces_unique(prune(seen, now, ttl)),
    decreases seen.len(),
{
    if seen.len() > 0 {
        let init = seen.drop_last();
        let last = seen.last();
        assert forall|i: int, j: int| 0 <= i < j < init.len() implies (#[trigger] init[i]).0
            != (#[trigger] init[j]).0 by {
            assert(init[i] == seen[i] && init[j] == seen[j]);
        }
        lemma_prune_unique(init, now, ttl);
        if still_fresh(last.1, now, ttl) {
            assert forall|i: int| 0 <= i < init.len() implies #[trigger] init[i].0 != last.0 by {
                assert(init[i] == seen[i]);
                assert(seen[i].0 != seen[seen.len() - 1].0);
            }
            lemma_prune_keys(init, now, ttl, last.0);
            let p = prune(init, now, ttl);
            let q = p.push(last);
            assert forall|i: int, j: int| 0 <= i < j < q.len() implies (#[trigger] q[i]).0
                != (#[trigger] q[j]).0 by {
                assert(q[i] == p[i]);
                if j < p.len() {
                    assert(q[j] == p[j]);
                } else {
                    assert(q[j] == last);
                    assert(p[i].0 != last.0);
                }
            }
        }
    }
}

/// Verifying keeps the remembered nonce keys free of repeats, as the keys of
/// a map are.
pub proof fn lemma_verify_keeps_nonces_unique(v: VerifierState, e: SignedEnvelope, now: u64)
    requires
        nonces_unique(v.seen),
    ensures
        nonces_unique(verify_step(v, e, now).1.seen),
{
    lemma_prune_unique(v.seen, now, v.ttl);
    let kept = prune(v.seen, now, v.ttl);
    let key = nonce_key(e);
    if verify_step(v, e, now).0 is Ok {
        assert(!has_key(kept, key));
        let q = kept.push((key, now));
        assert forall|i: int, j: int| 0 <= i < j < q.len() implies (#[trigger] q[i]).0
            != (#[trigger] q[j]).0 by {
            assert(q[i] == kept[i]);
            if j < kept.len() {
                assert(q[j] == kept[j]);
            } else {
                assert(kept[i].0 != key);
            }
        }
    }
}

/// The verifier's state after the calls `(envelope, time)` in order.
pub open spec fn run_verifier(v: VerifierState, calls: Seq<(SignedEnvelope, u64)>) -> VerifierState
    decreases calls.len(),
{
    if calls.len() == 0 {
        v
    } else {
        verify_step(run_verifier(v, calls.drop_last()), calls.last().0, calls.last().1).1
    }
}

/// The results of the calls `(envelope, time)` in order.
pub open spec fn verify_results(v: VerifierState, calls: Seq<(SignedEnvelope, u64)>) -> Seq<
    Result<(), AuthError>,
>
    decreases calls.len(),
{
    if calls.len() == 0 {
        seq![]
    } else {
        let prev = calls.drop_last();
        verify_results(v, prev).push(
            verify_step(run_verifier(v, prev), calls.last().0, calls.last().1).0,
        )
    }
}

/// The `(sender:nonce, time)` pairs of the calls that were accepted, in order.
pub open spec fn accepted_history(v: VerifierState, calls: Seq<(SignedEnvelope, u64)>) -> Seq<
    (Seq<char>, u64),
>
    decreases calls.len(),
{
    if calls.len() == 0 {
        seq![]
    } else {
        let prev = calls.drop_last();
        let h = accepted_history(v, prev);
        if verify_step(run_verifier(v, prev), calls.last().0, calls.last().1).0 is Ok {
            h.push((nonce_key(calls.last().0), calls.last().1))
        } else {
            h
        }
    }
}

/// Whether no call comes after `now`.
pub open spec fn times_at_most(calls: Seq<(SignedEnvelope, u64)>, now: u64) -> bool {
    forall|i: int| 0 <= i < calls.len() ==> (#[trigger] calls[i]).1 <= now
}

/// Whether some pair with this key is still fresh at `now`.
pub open spec fn remembered(s: Seq<(Seq<char>, u64)>, key: Seq<char>, now: u64, ttl: u64) -> bool {
    exists|i: int| 0 <= i < s.len() && #[trigger] s[i].0 == key && still_fresh(s[i].1, now, ttl)
}

/// What a call at `now` answers, given the pairs the verifier started with
/// and those it accepted since: the envelope's own check, then the timestamp
/// window, then whether an accepted pair with its key is still fresh.
pub open spec fn history_result(
    v: VerifierState,
    accepted: Seq<(Seq<char>, u64)>,
    e: SignedEnvelope,
    now: u64,
) -> Result<(), AuthError> {
    let base = verify_spec(e, v.token, v.sid);
    if base is Err {
        base
    } else if !within_window(e.timestamp_secs, now, v.skew) {
        Err(AuthError::TimestampOutsideWindow)
    } else if remembered(v.seen + accepted, nonce_key(e), now, v.ttl) {
        Err(AuthError::ReplayNonce)
    } else {
        Ok(())
    }
}

proof fn lemma_run_config(v: VerifierState, calls: Seq<(SignedEnvelope, u64)>)
    ensures
        run_verifier(v, calls).token == v.token,
        run_verifier(v, calls).sid == v.sid,
        run_verifier(v, calls).skew == v.skew,
        run_verifier(v, calls).ttl == v.ttl,
    decreases calls.len(),
{
    if calls.len() > 0 {
        lemma_run_config(v, calls.drop_last());
    }
}

proof fn lemma_prune_prune(s: Seq<(Seq<char>, u64)>, t1: u64, t2: u64, ttl: u64)
    requires
        t1 <= t2,
    ensures
        prune(prune(s, t1, ttl), t2, ttl) == prune(s, t2, ttl),
    decreases s.len(),
{
    if s.len() > 0 {
        let init = s.drop_last();
        lemma_prune_prune(init, t1, t2, ttl);
        let p = prune(init, t1, ttl);
        if still_fresh(s.last().1, t1, ttl) {
            assert(p.push(s.last()).drop_last() =~= p);
        }
    }
}

proof fn lemma_prune_has_key(s: Seq<(Seq<char>, u64)>, now: u64, ttl: u64, key: Seq<char>)
    ensures
        has_key(prune(s, now, ttl), key) == remembered(s, key, now, ttl),
    decreases s.len(),
{
    if s.len() > 0 {
        let init = s.drop_last();
        let last = s.last();
        lemma_prune_has_key(init, now, ttl, key);
        let p = prune(init, now, ttl);
        if remembered(init, key, now, ttl) {
            let i = choose|i: int|
                0 <= i < init.len() && #[trigger] init[i].0 == key && still_fresh(init[i].1, now, ttl);
            assert(s[i] == init[i]);
        }
        if remembered(s, key, now, ttl) {
            let i = choose|i: int|
                0 <= i < s.len() && #[trigger] s[i].0 == key && still_fresh(s[i].1, now, ttl);
            if i < init.len() {
                assert(init[i] == s[i]);
            }
        }
        if still_fresh(last.1, now, ttl) {
            let q = p.push(last);
            if has_key(p, key) {
                let j = choose|j: int| 0 <= j < p.len() && #[trigger] p[j].0 == key;
                assert(q[j] == p[j]);
            }
            if has_key(q, key) {
                let j = choose|j: int| 0 <= j < q.len() && #[trigger] q[j].0 == key;
                if j < p.len() {
                    assert(q[j] == p[j]);
                } else {
                    assert(q[j] == last);
                    assert(s[s.len() - 1] == last);
                }
            }
            if last.0 == key {
                assert(q[p.len() as int] == last);
                assert(s[s.len() - 1] == last);
            }
        }
    }
}

/// What the verifier remembers after a run, as far as a time no earlier than
/// any call can tell: the pairs it started with and those it accepted.
proof fn lemma_run_memory(v: VerifierState, calls: Seq<(SignedEnvelope, u64)>, now: u64)
    requires
        times_at_most(calls, now),
    ensures
        prune(run_verifier(v, calls).seen, now, v.ttl) == prune(
            v.seen + accepted_history(v, calls),
            now,
            v.ttl,
        ),
    decreases calls.len(),
{
    if calls.len() > 0 {
        let prev = calls.drop_last();
        let (e, t) = calls.last();
        assert(calls[calls.len() - 1].1 <= now);
        assert(times_at_most(prev, now)) by {
            assert forall|i: int| 0 <= i < prev.len() implies (#[trigger] prev[i]).1 <= now by {
                assert(prev[i] == calls[i]);
            }
        }
        lemma_run_memory(v, prev, now);
        lemma_run_config(v, prev);
        let u = run_verifier(v, prev);
        let h = accepted_history(v, prev);
        let step = verify_step(u, e, t);
        let kept = prune(u.seen, t, u.ttl);
        if step.0 is Ok {
            let x = (nonce_key(e), t);
            lemma_prune_prune(u.seen, t, now, v.ttl);
            assert(kept.push(x).drop_last() =~= kept);
            assert((v.seen + h).push(x).drop_last() =~= v.seen + h);
            assert(v.seen + h.push(x) =~= (v.seen + h).push(x));
        } else if step.0 == Err::<(), AuthError>(AuthError::ReplayNonce) {
            lemma_prune_prune(u.seen, t, now, v.ttl);
        }
    }
}

/// The answer of a verifier to a call, after any earlier calls none of which
/// came later, in whatever order of time: the envelope must check out under the verifier's token and
/// group and lie within the timestamp window of `now`, and no pair that the
/// verifier started with or accepted since (`sender:nonce` and the time of
/// the call) may have the envelope's key and still be fresh at `now`; an
/// accepted call adds its own pair.
pub proof fn lemma_verify_history(
    v: VerifierState,
    calls: Seq<(SignedEnvelope, u64)>,
    e: SignedEnvelope,
    now: u64,
)
    requires
        times_at_most(calls, now),
    ensures
        verify_step(run_verifier(v, calls), e, now).0 == history_result(
            v,
            accepted_history(v, calls),
            e,
            now,
        ),
        accepted_history(v, calls.push((e, now))) == (if verify_step(
            run_verifier(v, calls),
            e,
            now,
        ).0 is Ok {
            accepted_history(v, calls).push((nonce_key(e), now))
        } else {
            accepted_history(v, calls)
        }),
{
    lemma_run_memory(v, calls, now);
    lemma_run_config(v, calls);
    let u = run_verifier(v, calls);
    lemma_prune_has_key(u.seen, now, v.ttl, nonce_key(e));
    lemma_prune_has_key(v.seen + accepted_history(v, calls), now, v.ttl, nonce_key(e));
    assert(calls.push((e, now)).drop_last() =~= calls);
}

proof fn lemma_prune_member(s: Seq<(Seq<char>, u64)>, now: u64, ttl: u64, y: (Seq<char>, u64))
    ensures
        prune(s, now, ttl).contains(y) == (s.contains(y) && still_fresh(y.1, now, ttl)),
    decreases s.len(),
{
    if s.len() > 0 {
        let init = s.drop_last();
        let last = s.last();
        lemma_prune_member(init, now, ttl, y);
        let p = prune(init, now, ttl);
        if init.contains(y) {
            let i = choose|i: int| 0 <= i < init.len() && init[i] == y;
            assert(s[i] == init[i]);
        }
        if s.contains(y) {
            let i = choose|i: int| 0 <= i < s.len() && s[i] == y;
            if i < init.len() {
                assert(init[i] == s[i]);
                assert(init.contains(y));
            }
        }
        if still_fresh(last.1, now, ttl) {
            let q = p.push(last);
            if p.contains(y) {
                let j = choose|j: int| 0 <= j < p.len() && p[j] == y;
                assert(q[j] == p[j]);
            }
            if q.contains(y) {
                let j = choose|j: int| 0 <= j < q.len() && q[j] == y;
                if j < p.len() {
                    assert(q[j] == p[j]);
                    assert(p.contains(y));
                }
            }
            assert(q[p.len() as int] == last);
            assert(s[s.len() - 1] == last);
        } else {
            if s.contains(y) && still_fresh(y.1, now, ttl) {
                let i = choose|i: int| 0 <= i < s.len() && s[i] == y;
                if i == s.len() - 1 {
                    assert(false);
                }
            }
        }
    }
}

/// A pair that the verifier remembers stays while every call is made at a
/// time at which it is still fresh.
proof fn lemma_run_keeps(v: VerifierState, calls: Seq<(SignedEnvelope, u64)>, x: (Seq<char>, u64))
    requires
        v.seen.contains(x),
        forall|i: int| 0 <= i < calls.len() ==> still_fresh(x.1, (#[trigger] calls[i]).1, v.ttl),
    ensures
        run_verifier(v, calls).seen.contains(x),
    decreases calls.len(),
{
    if calls.len() > 0 {
        let prev = calls.drop_last();
        assert forall|i: int| 0 <= i < prev.len() implies still_fresh(
            x.1,
            (#[trigger] prev[i]).1,
            v.ttl,
        ) by {
            assert(prev[i] == calls[i]);
        }
        lemma_run_keeps(v, prev, x);
        lemma_run_config(v, prev);
        let u = run_verifier(v, prev);
        let (e, t) = calls.last();
        assert(still_fresh(x.1, calls[calls.len() - 1].1, v.ttl));
        lemma_prune_member(u.seen, t, v.ttl, x);
        let kept = prune(u.seen, t, v.ttl);
        if verify_step(u, e, t).0 is Ok {
            let j = choose|j: int| 0 <= j < kept.len() && kept[j] == x;
            assert(kept.push((nonce_key(e), t))[j] == x);
        }
    }
}

/// Every pair that the verifier remembers after a run was remembered before
/// it or accepted during it.
proof fn lemma_run_seen_from(
    v: VerifierState,
    calls: Seq<(SignedEnvelope, u64)>,
    y: (Seq<char>, u64),
)
    requires
        run_verifier(v, calls).seen.contains(y),
    ensures
        (v.seen + accepted_history(v, calls)).contains(y),
    decreases calls.len(),
{
    if calls.len() > 0 {
        let prev = calls.drop_last();
        let (e, t) = calls.last();
        let u = run_verifier(v, prev);
        lemma_run_config(v, prev);
        let h = accepted_history(v, prev);
        let step = verify_step(u, e, t);
        let kept = prune(u.seen, t, v.ttl);
        lemma_prune_member(u.seen, t, v.ttl, y);
        if step.0 is Ok {
            let x = (nonce_key(e), t);
            let j = choose|j: int| 0 <= j < kept.push(x).len() && kept.push(x)[j] == y;
            if j < kept.len() {
                assert(kept.push(x)[j] == kept[j]);
                assert(kept.contains(y));
                lemma_run_seen_from(v, prev, y);
                let i = choose|i: int| 0 <= i < (v.seen + h).len() && (v.seen + h)[i] == y;
                assert((v.seen + h.push(x))[i] == y);
            } else {
                assert((v.seen + h.push(x))[(v.seen + h).len() as int] == x);
            }
        } else if step.0 == Err::<(), AuthError>(AuthError::ReplayNonce) {
            lemma_run_seen_from(v, prev, y);
        } else {
            lemma_run_seen_from(v, prev, y);
        }
    }
}

/// An accepted envelope sent again is refused as a replay while its nonce is
/// fresh, whatever calls came in between, as long as each came at a time at
/// which the nonce was still fresh (in particular, at any time before the
/// second sending). Once its nonce has expired, it is accepted again, whatever
/// the times of the calls in between, unless one of them accepted an envelope
/// with the same sender and nonce.
pub proof fn lemma_replay_across_calls(
    v: VerifierState,
    e: SignedEnvelope,
    t1: u64,
    later: Seq<(SignedEnvelope, u64)>,
    t2: u64,
)
    requires
        verify_step(v, e, t1).0 is Ok,
        within_window(e.timestamp_secs, t2, v.skew),
    ensures
        ({
            let v1 = verify_step(v, e, t1).1;
            let w = run_verifier(v1, later);
            &&& (still_fresh(t1, t2, v.ttl) && forall|i: int|
                0 <= i < later.len() ==> still_fresh(t1, (#[trigger] later[i]).1, v.ttl))
                ==> verify_step(w, e, t2).0 == Err::<(), AuthError>(AuthError::ReplayNonce)
            &&& (!still_fresh(t1, t2, v.ttl) && forall|i: int|
                0 <= i < accepted_history(v1, later).len() ==> (#[trigger] accepted_history(
                    v1,
                    later,
                )[i]).0 != nonce_key(e)) ==> verify_step(w, e, t2).0 == Ok::<(), AuthError>(())
        }),
{
    let v1 = verify_step(v, e, t1).1;
    let key = nonce_key(e);
    let x = (key, t1);
    let p = prune(v.seen, t1, v.ttl);
    let h = accepted_history(v1, later);
    let all = v1.seen + h;
    let w = run_verifier(v1, later);
    lemma_run_config(v1, later);
    assert(v1.seen == p.push(x));
    assert(!has_key(p, key));
    assert(verify_spec(e, w.token, w.sid) is Ok);
    let kept = prune(w.seen, t2, v.ttl);
    if still_fresh(t1, t2, v.ttl) && forall|i: int|
        0 <= i < later.len() ==> still_fresh(t1, (#[trigger] later[i]).1, v.ttl) {
        assert(v1.seen[p.len() as int] == x);
        lemma_run_keeps(v1, later, x);
        lemma_prune_member(w.seen, t2, v.ttl, x);
        let j = choose|j: int| 0 <= j < kept.len() && kept[j] == x;
        assert(kept[j].0 == key);
        assert(has_key(kept, key));
    }
    if !still_fresh(t1, t2, v.ttl) && forall|i: int|
        0 <= i < h.len() ==> (#[trigger] h[i]).0 != key {
        if has_key(kept, key) {
            let j = choose|j: int| 0 <= j < kept.len() && #[trigger] kept[j].0 == key;
            let y = kept[j];
            assert(kept.contains(y));
            lemma_prune_member(w.seen, t2, v.ttl, y);
            lemma_run_seen_from(v1, later, y);
            let i = choose|i: int| 0 <= i < all.len() && all[i] == y;
            if i < p.len() {
                assert(all[i] == p[i]);
                assert(p[i].0 == key);
            } else if i == p.len() {
                assert(all[i] == x);
            } else {
                assert(all[i] == h[i - p.len() - 1]);
            }
        }
        assert(!has_key(kept, key));
    }
}

/// Whether two verifiers check alike and remember alike from `from` on.
pub open spec fn same_memory(a: VerifierState, b: VerifierState, from: u64) -> bool {
    &&& a.token == b.token
    &&& a.sid == b.sid
    &&& a.skew == b.skew
    &&& a.ttl == b.ttl
    &&& forall|t: u64| t >= from ==> #[trigger] prune(a.seen, t, a.ttl) == prune(b.seen, t, b.ttl)
}

proof fn lemma_same_memory_step(a: VerifierState, b: VerifierState, from: u64, e: SignedEnvelope, t: u64)
    requires
        same_memory(a, b, from),
        t >= from,
    ensures
        verify_step(a, e, t).0 == verify_step(b, e, t).0,
        same_memory(verify_step(a, e, t).1, verify_step(b, e, t).1, from),
{
    assert(prune(a.seen, t, a.ttl) == prune(b.seen, t, b.ttl));
}

proof fn lemma_same_memory_run(
    a: VerifierState,
    b: VerifierState,
    from: u64,
    calls: Seq<(SignedEnvelope, u64)>,
)
    requires
        same_memory(a, b, from),
        forall|i: int| 0 <= i < calls.len() ==> (#[trigger] calls[i]).1 >= from,
    ensures
        verify_results(a, calls) == verify_results(b, calls),
        same_memory(run_verifier(a, calls), run_verifier(b, calls), from),
    decreases calls.len(),
{
    if calls.len() > 0 {
        let prev = calls.drop_last();
        assert forall|i: int| 0 <= i < prev.len() implies (#[trigger] prev[i]).1 >= from by {
            assert(prev[i] == calls[i]);
        }
        lemma_same_memory_run(a, b, from, prev);
        assert(calls[calls.len() - 1].1 >= from);
        lemma_same_memory_step(
            run_verifier(a, prev),
            run_verifier(b, prev),
            from,
            calls.last().0,
            calls.last().1,
        );
    }
}

/// A refused call changes nothing that later calls could see: every later
/// sequence of calls at times from the refused call's time on gets the same
/// answers, and leaves the verifier remembering the same, as without it.
pub proof fn lemma_refused_call_is_neutral(
    v: VerifierState,
    e: SignedEnvelope,
    now: u64,
    later: Seq<(SignedEnvelope, u64)>,
)
    requires
        verify_step(v, e, now).0 is Err,
        forall|i: int| 0 <= i < later.len() ==> (#[trigger] later[i]).1 >= now,
    ensures
        verify_results(verify_step(v, e, now).1, later) == verify_results(v, later),
        same_memory(
            run_verifier(verify_step(v, e, now).1, later),
            run_verifier(v, later),
            now,
        ),
{
    let v1 = verify_step(v, e, now).1;
    assert forall|t: u64| t >= now implies #[trigger] prune(v1.seen, t, v1.ttl) == prune(
        v.seen,
        t,
        v.ttl,
    ) by {
        lemma_prune_prune(v.seen, now, t, v.ttl);
    }
    lemma_same_memory_run(v1, v, now, later);
}

/// Once a nonce is no longer remembered, the same envelope is accepted again
/// (when it verifies and its timestamp is within the window).
pub proof fn lemma_accepted_after_ttl(v: VerifierState, e: SignedEnvelope, t1: u64, t2: u64)
    requires
        verify_step(v, e, t1).0 == Ok::<(), AuthError>(()),
        within_window(e.timestamp_secs, t2, v.skew),
        !still_fresh(t1, t2, v.ttl),
    ensures
        verify_step(verify_step(v, e, t1).1, e, t2).0 == Ok::<(), AuthError>(()),
{
    let v1 = verify_step(v, e, t1).1;
    let kept1 = prune(v.seen, t1, v.ttl);
    assert(v1.seen == kept1.push((nonce_key(e), t1)));
    assert(v1.seen.drop_last() =~= kept1);
    lemma_prune_keys(kept1, t2, v.ttl, nonce_key(e));
    assert(prune(v1.seen, t2, v.ttl) == prune(kept1, t2, v.ttl));
}

} // verus!
