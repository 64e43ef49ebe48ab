//! Peer discovery: bootstrap peers from the command line, and signed UDP
//! announcements that add or update peers and ask for a sync.
use vstd::prelude::*;
use crate::auth::{
    lemma_signed_envelope_verifies, nonce_key, prune, has_key, within_window, still_fresh,
    lemma_replay_rejected, verify_spec, AuthError,
    EnvelopeVerifier, MessageContext, SignedEnvelope, VerifierState, envelope_text, hex_encode_sig,
    sign_envelope, signature_bytes, verify_step,
};
use crate::payload::{
    lemma_payload_roundtrip, lemma_plain_key, plain_entry, plain_key, trimmed_entries,
    decimal_string, entry_views, lookup, pair_views, parse_entries, payload_get, payload_pairs,
    payload_text, serialize_entries,
};
use crate::ssh_keys::{
    lemma_normalize_idempotent, lemma_normalized_line, normalize_key_spec, normalize_public_key,
};
use crate::text::{
    chars_equal, chars_of, decimal, find_first, find_last, first_index, last_index,
    lemma_first_index, lemma_last_index, parse_u16, parse_u16_chars, slice_part, string_of,
    trim, trimmed, has_char, is_digit, lemma_decimal_digits, lemma_decimal_roundtrip, lemma_trim_trim,
};
use vstd::utf8::encode_utf8;

verus! {

#[derive(Debug, Clone, PartialEq, Eq)]
pub struct PeerRecord {
    pub participant_id: String,
    pub address: String,
    pub port: u16,
    pub public_key: String,
}

/// The fields of a [`PeerRecord`].
pub struct PeerInfo {
    pub participant_id: Seq<char>,
    pub address: Seq<char>,
    pub port: u16,
    pub public_key: Seq<char>,
}

impl View for PeerRecord {
    type V = PeerInfo;

    open spec fn view(&self) -> PeerInfo {
        PeerInfo {
            participant_id: self.participant_id@,
            address: self.address@,
            port: self.port,
            public_key: self.public_key@,
        }
    }
}

#[derive(Debug, Clone, PartialEq, Eq)]
pub struct DiscoveryAnnouncement {
    pub sid: String,
    pub participant_id: String,
    pub address: String,
    pub port: u16,
    pub public_key: String,
}

/// The fields of a [`DiscoveryAnnouncement`].
pub struct AnnouncementInfo {
    pub sid: Seq<char>,
    pub participant_id: Seq<char>,
    pub address: Seq<char>,
    pub port: u16,
    pub public_key: Seq<char>,
}

impl View for DiscoveryAnnouncement {
    type V = AnnouncementInfo;

    open spec fn view(&self) -> AnnouncementInfo {
        AnnouncementInfo {
            sid: self.sid@,
            participant_id: self.participant_id@,
            address: self.address@,
            port: self.port,
            public_key: self.public_key@,
        }
    }
}

#[derive(Debug, Clone, PartialEq, Eq)]
pub enum DiscoveryEvent {
    Ignored,
    PeerAdded(String),
    PeerUpdated(String),
}

/// A [`DiscoveryEvent`] with its participant as a character sequence.
pub enum EventInfo {
    Ignored,
    PeerAdded(Seq<char>),
    PeerUpdated(Seq<char>),
}

impl View for DiscoveryEvent {
    type V = EventInfo;

    open spec fn view(&self) -> EventInfo {
        match self {
            DiscoveryEvent::Ignored => EventInfo::Ignored,
            DiscoveryEvent::PeerAdded(p) => EventInfo::PeerAdded(p@),
            DiscoveryEvent::PeerUpdated(p) => EventInfo::PeerUpdated(p@),
        }
    }
}

#[derive(Debug, Clone, PartialEq, Eq, Structural)]
pub enum DiscoveryError {
    InvalidAnnouncementPayload,
    InvalidPublicKey,
}

/// The position of the peer with the given participant id.
pub open spec fn peer_index(s: Seq<PeerInfo>, id: Seq<char>) -> Option<int>
    decreases s.len(),
{
    if s.len() == 0 {
        None
    } else {
        match peer_index(s.drop_last(), id) {
            Some(i) => Some(i),
            None => if s.last().participant_id == id {
                Some(s.len() - 1)
            } else {
                None
            },
        }
    }
}

/// The peer with the given participant id.
pub open spec fn peer_lookup(s: Seq<PeerInfo>, id: Seq<char>) -> Option<PeerInfo> {
    match peer_index(s, id) {
        Some(i) => Some(s[i]),
        None => None,
    }
}

/// The peers with `r` stored under its participant id, replacing the peer
/// that had that id.
pub open spec fn peer_insert(s: Seq<PeerInfo>, r: PeerInfo) -> Seq<PeerInfo> {
    match peer_index(s, r.participant_id) {
        Some(i) => s.update(i, r),
        None => s.push(r),
    }
}

/// The found position holds the first peer with the id; without one, no
/// peer has it.
pub proof fn lemma_peer_index(s: Seq<PeerInfo>, id: Seq<char>)
    ensures
        peer_index(s, id) matches Some(i) ==> 0 <= i < s.len() && s[i].participant_id == id
            && forall|j: int| 0 <= j < i ==> (#[trigger] s[j]).participant_id != id,
        peer_index(s, id) is None ==> forall|j: int|
            0 <= j < s.len() ==> (#[trigger] s[j]).participant_id != id,
    decreases s.len(),
{
    if s.len() > 0 {
        lemma_peer_index(s.drop_last(), id);
        assert forall|j: int| 0 <= j < s.len() - 1 implies s.drop_last()[j] == s[j] by {}
    }
}

/// After storing a record, looking up its participant id finds it.
pub proof fn lemma_peer_insert_lookup(s: Seq<PeerInfo>, r: PeerInfo)
    ensures
        peer_lookup(peer_insert(s, r), r.participant_id) == Some(r),
{
    let id = r.participant_id;
    lemma_peer_index(s, id);
    let t = peer_insert(s, r);
    lemma_peer_index(t, id);
    match peer_index(s, id) {
        Some(i) => {
            assert(t[i] == r);
            assert forall|j: int| 0 <= j < i implies (#[trigger] t[j]).participant_id != id by {
                assert(t[j] == s[j]);
            }
        },
        None => {
            assert(t[s.len() as int] == r);
            assert forall|j: int| 0 <= j < s.len() implies (#[trigger] t[j]).participant_id != id by {
                assert(t[j] == s[j]);
            }
        },
    }
}

/// No two peers share a participant id.
pub open spec fn peers_unique(s: Seq<PeerInfo>) -> bool {
    forall|i: int, j: int|
        0 <= i < j < s.len() ==> (#[trigger] s[i]).participant_id != (#[trigger] s[j]).participant_id
}

/// Storing a record keeps the participant ids of the peers unique.
pub proof fn lemma_peer_insert_unique(s: Seq<PeerInfo>, r: PeerInfo)
    requires
        peers_unique(s),
    ensures
        peers_unique(peer_insert(s, r)),
{
    lemma_peer_index(s, r.participant_id);
    let t = peer_insert(s, r);
    match peer_index(s, r.participant_id) {
        Some(k) => {
            assert forall|i: int, j: int| 0 <= i < j < t.len() implies (#[trigger] t[i]).participant_id
                != (#[trigger] t[j]).participant_id by {
                assert(s[i].participant_id != s[j].participant_id);
                if i == k {
                    assert(t[j] == s[j]);
                } else if j == k {
                    assert(t[i] == s[i]);
                } else {
                    assert(t[i] == s[i] && t[j] == s[j]);
                }
            }
        },
        None => {
            assert forall|i: int, j: int| 0 <= i < j < t.len() implies (#[trigger] t[i]).participant_id
                != (#[trigger] t[j]).participant_id by {
                assert(t[i] == s[i]);
                if j < s.len() {
                    assert(t[j] == s[j]);
                    assert(s[i].participant_id != s[j].participant_id);
                } else {
                    assert(t[j] == r);
                }
            }
        },
    }
}

/// The peers known to a discovery engine, keyed by participant id.
pub struct PeerTable {
    records: Vec<PeerRecord>,
}

impl View for PeerTable {
    type V = Seq<PeerInfo>;

    closed spec fn view(&self) -> Seq<PeerInfo> {
        self.records@.map_values(|r: PeerRecord| r@)
    }
}

impl PeerTable {
    fn new() -> (t: Self)
        ensures
            t@ == Seq::<PeerInfo>::empty(),
    {
        let t = PeerTable { records: Vec::new() };
        assert(t@ =~= Seq::<PeerInfo>::empty());
        t
    }

    fn position(&self, key: &[char]) -> (r: Option<usize>)
        ensures
            r matches Some(i) ==> peer_index(self@, key@) == Some(i as int) && i < self@.len()
                && i < self.records@.len(),
            r is None ==> peer_index(self@, key@) is None,
            self@.len() == self.records@.len(),
    {
        proof {
            lemma_peer_index(self@, key@);
        }
        let n = self.records.len();
        for i in 0..n
            invariant
                n == self.records@.len(),
                n == self@.len(),
                forall|j: int| 0 <= j < i ==> (#[trigger] self@[j]).participant_id != key@,
                peer_index(self@, key@) matches Some(k) ==> 0 <= k < n && self@[k].participant_id
                    == key@ && forall|j: int|
                    0 <= j < k ==> (#[trigger] self@[j]).participant_id != key@,
                peer_index(self@, key@) is None ==> forall|j: int|
                    0 <= j < n ==> (#[trigger] self@[j]).participant_id != key@,
        {
            assert(self@[i as int] == self.records@[i as int]@);
            if chars_equal(chars_of(self.records[i].participant_id.as_str()).as_slice(), key) {
                return Some(i);
            }
        }
        None
    }

    /// Whether a peer with this participant id is known.
    pub fn contains_key(&self, key: &str) -> (b: bool)
        ensures
            b == (peer_index(self@, key@) is Some),
    {
        self.position(chars_of(key).as_slice()).is_some()
    }

    /// The peer with this participant id.
    pub fn get(&self, key: &str) -> (r: Option<&PeerRecord>)
        ensures
            match r {
                Some(p) => peer_lookup(self@, key@) == Some(p@),
                None => peer_lookup(self@, key@) is None,
            },
    {
        match self.position(chars_of(key).as_slice()) {
            Some(i) => {
                assert(self@[i as int] == self.records@[i as int]@);
                Some(&self.records[i])
            },
            None => None,
        }
    }

    /// How many peers are known.
    pub fn len(&self) -> (n: usize)
        ensures
            n == self@.len(),
    {
        self.records.len()
    }

    /// Stores a record under its participant id; says whether one was there.
    fn insert(&mut self, record: PeerRecord) -> (existed: bool)
        ensures
            final(self)@ == peer_insert(old(self)@, record@),
            existed == (peer_index(old(self)@, record@.participant_id) is Some),
    {
        let id = chars_of(record.participant_id.as_str());
        match self.position(id.as_slice()) {
            Some(i) => {
                let ghost before = self@;
                self.records.set(i, record);
                assert(self@ =~= before.update(i as int, record@));
                true
            },
            None => {
                let ghost before = self@;
                self.records.push(record);
                assert(self@ =~= before.push(record@));
                false
            },
        }
    }
}

/// What reading a bootstrap peer entry gives: `participant@host:port`, or
/// `host:port` which then also serves as the participant id; the port is
/// after the last `:`.
pub open spec fn bootstrap_peer_spec(value: Seq<char>) -> Option<(Seq<char>, Seq<char>, u16)> {
    let t = trim(value);
    if t.len() == 0 {
        None
    } else {
        let (id, host_port) = match first_index(t, '@') {
            Some(i) => (trim(t.take(i)), trim(t.skip(i + 1))),
            None => (t, t),
        };
        match last_index(host_port, ':') {
            None => None,
            Some(j) => match parse_u16(trim(host_port.skip(j + 1))) {
                None => None,
                Some(port) => {
                    let address = trim(host_port.take(j));
                    if address.len() == 0 {
                        None
                    } else {
                        Some((id, address, port))
                    }
                },
            },
        }
    }
}

/// One bootstrap entry applied to the peers and the sync trigger: a readable
/// entry is stored with no public key, and a new participant sets the trigger.
pub open spec fn bootstrap_step(st: (Seq<PeerInfo>, bool), value: Seq<char>) -> (
    Seq<PeerInfo>,
    bool,
) {
    match bootstrap_peer_spec(value) {
        None => st,
        Some((id, address, port)) => (
            peer_insert(
                st.0,
                PeerInfo { participant_id: id, address, port, public_key: seq![] },
            ),
            st.1 || peer_index(st.0, id) is None,
        ),
    }
}

/// All bootstrap entries applied in order.
pub open spec fn bootstrap_all(st: (Seq<PeerInfo>, bool), values: Seq<Seq<char>>) -> (
    Seq<PeerInfo>,
    bool,
)
    decreases values.len(),
{
    if values.len() == 0 {
        st
    } else {
        bootstrap_step(bootstrap_all(st, values.drop_last()), values.last())
    }
}

/// What reading an announcement body gives.
pub open spec fn announcement_spec(body: Seq<u8>) -> Result<AnnouncementInfo, DiscoveryError> {
    match payload_pairs(body) {
        None => Err(DiscoveryError::InvalidAnnouncementPayload),
        Some(p) => match (
            payload_get(p, "sid"@),
            payload_get(p, "participant_id"@),
            payload_get(p, "address"@),
            payload_get(p, "port"@),
            payload_get(p, "public_key"@),
        ) {
            (Some(sid), Some(id), Some(address), Some(port_text), Some(key)) => match parse_u16(
                port_text,
            ) {
                None => Err(DiscoveryError::InvalidAnnouncementPayload),
                Some(port) => match normalize_key_spec(key) {
                    Err(_) => Err(DiscoveryError::InvalidPublicKey),
                    Ok(public_key) => if sid.len() == 0 || address.len() == 0 {
                        Err(DiscoveryError::InvalidAnnouncementPayload)
                    } else {
                        Ok(
                            AnnouncementInfo {
                                sid,
                                participant_id: id,
                                address,
                                port,
                                public_key,
                            },
                        )
                    },
                },
            },
            _ => Err(DiscoveryError::InvalidAnnouncementPayload),
        },
    }
}

/// The entries of an announcement body.
pub open spec fn announcement_entries(
    sid: Seq<char>,
    participant_id: Seq<char>,
    address: Seq<char>,
    port: u16,
    public_key: Seq<char>,
) -> Seq<(Seq<char>, Seq<char>)> {
    seq![
        ("sid"@, sid),
        ("participant_id"@, participant_id),
        ("address"@, address),
        ("port"@, decimal(port as nat)),
        ("public_key"@, public_key),
    ]
}

/// Whether `e` is the announcement that an engine of group `sid` holding
/// `token` builds for these fields (`key` being the normalised public key).
pub open spec fn announcement_built(
    e: SignedEnvelope,
    sid: Seq<char>,
    token: Seq<char>,
    participant_id: Seq<char>,
    address: Seq<char>,
    port: u16,
    key: Seq<char>,
    timestamp_secs: u64,
    nonce: Seq<char>,
) -> bool {
    &&& e.sid@ == sid
    &&& e.sender_id@ == participant_id
    &&& e.timestamp_secs == timestamp_secs
    &&& e.nonce@ == nonce
    &&& e.context == MessageContext::UdpAnnouncement
    &&& e.body@ == encode_utf8(
        payload_text(announcement_entries(sid, participant_id, address, port, key)),
    )
    &&& e.signature_hex@ == hex_encode_sig(token, envelope_text(e))
}

/// A participant's view of its group: the peers it has learned of, from
/// bootstrap entries and from verified announcements, and whether a sync is due.
pub struct DiscoveryEngine {
    sid: String,
    sid_token: String,
    verifier: EnvelopeVerifier,
    peers: PeerTable,
    sync_trigger_pending: bool,
}

/// The state of a discovery engine.
pub struct EngineState {
    pub sid: Seq<char>,
    pub token: Seq<char>,
    pub verifier: VerifierState,
    pub peers: Seq<PeerInfo>,
    pub sync_trigger_pending: bool,
}

/// An engine's verifier checks for the engine's own group and token, and it
/// holds at most one peer per participant id.
pub open spec fn engine_consistent(v: EngineState) -> bool {
    &&& v.verifier.sid == v.sid
    &&& v.verifier.token == v.token
    &&& peers_unique(v.peers)
}

impl View for DiscoveryEngine {
    type V = EngineState;

    closed spec fn view(&self) -> EngineState {
        EngineState {
            sid: self.sid@,
            token: self.sid_token@,
            verifier: self.verifier@,
            peers: self.peers@,
            sync_trigger_pending: self.sync_trigger_pending,
        }
    }
}

/// The peer record that an announcement describes.
pub open spec fn announced_peer(a: AnnouncementInfo) -> PeerInfo {
    PeerInfo {
        participant_id: a.participant_id,
        address: a.address,
        port: a.port,
        public_key: a.public_key,
    }
}

/// The outcome of processing an announcement at `now` and the next state:
/// announcements of another kind, that fail verification, or that name
/// another group are ignored; a malformed body is an error; a new participant
/// is added and an existing one updated (both set the sync trigger); an
/// unchanged record is ignored.
pub open spec fn process_step(v: EngineState, e: SignedEnvelope, now: u64) -> (
    Result<EventInfo, DiscoveryError>,
    EngineState,
) {
    if !(e.context is UdpAnnouncement) {
        (Ok(EventInfo::Ignored), v)
    } else {
        let (checked, verifier) = verify_step(v.verifier, e, now);
        let v1 = EngineState { verifier, ..v };
        if checked is Err {
            (Ok(EventInfo::Ignored), v1)
        } else {
            match announcement_spec(e.body@) {
                Err(err) => (Err(err), v1),
                Ok(a) => if a.sid != v.sid {
                    (Ok(EventInfo::Ignored), v1)
                } else if trim(a.participant_id).len() == 0 {
                    (Err(DiscoveryError::InvalidAnnouncementPayload), v1)
                } else {
                    let rec = announced_peer(a);
                    let v2 = EngineState {
                        peers: peer_insert(v.peers, rec),
                        sync_trigger_pending: true,
                        ..v1
                    };
                    match peer_lookup(v.peers, a.participant_id) {
                        None => (Ok(EventInfo::PeerAdded(a.participant_id)), v2),
                        Some(old) => if old == rec {
                            (Ok(EventInfo::Ignored), v1)
                        } else {
                            (Ok(EventInfo::PeerUpdated(a.participant_id)), v2)
                        },
                    }
                },
            }
        }
    }
}

fn parse_bootstrap_peer(value: &str) -> (r: Option<(String, String, u16)>)
    ensures
        match r {
            Some((id, address, port)) => bootstrap_peer_spec(value@) == Some((id@, address@, port)),
            None => bootstrap_peer_spec(value@) is None,
        },
{
    let t = trimmed(chars_of(value).as_slice());
    if t.len() == 0 {
        return None;
    }
    proof {
        lemma_first_index(t@, '@');
    }
    let (participant_id, host_port) = match find_first(t.as_slice(), '@') {
        Some(i) => {
            let id = trimmed(slice_part(t.as_slice(), 0, i).as_slice());
            let hp = trimmed(slice_part(t.as_slice(), i + 1, t.len()).as_slice());
            assert(t@.take(i as int) =~= t@.subrange(0, i as int));
            assert(t@.skip(i + 1) =~= t@.subrange(i + 1, t@.len() as int));
            (id, hp)
        },
        None => (slice_part(t.as_slice(), 0, t.len()), slice_part(t.as_slice(), 0, t.len())),
    };
    assert(t@.subrange(0, t@.len() as int) =~= t@);
    proof {
        lemma_last_index(host_port@, ':');
    }
    let j = match find_last(host_port.as_slice(), ':') {
        Some(j) => j,
        None => return None,
    };
    assert(host_port@.skip(j + 1) =~= host_port@.subrange(j + 1, host_port@.len() as int));
    assert(host_port@.take(j as int) =~= host_port@.subrange(0, j as int));
    let port_text = trimmed(slice_part(host_port.as_slice(), j + 1, host_port.len()).as_slice());
    let port = match parse_u16_chars(port_text.as_slice()) {
        Some(p) => p,
        None => return None,
    };
    let address = trimmed(slice_part(host_port.as_slice(), 0, j).as_slice());
    if address.len() == 0 {
        return None;
    }
    Some((string_of(participant_id.as_slice()), string_of(address.as_slice()), port))
}

fn serialize_payload(entries: &[(&str, String)]) -> (b: Vec<u8>)
    ensures
        b@ == encode_utf8(payload_text(entry_views(entries@))),
{
    serialize_entries(entries)
}

fn parse_payload(body: &[u8]) -> (r: Result<Vec<(Vec<char>, Vec<char>)>, DiscoveryError>)
    ensures
        match r {
            Ok(v) => payload_pairs(body@) == Some(pair_views(v@)),
            Err(e) => payload_pairs(body@) is None && e == DiscoveryError::InvalidAnnouncementPayload,
        },
{
    match parse_entries(body) {
        Some(v) => Ok(v),
        None => Err(DiscoveryError::InvalidAnnouncementPayload),
    }
}

fn parse_announcement_payload(body: &[u8]) -> (r: Result<DiscoveryAnnouncement, DiscoveryError>)
    ensures
        match r {
            Ok(a) => announcement_spec(body@) == Ok::<AnnouncementInfo, DiscoveryError>(a@),
            Err(e) => announcement_spec(body@) == Err::<AnnouncementInfo, DiscoveryError>(e),
        },
{
    let payload = parse_payload(body)?;
    let sid = match lookup(&payload, "sid") {
        Some(v) => v,
        None => return Err(DiscoveryError::InvalidAnnouncementPayload),
    };
    let participant_id = match lookup(&payload, "participant_id") {
        Some(v) => v,
        None => return Err(DiscoveryError::InvalidAnnouncementPayload),
    };
    let address = match lookup(&payload, "address") {
        Some(v) => v,
        None => return Err(DiscoveryError::InvalidAnnouncementPayload),
    };
    let port_text = match lookup(&payload, "port") {
        Some(v) => v,
        None => return Err(DiscoveryError::InvalidAnnouncementPayload),
    };
    let port = match parse_u16_chars(chars_of(port_text.as_str()).as_slice()) {
        Some(p) => p,
        None => return Err(DiscoveryError::InvalidAnnouncementPayload),
    };
    let public_key = match lookup(&payload, "public_key") {
        Some(v) => v,
        None => return Err(DiscoveryError::InvalidAnnouncementPayload),
    };
    let public_key = match normalize_public_key(public_key.as_str()) {
        Ok(k) => k,
        Err(_) => return Err(DiscoveryError::InvalidPublicKey),
    };
    if sid.as_str().is_empty() || address.as_str().is_empty() {
        return Err(DiscoveryError::InvalidAnnouncementPayload);
    }
    Ok(DiscoveryAnnouncement { sid, participant_id, address, port, public_key })
}

impl DiscoveryEngine {
    pub fn new(sid: &str, sid_token: &str, timestamp_skew_secs: u64, nonce_ttl_secs: u64) -> (r:
        Self)
        ensures
            r@.sid == sid@,
            r@.token == sid_token@,
            r@.verifier.token == sid_token@,
            r@.verifier.sid == sid@,
            r@.verifier.skew == timestamp_skew_secs,
            r@.verifier.ttl == nonce_ttl_secs,
            r@.verifier.seen == Seq::<(Seq<char>, u64)>::empty(),
            r@.peers == Seq::<PeerInfo>::empty(),
            !r@.sync_trigger_pending,
            engine_consistent(r@),
    {
        DiscoveryEngine {
            sid: string_of(chars_of(sid).as_slice()),
            sid_token: string_of(chars_of(sid_token).as_slice()),
            verifier: EnvelopeVerifier::new(sid_token, sid, timestamp_skew_secs, nonce_ttl_secs),
            peers: PeerTable::new(),
            sync_trigger_pending: false,
        }
    }

    /// Adds the readable bootstrap entries (unreadable ones are skipped); a
    /// participant that was not known sets the sync trigger.
    pub fn add_bootstrap_peers(&mut self, bootstrap_peers: &[String])
        ensures
            (final(self)@.peers, final(self)@.sync_trigger_pending) == bootstrap_all(
                (old(self)@.peers, old(self)@.sync_trigger_pending),
                bootstrap_peers@.map_values(|s: String| s@),
            ),
            final(self)@.sid == old(self)@.sid,
            final(self)@.token == old(self)@.token,
            final(self)@.verifier == old(self)@.verifier,
            engine_consistent(old(self)@) ==> engine_consistent(final(self)@),
    {
        let n = bootstrap_peers.len();
        let ghost all = bootstrap_peers@.map_values(|s: String| s@);
        let ghost start = (self@.peers, self@.sync_trigger_pending);
        assert(all.take(0) =~= Seq::<Seq<char>>::empty());
        for i in 0..n
            invariant
                n == bootstrap_peers@.len(),
                all == bootstrap_peers@.map_values(|s: String| s@),
                (self@.peers, self@.sync_trigger_pending) == bootstrap_all(start, all.take(i as int)),
                self@.sid == old(self)@.sid,
                self@.token == old(self)@.token,
                self@.verifier == old(self)@.verifier,
                engine_consistent(old(self)@) ==> peers_unique(self@.peers),
        {
            proof {
                assert(all.take(i + 1).drop_last() =~= all.take(i as int));
                assert(all.take(i + 1).last() == bootstrap_peers@[i as int]@);
            }
            match parse_bootstrap_peer(bootstrap_peers[i].as_str()) {
                None => {},
                Some((participant_id, address, port)) => {
                    let record = PeerRecord {
                        participant_id,
                        address,
                        port,
                        public_key: string_of(Vec::<char>::new().as_slice()),
                    };
                    proof {
                        if engine_consistent(old(self)@) {
                            lemma_peer_insert_unique(self@.peers, record@);
                        }
                    }
                    if !self.peers.insert(record) {
                        self.sync_trigger_pending = true;
                    }
                },
            }
        }
        assert(all.take(n as int) =~= all);
    }

    /// Builds this node's signed announcement of its address, port and
    /// normalised public key.
    pub fn build_startup_announcement(
        &self,
        participant_id: &str,
        address: &str,
        port: u16,
        public_key: &str,
        timestamp_secs: u64,
        nonce: &str,
    ) -> (r: Result<SignedEnvelope, DiscoveryError>)
        ensures
            match r {
                Ok(e) => normalize_key_spec(public_key@) is Ok && announcement_built(
                    e,
                    self@.sid,
                    self@.token,
                    participant_id@,
                    address@,
                    port,
                    normalize_key_spec(public_key@)->Ok_0,
                    timestamp_secs,
                    nonce@,
                ),
                Err(err) => normalize_key_spec(public_key@) is Err && err
                    == DiscoveryError::InvalidPublicKey,
            },
    {
        let normalized = match normalize_public_key(public_key) {
            Ok(k) => k,
            Err(_) => return Err(DiscoveryError::InvalidPublicKey),
        };
        let entries = vec![
            ("sid", self.sid.clone()),
            ("participant_id", string_of(chars_of(participant_id).as_slice())),
            ("address", string_of(chars_of(address).as_slice())),
            ("port", decimal_string(port as u64)),
            ("public_key", normalized),
        ];
        let ghost ev = entry_views(entries@);
        assert(entries@.len() == 5);
        assert(ev[0] == ("sid"@, self@.sid));
        assert(ev[1] == ("participant_id"@, participant_id@));
        assert(ev[2] == ("address"@, address@));
        assert(ev[3] == ("port"@, decimal(port as nat)));
        assert(ev[4] == ("public_key"@, normalize_key_spec(public_key@)->Ok_0));
        assert(entry_views(entries@) =~= announcement_entries(
            self@.sid,
            participant_id@,
            address@,
            port,
            normalize_key_spec(public_key@)->Ok_0,
        ));
        let body = serialize_payload(entries.as_slice());
        Ok(
            sign_envelope(
                self.sid.as_str(),
                self.sid_token.as_str(),
                participant_id,
                timestamp_secs,
                nonce,
                MessageContext::UdpAnnouncement,
                body.as_slice(),
            ),
        )
    }

    /// Processes a received announcement at `now_secs`, as `process_step`
    /// says.
    pub fn process_announcement(&mut self, envelope: &SignedEnvelope, now_secs: u64) -> (r: Result<
        DiscoveryEvent,
        DiscoveryError,
    >)
        ensures
            final(self)@ == process_step(old(self)@, *envelope, now_secs).1,
            engine_consistent(old(self)@) ==> engine_consistent(final(self)@),
            match r {
                Ok(ev) => process_step(old(self)@, *envelope, now_secs).0 == Ok::<
                    EventInfo,
                    DiscoveryError,
                >(ev@),
                Err(err) => process_step(old(self)@, *envelope, now_secs).0 == Err::<
                    EventInfo,
                    DiscoveryError,
                >(err),
            },
    {
        match &envelope.context {
            MessageContext::UdpAnnouncement => {},
            _ => return Ok(DiscoveryEvent::Ignored),
        }
        if self.verifier.verify(envelope, now_secs).is_err() {
            return Ok(DiscoveryEvent::Ignored);
        }
        let announcement = parse_announcement_payload(envelope.body.as_slice())?;
        if !chars_equal(
            chars_of(announcement.sid.as_str()).as_slice(),
            chars_of(self.sid.as_str()).as_slice(),
        ) {
            return Ok(DiscoveryEvent::Ignored);
        }
        if trimmed(chars_of(announcement.participant_id.as_str()).as_slice()).len() == 0 {
            return Err(DiscoveryError::InvalidAnnouncementPayload);
        }
        let participant_id = announcement.participant_id.clone();
        let key = chars_of(participant_id.as_str());
        let new_record = PeerRecord {
            participant_id: announcement.participant_id,
            address: announcement.address,
            port: announcement.port,
            public_key: announcement.public_key,
        };
        let event = match self.peers.position(key.as_slice()) {
            None => DiscoveryEvent::PeerAdded(participant_id),
            Some(i) => {
                assert(self.peers@[i as int] == self.peers.records@[i as int]@);
                if peer_records_equal(&self.peers.records[i], &new_record) {
                    DiscoveryEvent::Ignored
                } else {
                    DiscoveryEvent::PeerUpdated(participant_id)
                }
            },
        };
        match event {
            DiscoveryEvent::Ignored => {},
            _ => {
                proof {
                    if engine_consistent(old(self)@) {
                        lemma_peer_insert_unique(self@.peers, new_record@);
                    }
                }
                self.peers.insert(new_record);
                self.sync_trigger_pending = true;
            },
        }
        Ok(event)
    }

    /// Takes the sync trigger: says whether it was set and clears it.
    pub fn take_sync_trigger(&mut self) -> (b: bool)
        ensures
            b == old(self)@.sync_trigger_pending,
            final(self)@ == (EngineState { sync_trigger_pending: false, ..old(self)@ }),
    {
        if self.sync_trigger_pending {
            self.sync_trigger_pending = false;
            true
        } else {
            false
        }
    }

    pub fn peers(&self) -> (p: &PeerTable)
        ensures
            p@ == self@.peers,
    {
        &self.peers
    }
}

fn peer_records_equal(a: &PeerRecord, b: &PeerRecord) -> (r: bool)
    ensures
        r == (a@ == b@),
{
    chars_equal(chars_of(a.participant_id.as_str()).as_slice(), chars_of(b.participant_id.as_str()).as_slice())
        && chars_equal(chars_of(a.address.as_str()).as_slice(), chars_of(b.address.as_str()).as_slice())
        && a.port == b.port
        && chars_equal(chars_of(a.public_key.as_str()).as_slice(), chars_of(b.public_key.as_str()).as_slice())
}

proof fn lemma_announcement_keys()
    ensures
        plain_key("sid"@),
        plain_key("participant_id"@),
        plain_key("address"@),
        plain_key("port"@),
        plain_key("public_key"@),
        "sid"@ != "participant_id"@,
        "sid"@ != "address"@,
        "sid"@ != "port"@,
        "sid"@ != "public_key"@,
        "participant_id"@ != "address"@,
        "participant_id"@ != "port"@,
        "participant_id"@ != "public_key"@,
        "address"@ != "port"@,
        "address"@ != "public_key"@,
        "port"@ != "public_key"@,
{
    reveal_strlit("sid");
    reveal_strlit("participant_id");
    reveal_strlit("address");
    reveal_strlit("port");
    reveal_strlit("public_key");
    lemma_plain_key("sid"@);
    lemma_plain_key("participant_id"@);
    lemma_plain_key("address"@);
    lemma_plain_key("port"@);
    lemma_plain_key("public_key"@);
}

/// What reading an announcement built for these fields gives: the group, the
/// trimmed participant id and address, the port and the key.
proof fn lemma_announcement_readback(
    sid: Seq<char>,
    participant_id: Seq<char>,
    address: Seq<char>,
    port: u16,
    key_input: Seq<char>,
)
    requires
        normalize_key_spec(key_input) is Ok,
        trim(sid) == sid,
        sid.len() > 0,
        !has_char(sid, '\n'),
        !has_char(participant_id, '\n'),
        !has_char(address, '\n'),
        trim(address).len() > 0,
    ensures
        announcement_spec(
            encode_utf8(
                payload_text(
                    announcement_entries(
                        sid,
                        participant_id,
                        address,
                        port,
                        normalize_key_spec(key_input)->Ok_0,
                    ),
                ),
            ),
        ) == Ok::<AnnouncementInfo, DiscoveryError>(
            AnnouncementInfo {
                sid,
                participant_id: trim(participant_id),
                address: trim(address),
                port,
                public_key: normalize_key_spec(key_input)->Ok_0,
            },
        ),
{
    let key = normalize_key_spec(key_input)->Ok_0;
    let entries = announcement_entries(sid, participant_id, address, port, key);
    lemma_announcement_keys();
    lemma_decimal_roundtrip(port);
    lemma_normalized_line(key_input);
    lemma_normalize_idempotent(key_input);
    assert forall|i: int| 0 <= i < entries.len() implies plain_entry(#[trigger] entries[i]) by {}
    lemma_payload_roundtrip(entries);
    let te = trimmed_entries(entries);
    assert(te =~= seq![
        ("sid"@, sid),
        ("participant_id"@, trim(participant_id)),
        ("address"@, trim(address)),
        ("port"@, decimal(port as nat)),
        ("public_key"@, key),
    ]);
    reveal_with_fuel(payload_get, 6);
}

/// An announcement built by a member of the receiver's group, arriving within
/// the timestamp window with a nonce the receiver does not remember, is
/// accepted: the receiver then holds the announced peer under its trimmed
/// participant id, and reports it as added, updated, or (when the same
/// record was already held) ignored. Excluded are a group id that is not its
/// own trim or is empty, fields with line feeds, and a blank participant id
/// or address, on which the announcement does not read back.
pub proof fn lemma_announcement_accepted(
    r: EngineState,
    e: SignedEnvelope,
    token: Seq<char>,
    participant_id: Seq<char>,
    address: Seq<char>,
    port: u16,
    key_input: Seq<char>,
    timestamp_secs: u64,
    nonce: Seq<char>,
    now: u64,
)
    requires
        engine_consistent(r),
        r.token == token,
        normalize_key_spec(key_input) is Ok,
        announcement_built(
            e,
            r.sid,
            token,
            participant_id,
            address,
            port,
            normalize_key_spec(key_input)->Ok_0,
            timestamp_secs,
            nonce,
        ),
        trim(r.sid) == r.sid,
        r.sid.len() > 0,
        !has_char(r.sid, '\n'),
        !has_char(participant_id, '\n'),
        !has_char(address, '\n'),
        trim(participant_id).len() > 0,
        trim(address).len() > 0,
        within_window(timestamp_secs, now, r.verifier.skew),
        !has_key(prune(r.verifier.seen, now, r.verifier.ttl), nonce_key(e)),
    ensures
        ({
            let (res, after) = process_step(r, e, now);
            let id = trim(participant_id);
            let rec = PeerInfo {
                participant_id: id,
                address: trim(address),
                port,
                public_key: normalize_key_spec(key_input)->Ok_0,
            };
            &&& peer_lookup(after.peers, id) == Some(rec)
            &&& res == Ok::<EventInfo, DiscoveryError>(
                match peer_lookup(r.peers, id) {
                    None => EventInfo::PeerAdded(id),
                    Some(old) => if old == rec {
                        EventInfo::Ignored
                    } else {
                        EventInfo::PeerUpdated(id)
                    },
                },
            )
            &&& (res != Ok::<EventInfo, DiscoveryError>(EventInfo::Ignored) ==> after.sync_trigger_pending)
        }),
{
    lemma_signed_envelope_verifies(e, token);
    lemma_announcement_readback(r.sid, participant_id, address, port, key_input);
    lemma_trim_trim(participant_id);
    let id = trim(participant_id);
    let rec = PeerInfo {
        participant_id: id,
        address: trim(address),
        port,
        public_key: normalize_key_spec(key_input)->Ok_0,
    };
    lemma_peer_insert_lookup(r.peers, rec);
}

/// An announcement for another group is ignored and changes neither the
/// peers nor the sync trigger.
pub proof fn lemma_other_group_ignored(r: EngineState, e: SignedEnvelope, now: u64)
    requires
        e.sid@ != r.verifier.sid,
    ensures
        process_step(r, e, now).0 == Ok::<EventInfo, DiscoveryError>(EventInfo::Ignored),
        process_step(r, e, now).1.peers == r.peers,
        process_step(r, e, now).1.sync_trigger_pending == r.sync_trigger_pending,
{
}

/// A replayed announcement, while its nonce is remembered, is ignored and
/// changes neither the peers nor the sync trigger.
pub proof fn lemma_replayed_announcement_ignored(r: EngineState, e: SignedEnvelope, t1: u64, t2: u64)
    requires
        e.context == MessageContext::UdpAnnouncement,
        verify_step(r.verifier, e, t1).0 is Ok,
        within_window(e.timestamp_secs, t2, r.verifier.skew),
        still_fresh(t1, t2, r.verifier.ttl),
    ensures
        ({
            let first = process_step(r, e, t1).1;
            let second = process_step(first, e, t2);
            &&& second.0 == Ok::<EventInfo, DiscoveryError>(EventInfo::Ignored)
            &&& second.1.peers == first.peers
            &&& second.1.sync_trigger_pending == first.sync_trigger_pending
        }),
{
    lemma_replay_rejected(r.verifier, e, t1, t2);
}

/// What processing an announcement does to the peers and the sync trigger:
/// an ignored or refused announcement changes neither; an added peer was not
/// known and an updated one was known with another record, and in both cases
/// the announced record is stored under its participant id and a sync is
/// pending; a verified announcement of the record already held is ignored.
pub proof fn lemma_process_outcomes(r: EngineState, e: SignedEnvelope, now: u64)
    ensures
        ({
            let st = process_step(r, e, now);
            let res = st.0;
            let w = st.1;
            let a = announcement_spec(e.body@)->Ok_0;
            &&& (res == Ok::<EventInfo, DiscoveryError>(EventInfo::Ignored) || res is Err) ==> (
            w.peers == r.peers && w.sync_trigger_pending == r.sync_trigger_pending)
            &&& res matches Ok(EventInfo::PeerAdded(id)) ==> {
                &&& announcement_spec(e.body@) is Ok
                &&& id == a.participant_id
                &&& peer_lookup(r.peers, id) is None
                &&& w.peers == peer_insert(r.peers, announced_peer(a))
                &&& w.sync_trigger_pending
            }
            &&& res matches Ok(EventInfo::PeerUpdated(id)) ==> {
                &&& announcement_spec(e.body@) is Ok
                &&& id == a.participant_id
                &&& peer_lookup(r.peers, id) is Some
                &&& peer_lookup(r.peers, id) != Some(announced_peer(a))
                &&& w.peers == peer_insert(r.peers, announced_peer(a))
                &&& w.sync_trigger_pending
            }
            &&& (e.context is UdpAnnouncement && verify_step(r.verifier, e, now).0 is Ok
                && announcement_spec(e.body@) is Ok && a.sid == r.sid && trim(
                a.participant_id,
            ).len() > 0 && peer_lookup(r.peers, a.participant_id) == Some(announced_peer(a)))
                ==> res == Ok::<EventInfo, DiscoveryError>(EventInfo::Ignored)
        }),
{
}

proof fn lemma_host_port(hp: Seq<char>, h: Seq<char>, p: u16)
    requires
        hp == h + seq![':'] + decimal(p as nat),
    ensures
        last_index(hp, ':') == Some(h.len() as int),
        hp.take(h.len() as int) == h,
        parse_u16(trim(hp.skip(h.len() as int + 1))) == Some(p),
        forall|k: int| h.len() < k < hp.len() ==> is_digit(#[trigger] hp[k]),
{
    let d = decimal(p as nat);
    lemma_decimal_digits(p as nat);
    lemma_decimal_roundtrip(p);
    lemma_last_index(hp, ':');
    assert(hp[h.len() as int] == ':');
    assert forall|k: int| h.len() < k < hp.len() implies is_digit(#[trigger] hp[k]) by {
        assert(hp[k] == d[k - h.len() - 1]);
    }
    match last_index(hp, ':') {
        Some(i) => {
            if i > h.len() {
                assert(is_digit(hp[i]));
            }
        },
        None => {},
    }
    assert(hp.take(h.len() as int) =~= h);
    assert(hp.skip(h.len() as int + 1) =~= d);
}

/// A bootstrap entry without a participant id, `host:port` once trimmed,
/// names the peer by the whole trimmed entry and gives the trimmed text before
/// the last `:` as its address and the number after it as its port.
pub proof fn lemma_bootstrap_without_participant(v: Seq<char>, h: Seq<char>, p: u16)
    requires
        trim(v) == h + seq![':'] + decimal(p as nat),
        !has_char(h, '@'),
        trim(h).len() > 0,
    ensures
        bootstrap_peer_spec(v) == Some((trim(v), trim(h), p)),
{
    let t = trim(v);
    lemma_host_port(t, h, p);
    lemma_first_index(t, '@');
    if first_index(t, '@') is Some {
        let i = first_index(t, '@')->0;
        if i < h.len() {
            assert(t[i] == h[i]);
        } else if i > h.len() {
            assert(is_digit(t[i]));
        }
    }
}

/// A bootstrap entry `id@host:port` names the peer by the trimmed text before
/// the first `@`, and gives the trimmed text between it and the last `:` as
/// the address and the number after that `:` as the port.
pub proof fn lemma_bootstrap_with_participant(
    v: Seq<char>,
    id: Seq<char>,
    rest: Seq<char>,
    h: Seq<char>,
    p: u16,
)
    requires
        trim(v) == id + seq!['@'] + rest,
        !has_char(id, '@'),
        trim(rest) == h + seq![':'] + decimal(p as nat),
        trim(h).len() > 0,
    ensures
        bootstrap_peer_spec(v) == Some((trim(id), trim(h), p)),
{
    let t = trim(v);
    lemma_first_index(t, '@');
    assert(t[id.len() as int] == '@');
    if first_index(t, '@') is Some {
        let i = first_index(t, '@')->0;
        if i < id.len() {
            assert(t[i] == id[i]);
        }
    }
    assert(t.take(id.len() as int) =~= id);
    assert(t.skip(id.len() as int + 1) =~= rest);
    lemma_host_port(trim(rest), h, p);
}

} // verus!
