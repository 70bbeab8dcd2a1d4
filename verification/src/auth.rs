//! Sessions: one peer's side of a pending signaling exchange,
//! identified by a 32-character bearer token.

use vstd::prelude::*;
use vstd::pervasive::unreached;

use crate::db::{
    dec_str, dec_to_u64, dec_val, is_dec, u64_to_dec, BucketInfo, Data, Metadata, RecordBody,
};
use crate::poll::{is_ice_terminator, Signal};
use crate::room::{Room, RoomInfo};

verus! {

/// Grace allowed beyond `next_poll` before a session counts as dead.
pub const GRACE_PERIOD: u64 = 20;

/// Hard ceiling on a session's lifetime, from its creation.
pub const MAX_CONNECTION: u64 = 3600;

/// Advisory delay until the first poll after `ident`.
pub const FIRST_POLL: u64 = 1;

/// Advisory poll delay while the session still waits for a peer.
pub const POLL: u64 = 10;

/// Grace granted past the peer's next poll when fixing the connect
/// instant.
pub const CONNECT: u64 = 5;

/// Advisory poll delay once a peer is known and signals flow.
pub const FAST_POLL: u64 = 1;

/// A session record.
pub type Auth = Data<AuthData, AuthMetadata, AuthInfo>;

pub struct AuthInfo {}

impl BucketInfo for AuthInfo {
    open spec fn spec_prefix() -> Seq<char> {
        "auth"@
    }

    open spec fn spec_key_length() -> u8 {
        32
    }

    fn prefix() -> (r: &'static str) {
        "auth"
    }

    fn key_length() -> (r: u8) {
        32
    }
}

/// The persisted body of a session.
pub struct AuthData {
    /// This side has enqueued its (single) SDP signal.
    pub sent_sdp: bool,
    /// This side has enqueued its ICE terminator.
    pub ice_done: bool,
    /// Outbound signals, append-only for the session's lifetime.
    pub queue: Vec<Signal>,
    /// How many of the peer's queue entries this side has consumed.
    pub read: usize,
    /// The agreed instant for the P2P handshake, once fixed.
    pub connect_at: Option<u64>,
    /// The `JoinRoom` control signal has been delivered to the client.
    pub sent_join: bool,
    /// The `ConnectAt` control signal has been delivered to the client.
    pub read_connect: bool,
}

/// The mathematical value of a session body.
#[verifier::ext_equal]
pub ghost struct AuthDataV {
    pub sent_sdp: bool,
    pub ice_done: bool,
    pub queue: Seq<Signal>,
    pub read: int,
    pub connect_at: Option<u64>,
    pub sent_join: bool,
    pub read_connect: bool,
}

impl View for AuthData {
    type V = AuthDataV;

    open spec fn view(&self) -> AuthDataV {
        AuthDataV {
            sent_sdp: self.sent_sdp,
            ice_done: self.ice_done,
            queue: self.queue@,
            read: self.read as int,
            connect_at: self.connect_at,
            sent_join: self.sent_join,
            read_connect: self.read_connect,
        }
    }
}

/// A freshly created session body: nothing sent, nothing read.
pub open spec fn fresh_auth_data() -> AuthDataV {
    AuthDataV {
        sent_sdp: false,
        ice_done: false,
        queue: Seq::empty(),
        read: 0,
        connect_at: None,
        sent_join: false,
        read_connect: false,
    }
}

impl RecordBody for AuthData {
    open spec fn is_fresh(&self) -> bool {
        self@ == fresh_auth_data()
    }

    fn fresh() -> (r: Self) {
        let r = AuthData {
            sent_sdp: false,
            ice_done: false,
            queue: Vec::new(),
            read: 0,
            connect_at: None,
            sent_join: false,
            read_connect: false,
        };
        proof {
            assert(r@ =~= fresh_auth_data());
        }
        r
    }
}

/// The persisted metadata of a session. Timestamps are seconds since
/// the epoch.
pub struct AuthMetadata {
    /// Hard expiry: creation time plus `MAX_CONNECTION`.
    pub kill_at: u64,
    /// Advisory next-poll instant; also the base of the liveness grace.
    pub next_poll: u64,
    /// The room this session joined, if any.
    pub room: Option<String>,
    /// The counterpart session's token, once pairing resolved.
    pub peer: Option<String>,
    /// The service tag the client asserted, gating room joins.
    pub service: Option<String>,
}

/// The stored form of an optional string: absent becomes empty.
pub open spec fn opt_str_view(o: Option<String>) -> Seq<char> {
    match o {
        Some(s) => s@,
        None => Seq::empty(),
    }
}

/// An optional string as read back: empty means absent.
pub open spec fn opt_of(v: Option<String>) -> Option<String> {
    match v {
        Some(s) => if s@.len() == 0 {
            None
        } else {
            Some(s)
        },
        None => None,
    }
}

/// The first value stored under a key in a flat metadata map.
pub open spec fn lookup(pairs: Seq<(String, String)>, key: Seq<char>) -> Option<String>
    decreases pairs.len(),
{
    if pairs.len() == 0 {
        None
    } else if pairs[0].0@ == key {
        Some(pairs[0].1)
    } else {
        lookup(pairs.drop_first(), key)
    }
}

/// A stored timestamp field: present and decimal with a value in
/// range.
pub open spec fn ts_ok(v: Option<String>) -> bool {
    v matches Some(s) && is_dec(s@) && dec_val(s@) <= u64::MAX
}

impl Metadata for AuthMetadata {
    open spec fn is_fresh(&self, now: u64) -> bool {
        &&& self.kill_at == now + MAX_CONNECTION
        &&& self.next_poll == now + FIRST_POLL
        &&& self.room is None
        &&& self.peer is None
        &&& self.service is None
    }

    open spec fn decode_spec(pairs: Seq<(String, String)>) -> Option<AuthMetadata> {
        let k = lookup(pairs, "kill_at"@);
        let p = lookup(pairs, "next_poll"@);
        if ts_ok(k) && ts_ok(p) {
            Some(
                AuthMetadata {
                    kill_at: dec_val(k->Some_0@) as u64,
                    next_poll: dec_val(p->Some_0@) as u64,
                    room: opt_of(lookup(pairs, "room"@)),
                    peer: opt_of(lookup(pairs, "peer"@)),
                    service: opt_of(lookup(pairs, "service"@)),
                },
            )
        } else {
            None
        }
    }

    open spec fn encodes(&self, pairs: Seq<(String, String)>) -> bool {
        &&& pairs.len() == 5
        &&& pairs[0].0@ == "kill_at"@ && pairs[0].1@ == dec_str(self.kill_at as nat)
        &&& pairs[1].0@ == "next_poll"@ && pairs[1].1@ == dec_str(self.next_poll as nat)
        &&& pairs[2].0@ == "room"@ && pairs[2].1@ == opt_str_view(self.room)
        &&& pairs[3].0@ == "peer"@ && pairs[3].1@ == opt_str_view(self.peer)
        &&& pairs[4].0@ == "service"@ && pairs[4].1@ == opt_str_view(self.service)
    }

    fn fresh(now: u64) -> (r: Self) {
        AuthMetadata {
            kill_at: now + MAX_CONNECTION,
            next_poll: now + FIRST_POLL,
            room: None,
            peer: None,
            service: None,
        }
    }

    fn from_pairs(pairs: &Vec<(String, String)>) -> (r: Option<Self>) {
        let kill_at = match find_pair(pairs, "kill_at") {
            Some(v) => match dec_to_u64(v.as_str()) {
                Some(n) => n,
                None => {
                    return None;
                },
            },
            None => {
                return None;
            },
        };
        let next_poll = match find_pair(pairs, "next_poll") {
            Some(v) => match dec_to_u64(v.as_str()) {
                Some(n) => n,
                None => {
                    return None;
                },
            },
            None => {
                return None;
            },
        };
        let room = opt_field(find_pair(pairs, "room"));
        let peer = opt_field(find_pair(pairs, "peer"));
        let service = opt_field(find_pair(pairs, "service"));
        Some(AuthMetadata { kill_at, next_poll, room, peer, service })
    }

    fn to_pairs(&self) -> (r: Vec<(String, String)>) {
        let mut pairs: Vec<(String, String)> = Vec::new();
        pairs.push((String::from_str("kill_at"), u64_to_dec(self.kill_at)));
        pairs.push((String::from_str("next_poll"), u64_to_dec(self.next_poll)));
        pairs.push((String::from_str("room"), opt_str(&self.room)));
        pairs.push((String::from_str("peer"), opt_str(&self.peer)));
        pairs.push((String::from_str("service"), opt_str(&self.service)));
        pairs
    }
}

/// The stored rendering of an optional string field.
fn opt_str(o: &Option<String>) -> (r: String)
    ensures
        r@ == opt_str_view(*o),
{
    match o {
        Some(s) => s.clone(),
        None => String::new(),
    }
}

/// An optional string as read back: empty means absent.
fn opt_field(v: Option<&String>) -> (r: Option<String>)
    ensures
        r == opt_of(match v {
            Some(s) => Some(*s),
            None => None::<String>,
        }),
{
    match v {
        Some(s) => {
            if s.as_str().is_empty() {
                None
            } else {
                Some(s.clone())
            }
        },
        None => None,
    }
}

/// Finds the first value stored under `key`.
fn find_pair<'a>(pairs: &'a Vec<(String, String)>, key: &str) -> (r: Option<&'a String>)
    ensures
        match r {
            Some(s) => lookup(pairs@, key@) == Some(*s),
            None => lookup(pairs@, key@) is None,
        },
{
    let key_owned = String::from_str(key);
    let mut i: usize = 0;
    proof {
        assert(pairs@.skip(0) =~= pairs@);
    }
    while i < pairs.len()
        invariant
            i <= pairs@.len(),
            key_owned@ == key@,
            lookup(pairs@, key@) == lookup(pairs@.skip(i as int), key@),
        decreases pairs@.len() - i,
    {
        proof {
            assert(pairs@.skip(i as int).drop_first() =~= pairs@.skip(i as int + 1));
            assert(pairs@.skip(i as int)[0] == pairs@[i as int]);
        }
        if pairs[i].0 == key_owned {
            return Some(&pairs[i].1);
        }
        i = i + 1;
    }
    proof {
        assert(pairs@.skip(pairs@.len() as int) =~= Seq::<(String, String)>::empty());
    }
    None
}

// ---------------------------------------------------------------
// The signaling state machine, as functions on session values.
// ---------------------------------------------------------------

/// One submitted signal folded into a session body: drops what a
/// client may not send, enforces the single-SDP and ICE-terminator
/// rules, and appends to the queue. The flag says whether anything
/// was enqueued.
pub open spec fn send_one_v(d: AuthDataV, s: Signal) -> (AuthDataV, bool) {
    if !s.spec_can_send() {
        (d, false)
    } else if s is SetSDP {
        if d.sent_sdp {
            (d, false)
        } else {
            (AuthDataV { sent_sdp: true, queue: d.queue.push(s), ..d }, true)
        }
    } else {
        if d.ice_done {
            (d, false)
        } else if is_ice_terminator(s) {
            (AuthDataV { ice_done: true, queue: d.queue.push(s), ..d }, true)
        } else {
            (AuthDataV { queue: d.queue.push(s), ..d }, true)
        }
    }
}

/// A whole submitted batch folded into a session body, in order.
pub open spec fn send_all_v(d: AuthDataV, sigs: Seq<Signal>) -> (AuthDataV, bool)
    decreases sigs.len(),
{
    if sigs.len() == 0 {
        (d, false)
    } else {
        let (d1, m1) = send_one_v(d, sigs.first());
        let (d2, m2) = send_all_v(d1, sigs.drop_first());
        (d2, m1 || m2)
    }
}

/// Folding a batch extended by one more signal is folding the batch,
/// then the signal.
pub proof fn lemma_send_all_snoc(d: AuthDataV, sigs: Seq<Signal>, s: Signal)
    ensures
        send_all_v(d, sigs.push(s)) == ({
            let (d1, m1) = send_all_v(d, sigs);
            let (d2, m2) = send_one_v(d1, s);
            (d2, m1 || m2)
        }),
    decreases sigs.len(),
{
    if sigs.len() == 0 {
        assert(sigs.push(s).drop_first() =~= Seq::<Signal>::empty());
        assert(sigs.push(s).first() == s);
        assert(send_all_v(send_one_v(d, s).0, Seq::<Signal>::empty()) == (
            send_one_v(d, s).0,
            false,
        ));
        assert(send_all_v(d, Seq::<Signal>::empty()) == (d, false));
    } else {
        assert(sigs.push(s).first() == sigs.first());
        assert(sigs.push(s).drop_first() =~= sigs.drop_first().push(s));
        lemma_send_all_snoc(send_one_v(d, sigs.first()).0, sigs.drop_first(), s);
    }
}

/// Fixes the agreed connect instant: adopt the peer's if it has one;
/// otherwise, once both sides have sent SDP and at least one has
/// finished ICE, set it to the peer's next poll plus the connect
/// grace.
pub open spec fn try_connect_v(s: AuthDataV, p: AuthDataV, p_next_poll: u64) -> AuthDataV {
    if s.connect_at is Some {
        s
    } else if p.connect_at is Some {
        AuthDataV { connect_at: p.connect_at, read_connect: false, ..s }
    } else if !s.sent_sdp || !p.sent_sdp {
        s
    } else if !s.ice_done && !p.ice_done {
        s
    } else {
        AuthDataV { connect_at: Some((p_next_poll + CONNECT) as u64), read_connect: false, ..s }
    }
}

/// Whether `try_connect` changes the session at all.
pub open spec fn try_connect_modifies(s: AuthDataV, p: AuthDataV) -> bool {
    s.connect_at is None && (p.connect_at is Some || (s.sent_sdp && p.sent_sdp && (s.ice_done
        || p.ice_done)))
}

/// Reads the unseen tail of the peer's queue and advances the read
/// cursor to the peer queue's length.
pub open spec fn read_signals_v(s: AuthDataV, p: AuthDataV, p_next_poll: u64) -> (
    AuthDataV,
    Seq<Signal>,
) {
    let s1 = try_connect_v(s, p, p_next_poll);
    let out = if 0 <= s1.read <= p.queue.len() {
        p.queue.skip(s1.read)
    } else {
        Seq::empty()
    };
    (AuthDataV { read: p.queue.len() as int, ..s1 }, out)
}

/// The full batch delivered by one poll: the peer's unseen signals,
/// then `JoinRoom` (first time only), then `ConnectAt` (first time
/// only), then always `NextPoll` last.
pub open spec fn pull_v(
    s: AuthDataV,
    room: Option<String>,
    next_poll: u64,
    peer: Option<(AuthDataV, u64)>,
) -> (AuthDataV, Seq<Signal>) {
    let (s1, out1) = match peer {
        Some(pp) => read_signals_v(s, pp.0, pp.1),
        None => (s, Seq::<Signal>::empty()),
    };
    let (s2, out2) = if room is Some && !s1.sent_join {
        (AuthDataV { sent_join: true, ..s1 }, out1.push(Signal::JoinRoom(room->Some_0)))
    } else {
        (s1, out1)
    };
    let (s3, out3) = if s2.connect_at is Some && !s2.read_connect {
        (AuthDataV { read_connect: true, ..s2 }, out2.push(Signal::ConnectAt(s2.connect_at->Some_0)))
    } else {
        (s2, out2)
    };
    (s3, out3.push(Signal::NextPoll(next_poll)))
}

/// The exchange is over: a connect instant is fixed, both sides have
/// finished ICE, and everything the peer queued has been read.
pub open spec fn is_done_v(s: AuthDataV, p: AuthDataV) -> bool {
    &&& s.connect_at is Some
    &&& s.ice_done && p.ice_done
    &&& s.read == p.queue.len()
}

/// A session is alive strictly before both its hard expiry and its
/// next poll plus the grace period.
pub open spec fn alive_v(kill_at: u64, next_poll: u64, now: u64) -> bool {
    now < kill_at && (now as int) < next_poll + GRACE_PERIOD
}

/// The prefixed store keys cleanup removes for a dead session: its
/// own record, its peer's record, and its room.
pub open spec fn kill_keys_v(key: Seq<char>, peer: Option<String>, room: Option<String>) -> Seq<
    Seq<char>,
> {
    let ks = seq![AuthInfo::spec_prefix() + seq![':'] + key];
    let ks = if peer is Some {
        ks.push(AuthInfo::spec_prefix() + seq![':'] + peer->Some_0@)
    } else {
        ks
    };
    if room is Some {
        ks.push(RoomInfo::spec_prefix() + seq![':'] + room->Some_0@)
    } else {
        ks
    }
}

/// The views of a batch of strings.
pub open spec fn seq_views(ss: Seq<String>) -> Seq<Seq<char>> {
    ss.map_values(|s: String| s@)
}

// ---------------------------------------------------------------
// Queue well-formedness, and the laws of the state machine.
// ---------------------------------------------------------------

/// No SDP signal stands in the queue.
pub open spec fn no_sdp(q: Seq<Signal>) -> bool {
    forall|i: int| 0 <= i < q.len() ==> !((#[trigger] q[i]) is SetSDP)
}

/// No two SDP signals stand in the queue.
pub open spec fn at_most_one_sdp(q: Seq<Signal>) -> bool {
    forall|i: int, j: int|
        0 <= i < j < q.len() ==> !((#[trigger] q[i]) is SetSDP && (#[trigger] q[j]) is SetSDP)
}

/// No ICE terminator stands in the queue.
pub open spec fn no_term(q: Seq<Signal>) -> bool {
    forall|i: int| 0 <= i < q.len() ==> !is_ice_terminator(#[trigger] q[i])
}

/// No two ICE terminators stand in the queue.
pub open spec fn at_most_one_term(q: Seq<Signal>) -> bool {
    forall|i: int, j: int|
        0 <= i < j < q.len() ==> !(is_ice_terminator(#[trigger] q[i]) && is_ice_terminator(
            #[trigger] q[j],
        ))
}

/// Only client-sendable signals stand in the queue.
pub open spec fn queue_sendable(q: Seq<Signal>) -> bool {
    forall|i: int| 0 <= i < q.len() ==> (#[trigger] q[i]).spec_can_send()
}

/// The invariant of a session body: the queue holds only
/// client-sendable signals, at most one SDP signal and at most one
/// ICE terminator ever, and none before the matching flag is up.
pub open spec fn data_wf(d: AuthDataV) -> bool {
    &&& !d.sent_sdp ==> no_sdp(d.queue)
    &&& at_most_one_sdp(d.queue)
    &&& !d.ice_done ==> no_term(d.queue)
    &&& at_most_one_term(d.queue)
    &&& queue_sendable(d.queue)
}

/// A fresh session body satisfies the queue invariant.
pub proof fn lemma_fresh_wf()
    ensures
        data_wf(fresh_auth_data()),
{
}

/// Folding one signal preserves the queue invariant.
pub proof fn lemma_send_one_wf(d: AuthDataV, s: Signal)
    requires
        data_wf(d),
    ensures
        data_wf(send_one_v(d, s).0),
{
    let d1 = send_one_v(d, s).0;
    assert(forall|i: int| 0 <= i < d.queue.len() ==> d1.queue[i] == #[trigger] d.queue[i]);
}

/// Folding a whole batch preserves the queue invariant: however the
/// client batches its submissions, at most one SDP signal and at most
/// one ICE terminator are ever enqueued.
pub proof fn lemma_send_all_wf(d: AuthDataV, sigs: Seq<Signal>)
    requires
        data_wf(d),
    ensures
        data_wf(send_all_v(d, sigs).0),
    decreases sigs.len(),
{
    if sigs.len() > 0 {
        lemma_send_one_wf(d, sigs.first());
        lemma_send_all_wf(send_one_v(d, sigs.first()).0, sigs.drop_first());
    }
}

/// Folding one signal moves the session only forward: `sent_sdp` and
/// `ice_done` never fall back, the queue only grows, and nothing else
/// is touched.
pub proof fn lemma_send_one_monotone(d: AuthDataV, s: Signal)
    ensures
        ({
            let d1 = send_one_v(d, s).0;
            &&& d.sent_sdp ==> d1.sent_sdp
            &&& d.ice_done ==> d1.ice_done
            &&& d1.read == d.read
            &&& d1.connect_at == d.connect_at
            &&& d1.sent_join == d.sent_join
            &&& d1.read_connect == d.read_connect
            &&& d1.queue.len() >= d.queue.len()
            &&& forall|i: int| 0 <= i < d.queue.len() ==> d1.queue[i] == #[trigger] d.queue[i]
        }),
{
}

/// SDP/ICE monotonicity across a whole submitted batch: once
/// `sent_sdp` or `ice_done` is up it stays up, the queue is
/// append-only, and the cursor and control state are untouched.
pub proof fn lemma_send_all_monotone(d: AuthDataV, sigs: Seq<Signal>)
    ensures
        ({
            let d1 = send_all_v(d, sigs).0;
            &&& d.sent_sdp ==> d1.sent_sdp
            &&& d.ice_done ==> d1.ice_done
            &&& d1.read == d.read
            &&& d1.connect_at == d.connect_at
            &&& d1.sent_join == d.sent_join
            &&& d1.read_connect == d.read_connect
            &&& d1.queue.len() >= d.queue.len()
            &&& forall|i: int| 0 <= i < d.queue.len() ==> d1.queue[i] == #[trigger] d.queue[i]
        }),
    decreases sigs.len(),
{
    if sigs.len() > 0 {
        lemma_send_one_monotone(d, sigs.first());
        lemma_send_all_monotone(send_one_v(d, sigs.first()).0, sigs.drop_first());
    }
}

/// The queue invariant is maintained across a whole poll step:
/// folding a batch in and pulling the response out leaves the queue
/// well formed.
pub proof fn lemma_poll_step_wf(
    d0: AuthDataV,
    batch: Seq<Signal>,
    room: Option<String>,
    np: u64,
    peer: Option<(AuthDataV, u64)>,
)
    requires
        data_wf(d0),
    ensures
        data_wf(pull_v(send_all_v(d0, batch).0, room, np, peer).0),
{
    lemma_send_all_wf(d0, batch);
}

/// Monotone read cursor: one pull moves the cursor to the length of
/// the peer-queue snapshot it consumed, never backwards, and returns
/// exactly the entries between the old cursor and that length.
pub proof fn lemma_read_cursor_monotone(s: AuthDataV, p: AuthDataV, p_next_poll: u64)
    requires
        0 <= s.read <= p.queue.len(),
    ensures
        ({
            let (s1, out) = read_signals_v(s, p, p_next_poll);
            &&& s1.read >= s.read
            &&& s1.read == p.queue.len()
            &&& out == p.queue.skip(s.read)
        }),
{
}

/// Some signal of the batch is a `JoinRoom` control signal.
pub open spec fn has_join(out: Seq<Signal>) -> bool {
    exists|i: int| 0 <= i < out.len() && (#[trigger] out[i]) is JoinRoom
}

/// Some signal of the batch is a `ConnectAt` control signal.
pub open spec fn has_connect(out: Seq<Signal>) -> bool {
    exists|i: int| 0 <= i < out.len() && (#[trigger] out[i]) is ConnectAt
}

/// One pull delivers `JoinRoom` only with the `sent_join` flag down,
/// and raises the flag; with the flag up it stays up and nothing is
/// delivered. The peer queue holds only client-sendable signals, so
/// it can never replay a `JoinRoom`.
pub proof fn lemma_pull_join_shot(
    s: AuthDataV,
    room: Option<String>,
    np: u64,
    peer: Option<(AuthDataV, u64)>,
)
    requires
        peer matches Some(pp) ==> queue_sendable(pp.0.queue),
    ensures
        ({
            let (s1, out) = pull_v(s, room, np, peer);
            &&& has_join(out) ==> !s.sent_join && s1.sent_join
            &&& s.sent_join ==> s1.sent_join && !has_join(out)
        }),
{
    let sr = match peer {
        Some(pp) => read_signals_v(s, pp.0, pp.1),
        None => (s, Seq::<Signal>::empty()),
    };
    let out1 = sr.1;
    assert forall|i: int| 0 <= i < out1.len() implies !((#[trigger] out1[i]) is JoinRoom) by {
        match peer {
            Some(pp) => {
                let sc = try_connect_v(s, pp.0, pp.1);
                if 0 <= sc.read && sc.read <= pp.0.queue.len() {
                    assert(out1[i] == pp.0.queue[sc.read + i]);
                    assert(pp.0.queue[sc.read + i].spec_can_send());
                }
            },
            None => {},
        }
    }
}

/// One pull delivers `ConnectAt` only when a connect instant is fixed
/// and undelivered, and marks it delivered; once delivered, the
/// instant is kept and never delivered again.
pub proof fn lemma_pull_connect_shot(
    s: AuthDataV,
    room: Option<String>,
    np: u64,
    peer: Option<(AuthDataV, u64)>,
)
    requires
        peer matches Some(pp) ==> queue_sendable(pp.0.queue),
    ensures
        ({
            let (s1, out) = pull_v(s, room, np, peer);
            &&& has_connect(out) ==> s1.connect_at is Some && s1.read_connect
            &&& (s.connect_at is Some && s.read_connect) ==> s1.connect_at == s.connect_at
                && s1.read_connect && !has_connect(out)
        }),
{
    let sr = match peer {
        Some(pp) => read_signals_v(s, pp.0, pp.1),
        None => (s, Seq::<Signal>::empty()),
    };
    let out1 = sr.1;
    assert forall|i: int| 0 <= i < out1.len() implies !((#[trigger] out1[i]) is ConnectAt) by {
        match peer {
            Some(pp) => {
                let sc = try_connect_v(s, pp.0, pp.1);
                if 0 <= sc.read && sc.read <= pp.0.queue.len() {
                    assert(out1[i] == pp.0.queue[sc.read + i]);
                    assert(pp.0.queue[sc.read + i].spec_can_send());
                }
            },
            None => {},
        }
    }
}

/// At-most-once `JoinRoom`: over two successive polls, each folding a
/// batch in and pulling a response out, a response that carries
/// `JoinRoom` is never followed by another that does.
pub proof fn lemma_join_room_at_most_once(
    d0: AuthDataV,
    batch1: Seq<Signal>,
    room1: Option<String>,
    np1: u64,
    peer1: Option<(AuthDataV, u64)>,
    batch2: Seq<Signal>,
    room2: Option<String>,
    np2: u64,
    peer2: Option<(AuthDataV, u64)>,
)
    requires
        peer1 matches Some(pp) ==> queue_sendable(pp.0.queue),
        peer2 matches Some(pp) ==> queue_sendable(pp.0.queue),
    ensures
        ({
            let (d1, out1) = pull_v(send_all_v(d0, batch1).0, room1, np1, peer1);
            let (d2, out2) = pull_v(send_all_v(d1, batch2).0, room2, np2, peer2);
            has_join(out1) ==> !has_join(out2)
        }),
{
    let (d1, out1) = pull_v(send_all_v(d0, batch1).0, room1, np1, peer1);
    lemma_pull_join_shot(send_all_v(d0, batch1).0, room1, np1, peer1);
    lemma_send_all_monotone(d1, batch2);
    lemma_pull_join_shot(send_all_v(d1, batch2).0, room2, np2, peer2);
}

/// At-most-once `ConnectAt`: over two successive polls, a response
/// that carries `ConnectAt` is never followed by another that does.
pub proof fn lemma_connect_at_at_most_once(
    d0: AuthDataV,
    batch1: Seq<Signal>,
    room1: Option<String>,
    np1: u64,
    peer1: Option<(AuthDataV, u64)>,
    batch2: Seq<Signal>,
    room2: Option<String>,
    np2: u64,
    peer2: Option<(AuthDataV, u64)>,
)
    requires
        peer1 matches Some(pp) ==> queue_sendable(pp.0.queue),
        peer2 matches Some(pp) ==> queue_sendable(pp.0.queue),
    ensures
        ({
            let (d1, out1) = pull_v(send_all_v(d0, batch1).0, room1, np1, peer1);
            let (d2, out2) = pull_v(send_all_v(d1, batch2).0, room2, np2, peer2);
            has_connect(out1) ==> !has_connect(out2)
        }),
{
    let (d1, out1) = pull_v(send_all_v(d0, batch1).0, room1, np1, peer1);
    lemma_pull_connect_shot(send_all_v(d0, batch1).0, room1, np1, peer1);
    lemma_send_all_monotone(d1, batch2);
    lemma_pull_connect_shot(send_all_v(d1, batch2).0, room2, np2, peer2);
}

/// Every pull response carries `NextPoll` exactly once, as its last
/// element.
pub proof fn lemma_next_poll_last(
    s: AuthDataV,
    room: Option<String>,
    np: u64,
    peer: Option<(AuthDataV, u64)>,
)
    requires
        peer matches Some(pp) ==> queue_sendable(pp.0.queue),
    ensures
        ({
            let (s1, out) = pull_v(s, room, np, peer);
            &&& out.len() > 0
            &&& out.last() == Signal::NextPoll(np)
            &&& forall|i: int| 0 <= i < out.len() - 1 ==> !((#[trigger] out[i]) is NextPoll)
        }),
{
    let sr = match peer {
        Some(pp) => read_signals_v(s, pp.0, pp.1),
        None => (s, Seq::<Signal>::empty()),
    };
    let out1 = sr.1;
    assert forall|i: int| 0 <= i < out1.len() implies !((#[trigger] out1[i]) is NextPoll) by {
        match peer {
            Some(pp) => {
                let sc = try_connect_v(s, pp.0, pp.1);
                if 0 <= sc.read && sc.read <= pp.0.queue.len() {
                    assert(out1[i] == pp.0.queue[sc.read + i]);
                    assert(pp.0.queue[sc.read + i].spec_can_send());
                }
            },
            None => {},
        }
    }
}

/// Connect symmetry: once both sides have sent SDP and at least one
/// has finished ICE, one side fixes the connect instant and the other
/// adopts it on its next pull, so both observe the same value.
pub proof fn lemma_connect_symmetry(a: AuthDataV, b: AuthDataV, a_next_poll: u64, b_next_poll: u64)
    requires
        a.sent_sdp && b.sent_sdp,
        a.ice_done || b.ice_done,
        a.connect_at is Some && b.connect_at is Some ==> a.connect_at == b.connect_at,
    ensures
        ({
            let a1 = try_connect_v(a, b, b_next_poll);
            let b1 = try_connect_v(b, a1, a_next_poll);
            a1.connect_at is Some && b1.connect_at == a1.connect_at
        }),
{
}

/// What `to_pairs` writes, `from_pairs` reads back: the timestamps
/// exactly, and each optional string up to the stored convention that
/// an empty string means absent.
pub proof fn lemma_metadata_round_trip(m: AuthMetadata, pairs: Seq<(String, String)>)
    requires
        m.encodes(pairs),
    ensures
        ({
            let r = AuthMetadata::decode_spec(pairs);
            &&& r is Some
            &&& r->Some_0.kill_at == m.kill_at
            &&& r->Some_0.next_poll == m.next_poll
            &&& opt_str_view(r->Some_0.room) == opt_str_view(m.room)
            &&& opt_str_view(r->Some_0.peer) == opt_str_view(m.peer)
            &&& opt_str_view(r->Some_0.service) == opt_str_view(m.service)
        }),
{
    reveal_strlit("kill_at");
    reveal_strlit("next_poll");
    reveal_strlit("room");
    reveal_strlit("peer");
    reveal_strlit("service");
    crate::db::lemma_dec_round_trip(m.kill_at as nat);
    crate::db::lemma_dec_round_trip(m.next_poll as nat);
    let p1 = pairs.drop_first();
    let p2 = p1.drop_first();
    let p3 = p2.drop_first();
    let p4 = p3.drop_first();
    assert(p1[0] == pairs[1] && p1.len() == 4);
    assert(p2[0] == pairs[2] && p2.len() == 3);
    assert(p3[0] == pairs[3] && p3.len() == 2);
    assert(p4[0] == pairs[4] && p4.len() == 1);
    assert("kill_at"@.len() == 7 && "next_poll"@.len() == 9 && "room"@.len() == 4 && "peer"@.len()
        == 4 && "service"@.len() == 7);
    assert("kill_at"@[0] == 'k' && "service"@[0] == 's' && "room"@[0] == 'r' && "peer"@[0] == 'p');
    assert("kill_at"@ != "next_poll"@ && "kill_at"@ != "room"@ && "kill_at"@ != "peer"@
        && "kill_at"@ != "service"@);
    assert("next_poll"@ != "room"@ && "next_poll"@ != "peer"@ && "next_poll"@ != "service"@);
    assert("room"@ != "peer"@ && "room"@ != "service"@ && "peer"@ != "service"@);
    assert(lookup(pairs, "kill_at"@) == Some(pairs[0].1));
    assert(lookup(pairs, "next_poll"@) == lookup(p1, "next_poll"@));
    assert(lookup(p1, "next_poll"@) == Some(pairs[1].1));
    assert(lookup(pairs, "room"@) == lookup(p1, "room"@));
    assert(lookup(p1, "room"@) == lookup(p2, "room"@));
    assert(lookup(p2, "room"@) == Some(pairs[2].1));
    assert(lookup(pairs, "peer"@) == lookup(p1, "peer"@));
    assert(lookup(p1, "peer"@) == lookup(p2, "peer"@));
    assert(lookup(p2, "peer"@) == lookup(p3, "peer"@));
    assert(lookup(p3, "peer"@) == Some(pairs[3].1));
    assert(lookup(pairs, "service"@) == lookup(p1, "service"@));
    assert(lookup(p1, "service"@) == lookup(p2, "service"@));
    assert(lookup(p2, "service"@) == lookup(p3, "service"@));
    assert(lookup(p3, "service"@) == lookup(p4, "service"@));
    assert(lookup(p4, "service"@) == Some(pairs[4].1));
}

/// Liveness bound: at or beyond the earlier of the hard expiry and
/// the next poll plus the grace period, the session is dead.
pub proof fn lemma_liveness_bound(kill_at: u64, next_poll: u64, now: u64)
    ensures
        now >= kill_at || now as int >= next_poll + GRACE_PERIOD ==> !alive_v(
            kill_at,
            next_poll,
            now,
        ),
{
}

impl Auth {
    /// Records the room this session joined.
    pub fn set_room(&mut self, room: &Room)
        ensures
            final(self).meta == (AuthMetadata { room: Some(room.key), ..old(self).meta }),
            final(self).modified,
            final(self).key == old(self).key,
            final(self).data == old(self).data,
    {
        self.meta.room = Some(room.key.clone());
        self.modified = true;
    }

    /// Records (or clears) the counterpart session's token.
    pub fn set_peer(&mut self, peer: Option<String>)
        ensures
            final(self).meta == (AuthMetadata { peer: peer, ..old(self).meta }),
            final(self).modified,
            final(self).key == old(self).key,
            final(self).data == old(self).data,
    {
        self.meta.peer = peer;
        self.modified = true;
    }

    /// Records the service tag the client asserted.
    pub fn set_service(&mut self, service: String)
        ensures
            final(self).meta == (AuthMetadata { service: Some(service), ..old(self).meta }),
            final(self).modified,
            final(self).key == old(self).key,
            final(self).data == old(self).data,
    {
        self.meta.service = Some(service);
        self.modified = true;
    }

    /// The room this session joined, if any.
    pub fn get_room(&self) -> (r: Option<&String>)
        ensures
            match r {
                Some(s) => self.meta.room == Some(*s),
                None => self.meta.room is None,
            },
    {
        match &self.meta.room {
            Some(s) => Some(s),
            None => None,
        }
    }

    /// The counterpart session's token, once pairing resolved.
    pub fn get_peer(&self) -> (r: Option<&String>)
        ensures
            match r {
                Some(s) => self.meta.peer == Some(*s),
                None => self.meta.peer is None,
            },
    {
        match &self.meta.peer {
            Some(s) => Some(s),
            None => None,
        }
    }

    /// The service tag the client asserted, if any yet.
    pub fn get_service(&self) -> (r: Option<&String>)
        ensures
            match r {
                Some(s) => self.meta.service == Some(*s),
                None => self.meta.service is None,
            },
    {
        match &self.meta.service {
            Some(s) => Some(s),
            None => None,
        }
    }

    /// Reschedules the client's next poll: fast once a peer is known,
    /// slow while still waiting for one.
    pub fn poll(&mut self, now: u64)
        requires
            now <= u64::MAX - POLL,
        ensures
            final(self).meta == (AuthMetadata {
                next_poll: if old(self).meta.peer is Some {
                    (now + FAST_POLL) as u64
                } else {
                    (now + POLL) as u64
                },
                ..old(self).meta
            }),
            final(self).modified,
            final(self).key == old(self).key,
            final(self).data == old(self).data,
    {
        let secs = if self.meta.peer.is_some() {
            // Fast polling after both parties are connected
            FAST_POLL
        } else {
            POLL
        };
        self.meta.next_poll = now + secs;
        self.modified = true;
    }

    /// Folds a submitted batch of signals into the queue, in order.
    pub fn send_signal(&mut self, signals: Vec<Signal>)
        requires
            old(self).data is Some,
        ensures
            final(self).data matches Some(d) && d@ == send_all_v(
                old(self).data->Some_0@,
                signals@,
            ).0,
            final(self).modified == (old(self).modified || send_all_v(
                old(self).data->Some_0@,
                signals@,
            ).1),
            final(self).key == old(self).key,
            final(self).meta == old(self).meta,
    {
        let mut data = self.data.take().unwrap();
        let ghost d0 = data@;
        let ghost m0 = self.modified;
        let mut i: usize = 0;
        while i < signals.len()
            invariant
                i <= signals@.len(),
                data@ == send_all_v(d0, signals@.take(i as int)).0,
                self.modified == (m0 || send_all_v(d0, signals@.take(i as int)).1),
                self.key == old(self).key,
                self.meta == old(self).meta,
                self.data is None,
            decreases signals@.len() - i,
        {
            let ghost dpre = data@;
            let s = signals[i].clone();
            let mut enqueue = false;
            if s.can_send() {
                match &s {
                    Signal::SetSDP(_) => {
                        if !data.sent_sdp {
                            data.sent_sdp = true;
                            enqueue = true;
                        }
                    },
                    Signal::AddCandidate(ice) => {
                        if !data.ice_done {
                            if ice.0.as_str().is_empty() {
                                data.ice_done = true;
                            }
                            enqueue = true;
                        }
                    },
                    _ => {
                        proof {
                            assert(false);
                        }
                    },
                }
            }
            if enqueue {
                data.queue.push(s);
                self.modified = true;
            }
            proof {
                assert(data@ =~= send_one_v(dpre, signals@[i as int]).0);
                lemma_send_all_snoc(d0, signals@.take(i as int), signals@[i as int]);
                assert(signals@.take(i as int).push(signals@[i as int]) =~= signals@.take(
                    i as int + 1,
                ));
            }
            i = i + 1;
        }
        proof {
            assert(signals@.take(signals@.len() as int) =~= signals@);
        }
        self.data = Some(data);
    }

    /// Reads the peer's unseen signals (fixing the connect instant
    /// first) and advances the read cursor.
    fn read_signals(&mut self, peer: &Auth) -> (out: Vec<Signal>)
        requires
            old(self).data is Some,
            peer.data is Some,
            peer.meta.next_poll <= u64::MAX - CONNECT,
        ensures
            final(self).data matches Some(d) && (d@, out@) == read_signals_v(
                old(self).data->Some_0@,
                peer.data->Some_0@,
                peer.meta.next_poll,
            ),
            final(self).modified == (old(self).modified || try_connect_modifies(
                old(self).data->Some_0@,
                peer.data->Some_0@,
            )),
            final(self).key == old(self).key,
            final(self).meta == old(self).meta,
    {
        self.try_connect(peer);

        let mut data = self.data.take().unwrap();
        let pdata = match &peer.data {
            Some(d) => d,
            None => unreached(),
        };
        let qlen = pdata.queue.len();
        let mut out: Vec<Signal> = Vec::new();
        if data.read <= qlen {
            let ghost r0 = data.read as int;
            let mut j: usize = data.read;
            proof {
                assert(out@ =~= pdata.queue@.subrange(r0, r0));
            }
            while j < qlen
                invariant
                    0 <= r0 <= j <= qlen,
                    qlen == pdata.queue@.len(),
                    out@ == pdata.queue@.subrange(r0, j as int),
                decreases qlen - j,
            {
                let ghost out0 = out@;
                let item: &Signal = &pdata.queue[j];
                out.push(item.clone());
                proof {
                    assert(out@ == out0.push(pdata.queue@[j as int]));
                    assert forall|k: int| 0 <= k < out@.len() implies out@[k] == pdata.queue@
                        .subrange(r0, j as int + 1)[k] by {
                        if k < out0.len() {
                            assert(out@[k] == out0[k]);
                        }
                    }
                    assert(out@ =~= pdata.queue@.subrange(r0, j as int + 1));
                }
                j = j + 1;
            }
            proof {
                assert(pdata.queue@.subrange(r0, qlen as int) =~= pdata.queue@.skip(r0));
            }
        }
        data.read = qlen;
        self.data = Some(data);
        out
    }

    /// The signal batch for one poll response: the peer's unseen
    /// signals, the one-shot `JoinRoom` and `ConnectAt` control
    /// signals, and `NextPoll` last.
    pub fn pull_signals(&mut self, peer: Option<&Auth>) -> (out: Vec<Signal>)
        requires
            old(self).data is Some,
            peer matches Some(p) ==> p.data is Some && p.meta.next_poll <= u64::MAX - CONNECT,
        ensures
            final(self).data matches Some(d) && (d@, out@) == pull_v(
                old(self).data->Some_0@,
                old(self).meta.room,
                old(self).meta.next_poll,
                match peer {
                    Some(p) => Some((p.data->Some_0@, p.meta.next_poll)),
                    None => None,
                },
            ),
            final(self).modified == (old(self).modified || (peer matches Some(p)
                && try_connect_modifies(old(self).data->Some_0@, p.data->Some_0@))),
            final(self).key == old(self).key,
            final(self).meta == old(self).meta,
    {
        let mut signals = match peer {
            Some(p) => self.read_signals(p),
            None => Vec::new(),
        };

        let mut data = self.data.take().unwrap();
        match &self.meta.room {
            Some(room) => {
                if !data.sent_join {
                    data.sent_join = true;
                    signals.push(Signal::JoinRoom(room.clone()));
                }
            },
            None => {},
        }
        match data.connect_at {
            Some(at) => {
                if !data.read_connect {
                    data.read_connect = true;
                    signals.push(Signal::ConnectAt(at));
                }
            },
            None => {},
        }
        signals.push(Signal::NextPoll(self.meta.next_poll));
        self.data = Some(data);
        signals
    }

    /// Fixes the agreed connect instant, adopting the peer's when the
    /// peer fixed it first.
    pub fn try_connect(&mut self, peer: &Auth)
        requires
            old(self).data is Some,
            peer.data is Some,
            peer.meta.next_poll <= u64::MAX - CONNECT,
        ensures
            final(self).data matches Some(d) && d@ == try_connect_v(
                old(self).data->Some_0@,
                peer.data->Some_0@,
                peer.meta.next_poll,
            ),
            final(self).modified == (old(self).modified || try_connect_modifies(
                old(self).data->Some_0@,
                peer.data->Some_0@,
            )),
            final(self).key == old(self).key,
            final(self).meta == old(self).meta,
    {
        let mut s_data = self.data.take().unwrap();
        let p_data = match &peer.data {
            Some(d) => d,
            None => unreached(),
        };

        if s_data.connect_at.is_some() {
            self.data = Some(s_data);
            return;
        }
        if p_data.connect_at.is_some() {
            s_data.connect_at = p_data.connect_at;
            s_data.read_connect = false;
            self.modified = true;
            self.data = Some(s_data);
            return;
        }

        // Need both SDPs
        if !s_data.sent_sdp || !p_data.sent_sdp {
            self.data = Some(s_data);
            return;
        }
        // Need at least one ICE list to be done
        if !s_data.ice_done && !p_data.ice_done {
            self.data = Some(s_data);
            return;
        }

        let at = peer.meta.next_poll + CONNECT;
        s_data.connect_at = Some(at);
        s_data.read_connect = false;
        self.modified = true;
        self.data = Some(s_data);
    }

    /// Whether the exchange is over and further polls are pointless.
    pub fn is_done(&self, peer: &Auth) -> (r: bool)
        requires
            self.data is Some,
            peer.data is Some,
        ensures
            r == is_done_v(self.data->Some_0@, peer.data->Some_0@),
    {
        let s_data = match &self.data {
            Some(d) => d,
            None => unreached(),
        };
        let p_data = match &peer.data {
            Some(d) => d,
            None => unreached(),
        };

        // didn't establish a p2p connection
        if s_data.connect_at.is_none() {
            return false;
        }
        // not all ice candidates were sent
        if !s_data.ice_done || !p_data.ice_done {
            return false;
        }
        // not all messages have been read
        if p_data.queue.len() != s_data.read {
            return false;
        }

        true
    }

    /// Whether the session still counts as alive at `now`.
    pub fn is_alive(&self, now: u64) -> (r: bool)
        requires
            self.meta.next_poll <= u64::MAX - GRACE_PERIOD,
        ensures
            r == alive_v(self.meta.kill_at, self.meta.next_poll, now),
    {
        let grace = self.meta.next_poll + GRACE_PERIOD;
        let limit = if self.meta.kill_at < grace {
            self.meta.kill_at
        } else {
            grace
        };
        now < limit
    }

    /// The prefixed keys cleanup must delete for this session: empty
    /// while it is alive; itself, its peer and its room once dead.
    pub fn get_keys_to_kill(&self, now: u64) -> (r: Vec<String>)
        requires
            self.meta.next_poll <= u64::MAX - GRACE_PERIOD,
        ensures
            alive_v(self.meta.kill_at, self.meta.next_poll, now) ==> r@.len() == 0,
            !alive_v(self.meta.kill_at, self.meta.next_poll, now) ==> seq_views(r@) == kill_keys_v(
                self.key@,
                self.meta.peer,
                self.meta.room,
            ),
    {
        if self.is_alive(now) {
            return Vec::new();
        }

        let mut keys: Vec<String> = Vec::new();
        keys.push(Self::get_bucket_key(self.key.as_str()));
        match &self.meta.peer {
            Some(k) => keys.push(Self::get_bucket_key(k.as_str())),
            None => {},
        }
        match &self.meta.room {
            Some(k) => keys.push(Room::get_bucket_key(k.as_str())),
            None => {},
        }
        proof {
            assert(seq_views(keys@) =~= kill_keys_v(self.key@, self.meta.peer, self.meta.room));
        }
        keys
    }
}

} // verus!
