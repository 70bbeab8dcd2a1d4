//! Signals exchanged through the relay, and the poll-request pipeline.

use vstd::prelude::*;

use crate::auth::{
    alive_v, is_done_v, kill_keys_v, pull_v, send_all_v, seq_views, Auth, AuthMetadata, CONNECT,
    FAST_POLL, GRACE_PERIOD, POLL,
};

verus! {

/// An ICE candidate as submitted by a peer: the candidate string
/// (empty means "this side is done enumerating candidates"), the
/// optional mid, and the optional media-line index.
pub type IceCandidate = (String, Option<String>, Option<u16>);

/// One datum exchanged through the relay. Timestamps are seconds
/// since the epoch.
#[derive(Debug)]
pub enum Signal {
    SetSDP(String),
    AddCandidate(IceCandidate),
    JoinRoom(String),
    ConnectAt(u64),
    NextPoll(u64),
}

/// An `AddCandidate` whose candidate string is empty: the ICE
/// terminator, telling the peer this side has finished enumerating.
pub open spec fn is_ice_terminator(s: Signal) -> bool {
    s matches Signal::AddCandidate(c) && c.0@.len() == 0
}

impl Signal {
    /// Whether a client may submit this signal; only SDP and ICE
    /// payloads are client-originated.
    pub open spec fn spec_can_send(&self) -> bool {
        self is SetSDP || self is AddCandidate
    }

    #[verifier::when_used_as_spec(spec_can_send)]
    pub fn can_send(&self) -> (r: bool)
        ensures
            r == self.spec_can_send(),
    {
        match self {
            Self::SetSDP(_) => true,
            Self::AddCandidate(_) => true,
            Self::JoinRoom(_) => false,
            Self::ConnectAt(_) => false,
            Self::NextPoll(_) => false,
        }
    }
}

/// Why a poll request was turned away without touching the session.
#[derive(PartialEq, Eq, Structural, Debug)]
pub enum PollError {
    /// The submitted batch holds a signal a client may not send.
    InvalidSignals,
    /// The exchange is complete; the client should stop polling.
    ConnectionDone,
}

/// A submitted batch is acceptable when every entry is either
/// client-sendable or a `JoinRoom` request.
pub open spec fn signals_valid_v(sigs: Seq<Signal>) -> bool {
    forall|i: int|
        0 <= i < sigs.len() ==> (#[trigger] sigs[i]).spec_can_send() || sigs[i] is JoinRoom
}

/// Checks a submitted batch for signals a client may not send.
pub fn signals_valid(signals: &Vec<Signal>) -> (r: bool)
    ensures
        r == signals_valid_v(signals@),
{
    let mut i: usize = 0;
    while i < signals.len()
        invariant
            i <= signals@.len(),
            forall|j: int|
                0 <= j < i ==> (#[trigger] signals@[j]).spec_can_send() || signals@[j] is JoinRoom,
        decreases signals@.len() - i,
    {
        let ok = match &signals[i] {
            Signal::JoinRoom(_) => true,
            s => s.can_send(),
        };
        if !ok {
            return false;
        }
        i = i + 1;
    }
    true
}

/// The first `JoinRoom` request in a submitted batch, if any.
pub open spec fn join_code_v(sigs: Seq<Signal>) -> Option<String>
    decreases sigs.len(),
{
    if sigs.len() == 0 {
        None
    } else if sigs[0] is JoinRoom {
        Some(sigs[0]->JoinRoom_0)
    } else {
        join_code_v(sigs.drop_first())
    }
}

/// Finds the room code of the first `JoinRoom` request in a batch.
pub fn find_join_code(signals: &Vec<Signal>) -> (r: Option<String>)
    ensures
        r == join_code_v(signals@),
{
    let mut i: usize = 0;
    proof {
        assert(signals@.skip(0) =~= signals@);
    }
    while i < signals.len()
        invariant
            i <= signals@.len(),
            join_code_v(signals@) == join_code_v(signals@.skip(i as int)),
        decreases signals@.len() - i,
    {
        proof {
            assert(signals@.skip(i as int).drop_first() =~= signals@.skip(i as int + 1));
            assert(signals@.skip(i as int)[0] == signals@[i as int]);
        }
        match &signals[i] {
            Signal::JoinRoom(code) => {
                return Some(code.clone());
            },
            _ => {},
        }
        i = i + 1;
    }
    proof {
        assert(signals@.skip(signals@.len() as int) =~= Seq::<Signal>::empty());
    }
    None
}

/// One poll request against a loaded session and its (possibly
/// absent) loaded peer: turns away invalid batches and finished
/// exchanges, then reschedules the next poll, folds the submitted
/// signals into the queue, and collects the response batch.
pub fn handle_poll(user: &mut Auth, peer: Option<&Auth>, signals: Vec<Signal>, now: u64) -> (r:
    Result<Vec<Signal>, PollError>)
    requires
        old(user).data is Some,
        now <= u64::MAX - POLL,
        peer matches Some(p) ==> p.data is Some && p.meta.next_poll <= u64::MAX - CONNECT,
    ensures
        !signals_valid_v(signals@) ==> r == Err::<Vec<Signal>, PollError>(
            PollError::InvalidSignals,
        ) && *final(user) == *old(user),
        signals_valid_v(signals@) && (peer matches Some(p) && is_done_v(
            old(user).data->Some_0@,
            p.data->Some_0@,
        )) ==> r == Err::<Vec<Signal>, PollError>(PollError::ConnectionDone) && *final(user)
            == *old(user),
        signals_valid_v(signals@) && (peer matches Some(p) ==> !is_done_v(
            old(user).data->Some_0@,
            p.data->Some_0@,
        )) ==> ({
            let np: u64 = if old(user).meta.peer is Some {
                (now + FAST_POLL) as u64
            } else {
                (now + POLL) as u64
            };
            let d1 = send_all_v(old(user).data->Some_0@, signals@).0;
            let step = pull_v(
                d1,
                old(user).meta.room,
                np,
                match peer {
                    Some(p) => Some((p.data->Some_0@, p.meta.next_poll)),
                    None => None,
                },
            );
            &&& r matches Ok(out) && out@ == step.1
            &&& final(user).data matches Some(d) && d@ == step.0
            &&& final(user).meta == (AuthMetadata { next_poll: np, ..old(user).meta })
            &&& final(user).modified
            &&& final(user).key == old(user).key
        }),
{
    if !signals_valid(&signals) {
        return Err(PollError::InvalidSignals);
    }
    match peer {
        Some(p) => {
            if user.is_done(p) {
                return Err(PollError::ConnectionDone);
            }
        },
        None => {},
    }

    user.poll(now);
    user.send_signal(signals);
    let out = user.pull_signals(peer);
    Ok(out)
}

/// Whether a batch of collected keys already holds one with this
/// text.
fn contains_key(keys: &Vec<String>, key: &String) -> (r: bool)
    ensures
        r == exists|j: int| 0 <= j < keys@.len() && (#[trigger] keys@[j])@ == key@,
{
    let mut i: usize = 0;
    while i < keys.len()
        invariant
            i <= keys@.len(),
            forall|j: int| 0 <= j < i ==> (#[trigger] keys@[j])@ != key@,
        decreases keys@.len() - i,
    {
        if keys[i] == *key {
            return true;
        }
        i = i + 1;
    }
    false
}

/// The store keys that one cleanup sweep must delete, given the
/// listed session records: a key belongs to the sweep exactly when
/// some session that is no longer alive names it.
pub open spec fn sweep_key(sessions: Seq<Auth>, now: u64, k: Seq<char>) -> bool {
    exists|i: int|
        0 <= i < sessions.len() && !alive_v(
            (#[trigger] sessions[i]).meta.kill_at,
            sessions[i].meta.next_poll,
            now,
        ) && kill_keys_v(sessions[i].key@, sessions[i].meta.peer, sessions[i].meta.room).contains(k)
}

/// Collects, without duplicates, every key that some dead session
/// names for deletion: the session's own record, its peer's, and its
/// room.
pub fn cleanup_keys(sessions: &Vec<Auth>, now: u64) -> (r: Vec<String>)
    requires
        forall|i: int|
            0 <= i < sessions@.len() ==> (#[trigger] sessions@[i]).meta.next_poll <= u64::MAX
                - GRACE_PERIOD,
    ensures
        forall|j: int| 0 <= j < r@.len() ==> sweep_key(sessions@, now, (#[trigger] r@[j])@),
        forall|k: Seq<char>|
            sweep_key(sessions@, now, k) ==> exists|j: int|
                0 <= j < r@.len() && (#[trigger] r@[j])@ == k,
        forall|j1: int, j2: int| 0 <= j1 < j2 < r@.len() ==> (#[trigger] r@[j1])@ != (
        #[trigger] r@[j2])@,
{
    let mut result: Vec<String> = Vec::new();
    let mut i: usize = 0;
    while i < sessions.len()
        invariant
            i <= sessions@.len(),
            forall|i2: int|
                0 <= i2 < sessions@.len() ==> (#[trigger] sessions@[i2]).meta.next_poll
                    <= u64::MAX - GRACE_PERIOD,
            forall|j: int|
                0 <= j < result@.len() ==> sweep_key(
                    sessions@.take(i as int),
                    now,
                    (#[trigger] result@[j])@,
                ),
            forall|k: Seq<char>|
                sweep_key(sessions@.take(i as int), now, k) ==> exists|j: int|
                    0 <= j < result@.len() && (#[trigger] result@[j])@ == k,
            forall|j1: int, j2: int|
                0 <= j1 < j2 < result@.len() ==> (#[trigger] result@[j1])@ != (
                #[trigger] result@[j2])@,
        decreases sessions@.len() - i,
    {
        let keys = sessions[i].get_keys_to_kill(now);
        let ghost result0 = result@;
        let mut j: usize = 0;
        while j < keys.len()
            invariant
                j <= keys@.len(),
                i < sessions@.len(),
                seq_views(keys@) == kill_keys_v(
                    sessions@[i as int].key@,
                    sessions@[i as int].meta.peer,
                    sessions@[i as int].meta.room,
                ) || keys@.len() == 0,
                !alive_v(
                    sessions@[i as int].meta.kill_at,
                    sessions@[i as int].meta.next_poll,
                    now,
                ) || keys@.len() == 0,
                forall|j2: int|
                    0 <= j2 < result@.len() ==> sweep_key(
                        sessions@.take(i as int),
                        now,
                        (#[trigger] result@[j2])@,
                    ) || (exists|j3: int|
                        0 <= j3 < keys@.len() && (#[trigger] result@[j2])@ == (
                        #[trigger] keys@[j3])@),
                forall|k: Seq<char>|
                    sweep_key(sessions@.take(i as int), now, k) ==> exists|j2: int|
                        0 <= j2 < result@.len() && (#[trigger] result@[j2])@ == k,
                forall|j3: int|
                    0 <= j3 < j ==> exists|j2: int|
                        0 <= j2 < result@.len() && (#[trigger] result@[j2])@ == (
                        #[trigger] keys@[j3])@,
                forall|j1: int, j2: int|
                    0 <= j1 < j2 < result@.len() ==> (#[trigger] result@[j1])@ != (
                    #[trigger] result@[j2])@,
            decreases keys@.len() - j,
        {
            let ghost rpre = result@;
            let k = keys[j].clone();
            let ghost kv = k@;
            if !contains_key(&result, &k) {
                result.push(k);
            }
            proof {
                assert(forall|j2: int|
                    0 <= j2 < rpre.len() ==> result@[j2] == #[trigger] rpre[j2]);
                assert forall|j3: int| 0 <= j3 < j as int + 1 implies exists|j2: int|
                    0 <= j2 < result@.len() && (#[trigger] result@[j2])@ == (
                    #[trigger] keys@[j3])@ by {
                    if j3 < j as int {
                        let w = choose|j2: int|
                            0 <= j2 < rpre.len() && (#[trigger] rpre[j2])@ == keys@[j3]@;
                        assert(result@[w]@ == keys@[j3]@);
                    } else if result@.len() == rpre.len() {
                        let w = choose|j2: int|
                            0 <= j2 < rpre.len() && (#[trigger] rpre[j2])@ == kv;
                        assert(result@[w]@ == keys@[j3]@);
                    } else {
                        assert(result@[result@.len() - 1]@ == keys@[j3]@);
                    }
                }
            }
            j = j + 1;
        }
        proof {
            assert(sessions@.take(i as int + 1).drop_last() =~= sessions@.take(i as int));
            assert(sessions@.take(i as int + 1)[i as int] == sessions@[i as int]);
            assert forall|k: Seq<char>| #[trigger]
            sweep_key(sessions@.take(i as int + 1), now, k) implies exists|j2: int|
                0 <= j2 < result@.len() && (#[trigger] result@[j2])@ == k by {
                let i3 = choose|i3: int|
                    0 <= i3 < sessions@.take(i as int + 1).len() && !alive_v(
                        (#[trigger] sessions@.take(i as int + 1)[i3]).meta.kill_at,
                        sessions@.take(i as int + 1)[i3].meta.next_poll,
                        now,
                    ) && kill_keys_v(
                        sessions@.take(i as int + 1)[i3].key@,
                        sessions@.take(i as int + 1)[i3].meta.peer,
                        sessions@.take(i as int + 1)[i3].meta.room,
                    ).contains(k);
                if i3 < i as int {
                    assert(sweep_key(sessions@.take(i as int), now, k));
                } else {
                    let kk = kill_keys_v(
                        sessions@[i as int].key@,
                        sessions@[i as int].meta.peer,
                        sessions@[i as int].meta.room,
                    );
                    let j3 = choose|j3: int| 0 <= j3 < kk.len() && kk[j3] == k;
                    assert(seq_views(keys@)[j3] == keys@[j3]@);
                }
            }
            assert forall|j2: int|
                0 <= j2 < result@.len() implies sweep_key(
                sessions@.take(i as int + 1),
                now,
                (#[trigger] result@[j2])@,
            ) by {
                if sweep_key(sessions@.take(i as int), now, result@[j2]@) {
                    let i3 = choose|i3: int|
                        0 <= i3 < sessions@.take(i as int).len() && !alive_v(
                            (#[trigger] sessions@.take(i as int)[i3]).meta.kill_at,
                            sessions@.take(i as int)[i3].meta.next_poll,
                            now,
                        ) && kill_keys_v(
                            sessions@.take(i as int)[i3].key@,
                            sessions@.take(i as int)[i3].meta.peer,
                            sessions@.take(i as int)[i3].meta.room,
                        ).contains(result@[j2]@);
                    assert(sessions@.take(i as int)[i3] == sessions@.take(i as int + 1)[i3]);
                } else {
                    let j3 = choose|j3: int|
                        0 <= j3 < keys@.len() && result@[j2]@ == (#[trigger] keys@[j3])@;
                    assert(seq_views(keys@)[j3] == keys@[j3]@);
                    assert(kill_keys_v(
                        sessions@[i as int].key@,
                        sessions@[i as int].meta.peer,
                        sessions@[i as int].meta.room,
                    ).contains(result@[j2]@));
                }
            }
        }
        i = i + 1;
    }
    proof {
        assert(sessions@.take(sessions@.len() as int) =~= sessions@);
    }
    result
}

impl Clone for Signal {
    fn clone(&self) -> (r: Self)
        ensures
            r == *self,
    {
        match self {
            Signal::SetSDP(s) => Signal::SetSDP(s.clone()),
            Signal::AddCandidate(c) => Signal::AddCandidate((
                c.0.clone(),
                match &c.1 {
                    Some(mid) => Some(mid.clone()),
                    None => None,
                },
                c.2,
            )),
            Signal::JoinRoom(code) => Signal::JoinRoom(code.clone()),
            Signal::ConnectAt(at) => Signal::ConnectAt(*at),
            Signal::NextPoll(at) => Signal::NextPoll(*at),
        }
    }
}

} // verus!
