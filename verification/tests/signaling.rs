use rtc_signal::auth::{Auth, AuthData, AuthMetadata, CONNECT, FAST_POLL, GRACE_PERIOD, POLL};
use rtc_signal::db::{dec_to_u64, key_rng, random_string, u64_to_dec, Metadata};
use rtc_signal::poll::{cleanup_keys, find_join_code, handle_poll, signals_valid, PollError, Signal};
use rtc_signal::room::{Room, RoomData};

fn token(c: char) -> String {
    let mut s = String::new();
    for _ in 0..32 {
        s.push(c);
    }
    s
}

fn sdp(text: &str) -> Signal {
    Signal::SetSDP(text.to_string())
}

fn cand(text: &str) -> Signal {
    Signal::AddCandidate((text.to_string(), None, None))
}

fn new_session(c: char, service: &str, now: u64) -> Auth {
    let mut a = Auth::create(token(c), now);
    a.set_service(service.to_string());
    a
}

fn new_room(code: &str, now: u64) -> Room {
    Room::create(code.to_string(), now)
}

fn is_join(s: &Signal) -> Option<&str> {
    match s {
        Signal::JoinRoom(code) => Some(code.as_str()),
        _ => None,
    }
}

fn is_connect_at(s: &Signal) -> Option<u64> {
    match s {
        Signal::ConnectAt(at) => Some(*at),
        _ => None,
    }
}

fn is_next_poll(s: &Signal) -> Option<u64> {
    match s {
        Signal::NextPoll(at) => Some(*at),
        _ => None,
    }
}

#[test]
fn ident_token_shape() {
    let mut rng = key_rng(42);
    let key = random_string(&mut rng, 32);
    assert_eq!(key.chars().count(), 32);
    for c in key.chars() {
        assert!(c.is_ascii_uppercase() || c.is_ascii_digit());
    }
    let other = random_string(&mut rng, 32);
    assert_eq!(other.len(), 32);
    assert_ne!(key, other);
    let short = random_string(&mut rng, 6);
    assert_eq!(short.len(), 6);
}

#[test]
fn fresh_session_fields() {
    let a = new_session('A', "svc", 1000);
    assert!(a.modified);
    assert_eq!(a.key, token('A'));
    assert_eq!(a.meta.kill_at, 1000 + 3600);
    assert_eq!(a.meta.next_poll, 1000 + 1);
    assert!(a.meta.room.is_none());
    assert!(a.meta.peer.is_none());
    let d = a.data.as_ref().unwrap();
    assert!(!d.sent_sdp && !d.ice_done && !d.sent_join && !d.read_connect);
    assert!(d.queue.is_empty());
    assert_eq!(d.read, 0);
    assert!(d.connect_at.is_none());
}

// A session with neither room nor peer polling one SDP signal gets a
// response that ends with NextPoll and carries no control signal.
#[test]
fn solo_poll_only_next_poll() {
    let mut a = new_session('A', "svc", 1000);
    let out = handle_poll(&mut a, None, vec![sdp("v=0...")], 2000).unwrap();
    assert_eq!(out.len(), 1);
    assert_eq!(is_next_poll(&out[0]), Some(2000 + POLL));
    let d = a.data.as_ref().unwrap();
    assert!(d.sent_sdp);
    assert_eq!(d.queue.len(), 1);
}

#[test]
fn create_and_pair() {
    let t0: u64 = 1000;
    let mut a = new_session('A', "svc", t0);
    let mut room = new_room("ROOM01", t0);

    // A creates the room (takes the offer slot).
    assert!(room.join_room(&mut a));
    let rd: &RoomData = room.data.as_ref().unwrap();
    assert_eq!(rd.offer, token('A'));
    assert!(rd.answer.is_none());
    assert_eq!(rd.service, "svc");
    assert_eq!(a.meta.room.as_deref(), Some("ROOM01"));
    assert!(room.get_peer(&a).is_none());

    // A's first poll response carries JoinRoom exactly once.
    let out = handle_poll(&mut a, None, vec![], t0 + 2).unwrap();
    let joins: Vec<&str> = out.iter().filter_map(is_join).collect();
    assert_eq!(joins, vec!["ROOM01"]);
    assert_eq!(is_next_poll(out.last().unwrap()), Some(t0 + 2 + POLL));

    // ... and never again.
    let out = handle_poll(&mut a, None, vec![], t0 + 3).unwrap();
    assert!(out.iter().filter_map(is_join).next().is_none());

    // B joins as answer.
    let mut b = new_session('B', "svc", t0 + 4);
    assert!(room.join_room(&mut b));
    let rd = room.data.as_ref().unwrap();
    assert_eq!(rd.answer.as_deref(), Some(token('B').as_str()));
    assert_eq!(room.get_peer(&b), Some(token('A')));
    assert_eq!(room.get_peer(&a), Some(token('B')));

    // B's poll response carries JoinRoom for the same room.
    b.set_peer(room.get_peer(&b));
    let out = handle_poll(&mut b, Some(&a), vec![], t0 + 5).unwrap();
    let joins: Vec<&str> = out.iter().filter_map(is_join).collect();
    assert_eq!(joins, vec!["ROOM01"]);
    // B has a peer: fast pacing.
    assert_eq!(is_next_poll(out.last().unwrap()), Some(t0 + 5 + FAST_POLL));
}

#[test]
fn sdp_ice_exchange_and_connect() {
    let t0: u64 = 1000;
    let mut a = new_session('A', "svc", t0);
    let mut b = new_session('B', "svc", t0);
    let mut room = new_room("ROOM02", t0);
    assert!(room.join_room(&mut a));
    assert!(room.join_room(&mut b));
    b.set_peer(room.get_peer(&b));
    a.set_peer(room.get_peer(&a));

    // A uploads its SDP, one candidate, and the ICE terminator.
    let t1 = t0 + 10;
    let batch = vec![sdp("A-sdp"), cand("cand1"), cand("")];
    let out = handle_poll(&mut a, Some(&b), batch, t1).unwrap();
    // B has queued nothing yet; A's response is its JoinRoom + NextPoll.
    assert_eq!(out.iter().filter_map(is_join).count(), 1);
    let da = a.data.as_ref().unwrap();
    assert!(da.sent_sdp && da.ice_done);
    assert_eq!(da.queue.len(), 3);
    let a_next_poll = a.meta.next_poll;
    assert_eq!(a_next_poll, t1 + FAST_POLL);

    // B uploads its SDP and receives A's three signals, in order,
    // then the connect instant, then NextPoll last.
    let t2 = t1 + 1;
    let out = handle_poll(&mut b, Some(&a), vec![sdp("B-sdp")], t2).unwrap();
    assert!(matches!(&out[0], Signal::SetSDP(s) if s == "A-sdp"));
    assert!(matches!(&out[1], Signal::AddCandidate((c, _, _)) if c == "cand1"));
    assert!(matches!(&out[2], Signal::AddCandidate((c, _, _)) if c.is_empty()));
    // B's own one-shot JoinRoom comes on its first pull, then the
    // connect instant: both sides have SDP and A finished ICE, so B
    // fixes it at A's next poll plus the grace.
    assert_eq!(is_join(&out[3]), Some("ROOM02"));
    assert_eq!(is_connect_at(&out[4]), Some(a_next_poll + CONNECT));
    assert_eq!(is_next_poll(&out[5]), Some(t2 + FAST_POLL));
    assert_eq!(out.len(), 6);
    assert_eq!(b.data.as_ref().unwrap().read, 3);

    // A's next poll adopts the same connect instant: both sides
    // observe one value.
    let t3 = t2 + 1;
    let out = handle_poll(&mut a, Some(&b), vec![], t3).unwrap();
    let connects: Vec<u64> = out.iter().filter_map(is_connect_at).collect();
    assert_eq!(connects, vec![a_next_poll + CONNECT]);
    assert_eq!(
        a.data.as_ref().unwrap().connect_at,
        b.data.as_ref().unwrap().connect_at
    );

    // ConnectAt is delivered at most once to each side.
    let out = handle_poll(&mut b, Some(&a), vec![], t3 + 1).unwrap();
    assert!(out.iter().filter_map(is_connect_at).next().is_none());
    let out = handle_poll(&mut a, Some(&b), vec![], t3 + 2).unwrap();
    assert!(out.iter().filter_map(is_connect_at).next().is_none());
}

#[test]
fn room_full_rejects_third_session() {
    let t0: u64 = 1000;
    let mut a = new_session('A', "svc", t0);
    let mut b = new_session('B', "svc", t0);
    let mut c = new_session('C', "svc", t0);
    let mut room = new_room("ROOM03", t0);
    assert!(room.join_room(&mut a));
    assert!(room.join_room(&mut b));
    assert!(!room.join_room(&mut c));
    // Nothing changed for the third session or the room.
    assert!(c.meta.room.is_none());
    let rd = room.data.as_ref().unwrap();
    assert_eq!(rd.offer, token('A'));
    assert_eq!(rd.answer.as_deref(), Some(token('B').as_str()));
}

#[test]
fn service_mismatch_rejects_second_joiner() {
    let t0: u64 = 1000;
    let mut a = new_session('A', "svc-1", t0);
    let mut b = new_session('B', "svc-2", t0);
    let mut room = new_room("ROOM04", t0);
    assert!(room.join_room(&mut a));
    assert!(!room.join_room(&mut b));
    assert!(b.meta.room.is_none());
    let rd = room.data.as_ref().unwrap();
    assert!(rd.answer.is_none());
    // An equal tag is accepted afterwards.
    let mut b2 = new_session('D', "svc-1", t0);
    assert!(room.join_room(&mut b2));
}

#[test]
fn expiry_and_cleanup() {
    let t0: u64 = 1000;
    let mut a = new_session('A', "svc", t0);
    let mut b = new_session('B', "svc", t0);
    let mut room = new_room("ROOM05", t0);
    assert!(room.join_room(&mut a));
    assert!(room.join_room(&mut b));
    a.set_peer(room.get_peer(&a));
    b.set_peer(room.get_peer(&b));

    // Both still alive right before the grace runs out.
    let before = a.meta.next_poll + GRACE_PERIOD - 1;
    assert!(a.is_alive(before));
    assert!(a.get_keys_to_kill(before).is_empty());
    assert!(cleanup_keys(&vec![a, b], before).is_empty());

    // Rebuild the same state and advance past the grace.
    let mut a = new_session('A', "svc", t0);
    let mut b = new_session('B', "svc", t0);
    let mut room = new_room("ROOM05", t0);
    assert!(room.join_room(&mut a));
    assert!(room.join_room(&mut b));
    a.set_peer(room.get_peer(&a));
    b.set_peer(room.get_peer(&b));

    let after = a.meta.next_poll + GRACE_PERIOD;
    assert!(!a.is_alive(after));
    let mut keys = cleanup_keys(&vec![a, b], after);
    keys.sort();
    let mut expected = vec![
        format!("auth:{}", token('A')),
        format!("auth:{}", token('B')),
        String::from("room:ROOM05"),
    ];
    expected.sort();
    assert_eq!(keys, expected);
}

#[test]
fn hard_expiry_bounds_life() {
    let t0: u64 = 1000;
    let mut a = new_session('A', "svc", t0);
    // Keep polling: next_poll advances, but kill_at still bounds life.
    let late = t0 + 3600;
    a.poll(late - 1);
    assert!(!a.is_alive(late));
    assert!(a.is_alive(late - 1));
}

#[test]
fn read_cursor_advances_and_never_replays() {
    let t0: u64 = 1000;
    let mut a = new_session('A', "svc", t0);
    let mut b = new_session('B', "svc", t0);
    a.send_signal(vec![sdp("A-sdp"), cand("c1")]);
    let out = b.pull_signals(Some(&a));
    assert_eq!(out.len(), 3);  // two signals + NextPoll
    assert_eq!(b.data.as_ref().unwrap().read, 2);
    // Nothing new: only NextPoll again, cursor stays.
    let out = b.pull_signals(Some(&a));
    assert_eq!(out.len(), 1);
    assert!(is_next_poll(&out[0]).is_some());
    assert_eq!(b.data.as_ref().unwrap().read, 2);
    // One more signal from A: only the unseen entry is delivered.
    a.send_signal(vec![cand("c2")]);
    let out = b.pull_signals(Some(&a));
    assert_eq!(out.len(), 2);
    assert!(matches!(&out[0], Signal::AddCandidate((c, _, _)) if c == "c2"));
    assert_eq!(b.data.as_ref().unwrap().read, 3);
}

#[test]
fn single_sdp_and_single_terminator() {
    let t0: u64 = 1000;
    let mut a = new_session('A', "svc", t0);
    a.send_signal(vec![sdp("one"), sdp("two")]);
    let d = a.data.as_ref().unwrap();
    assert_eq!(d.queue.len(), 1);
    assert!(matches!(&d.queue[0], Signal::SetSDP(s) if s == "one"));

    a.send_signal(vec![cand(""), cand("late"), cand("")]);
    let d = a.data.as_ref().unwrap();
    // The terminator is enqueued once; everything after it is dropped.
    assert_eq!(d.queue.len(), 2);
    assert!(matches!(&d.queue[1], Signal::AddCandidate((c, _, _)) if c.is_empty()));
    assert!(d.ice_done);

    // Non-sendable signals are never enqueued.
    a.send_signal(vec![Signal::NextPoll(5), Signal::ConnectAt(6), Signal::JoinRoom("R".to_string())]);
    assert_eq!(a.data.as_ref().unwrap().queue.len(), 2);
}

#[test]
fn invalid_signals_rejected() {
    let t0: u64 = 1000;
    assert!(signals_valid(&vec![sdp("x"), cand("y"), Signal::JoinRoom("R".to_string())]));
    assert!(!signals_valid(&vec![Signal::NextPoll(1)]));
    assert!(!signals_valid(&vec![Signal::ConnectAt(1)]));

    let mut a = new_session('A', "svc", t0);
    let r = handle_poll(&mut a, None, vec![Signal::NextPoll(7)], t0 + 1);
    assert_eq!(r.unwrap_err(), PollError::InvalidSignals);
    // The session is untouched.
    assert_eq!(a.meta.next_poll, t0 + 1);
    assert!(a.data.as_ref().unwrap().queue.is_empty());
}

#[test]
fn connection_done_short_circuits() {
    let t0: u64 = 1000;
    let mut a = new_session('A', "svc", t0);
    let mut b = new_session('B', "svc", t0);
    // Drive the exchange to completion.
    a.send_signal(vec![sdp("A"), cand("")]);
    b.send_signal(vec![sdp("B"), cand("")]);
    let _ = a.pull_signals(Some(&b));
    let _ = b.pull_signals(Some(&a));
    let _ = a.pull_signals(Some(&b));
    assert!(a.is_done(&b));
    let r = handle_poll(&mut a, Some(&b), vec![], t0 + 5);
    assert_eq!(r.unwrap_err(), PollError::ConnectionDone);
    // Not symmetric until B drains A's queue too.
    assert!(!b.is_done(&a) || b.data.as_ref().unwrap().read == a.data.as_ref().unwrap().queue.len());
}

#[test]
fn join_code_is_first_join_room() {
    assert_eq!(find_join_code(&vec![]), None);
    assert_eq!(find_join_code(&vec![sdp("x"), cand("y")]), None);
    let batch = vec![
        sdp("x"),
        Signal::JoinRoom("FIRST0".to_string()),
        Signal::JoinRoom("SECOND".to_string()),
    ];
    assert_eq!(find_join_code(&batch), Some("FIRST0".to_string()));
}

#[test]
fn decimal_codec_exact() {
    assert_eq!(u64_to_dec(0), "0");
    assert_eq!(u64_to_dec(7), "7");
    assert_eq!(u64_to_dec(1234567890), "1234567890");
    assert_eq!(u64_to_dec(u64::MAX), "18446744073709551615");

    assert_eq!(dec_to_u64("0"), Some(0));
    assert_eq!(dec_to_u64("4600"), Some(4600));
    assert_eq!(dec_to_u64("18446744073709551615"), Some(u64::MAX));
    assert_eq!(dec_to_u64("18446744073709551616"), None);
    assert_eq!(dec_to_u64(""), None);
    assert_eq!(dec_to_u64("12x4"), None);
    assert_eq!(dec_to_u64("-5"), None);
}

#[test]
fn metadata_round_trip() {
    let meta = AuthMetadata {
        kill_at: 4600,
        next_poll: 1001,
        room: Some("ROOM06".to_string()),
        peer: None,
        service: Some("svc".to_string()),
    };
    let pairs = meta.to_pairs();
    assert_eq!(pairs.len(), 5);
    assert_eq!(pairs[0], ("kill_at".to_string(), "4600".to_string()));
    assert_eq!(pairs[1], ("next_poll".to_string(), "1001".to_string()));
    assert_eq!(pairs[2], ("room".to_string(), "ROOM06".to_string()));
    assert_eq!(pairs[3], ("peer".to_string(), "".to_string()));
    assert_eq!(pairs[4], ("service".to_string(), "svc".to_string()));

    let back = AuthMetadata::from_pairs(&pairs).unwrap();
    assert_eq!(back.kill_at, 4600);
    assert_eq!(back.next_poll, 1001);
    assert_eq!(back.room.as_deref(), Some("ROOM06"));
    assert_eq!(back.peer, None);
    assert_eq!(back.service.as_deref(), Some("svc"));

    // Malformed or missing timestamps are rejected.
    let bad = vec![("kill_at".to_string(), "x".to_string()), ("next_poll".to_string(), "1".to_string())];
    assert!(AuthMetadata::from_pairs(&bad).is_none());
    let missing = vec![("next_poll".to_string(), "1".to_string())];
    assert!(AuthMetadata::from_pairs(&missing).is_none());
}

#[test]
fn bucket_keys() {
    assert_eq!(Auth::get_bucket_key("ABC"), "auth:ABC");
    assert_eq!(Room::get_bucket_key("ROOM07"), "room:ROOM07");
    assert_eq!(Auth::remove_prefix("auth:ABC".to_string()), "ABC");
    assert_eq!(Room::remove_prefix("room:ROOM07".to_string()), "ROOM07");
}

#[test]
fn stale_cursor_tolerated() {
    // Under last-writer-wins a session's cursor can run ahead of the
    // peer-queue snapshot it observes; such a poll delivers nothing
    // and leaves the cursor at the snapshot's length.
    let meta = AuthMetadata {
        kill_at: 4600,
        next_poll: 1001,
        room: None,
        peer: Some(token('B')),
        service: Some("svc".to_string()),
    };
    let data = AuthData {
        sent_sdp: false,
        ice_done: false,
        queue: Vec::new(),
        read: 5,
        connect_at: None,
        sent_join: true,
        read_connect: false,
    };
    let mut a = Auth::loaded(token('A'), Some(data), meta);
    let mut b = new_session('B', "svc", 1000);
    b.send_signal(vec![sdp("B-sdp")]);
    let out = a.pull_signals(Some(&b));
    assert_eq!(out.len(), 1);
    assert!(is_next_poll(&out[0]).is_some());
    assert_eq!(a.data.as_ref().unwrap().read, 1);
}

#[test]
fn poll_pacing() {
    let t0: u64 = 1000;
    let mut a = new_session('A', "svc", t0);
    a.poll(t0 + 50);
    assert_eq!(a.meta.next_poll, t0 + 50 + POLL);
    a.set_peer(Some(token('B')));
    a.poll(t0 + 60);
    assert_eq!(a.meta.next_poll, t0 + 60 + FAST_POLL);
}
