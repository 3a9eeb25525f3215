use narco::relay::{
    is_valid_room_id, read_join, room_number, AppState, ClientMessage, Delivery, Entrance, Out,
    Relayed, Request, Room, IDLE_TIMEOUT, KIND_JOIN, MAX_FRAME, MAX_ROOMS, SYS_EXPIRED,
    SYS_PEER_JOINED, SYS_PEER_LEFT, SYS_ROOM_FULL, SYS_WAITING,
};

const SECOND: u64 = 1_000_000_000;

/// What was written to one peer, with `<close>` for the end.
fn inbox(deliveries: &[Delivery], peer: u64) -> Vec<String> {
    deliveries
        .iter()
        .filter(|d| d.to == peer)
        .map(|d| match &d.out {
            Out::Sys(s) => s.to_string(),
            Out::Bin(_) => panic!("expected a control message, got binary"),
            Out::Close => "<close>".to_owned(),
        })
        .collect()
}

fn key(id: &str) -> u128 {
    assert!(is_valid_room_id(id));
    room_number(id.as_bytes())
}

fn occupied(room: Room) -> usize {
    room.peers.0.iter().count() + room.peers.1.iter().count()
}

#[test]
fn control_messages_are_distinguishable() {
    assert_ne!(SYS_WAITING, SYS_PEER_JOINED);
    assert_ne!(SYS_PEER_LEFT, SYS_EXPIRED);
    assert_ne!(SYS_ROOM_FULL, SYS_PEER_JOINED);
}

#[test]
fn room_id_validation_is_strict() {
    assert!(is_valid_room_id("0123456789abcdef0123456789abcdef"));
    assert!(!is_valid_room_id("0123456789ABCDEF0123456789ABCDEF"));
    assert!(!is_valid_room_id("0123456789abcdef0123456789abcde"));
    assert!(!is_valid_room_id("0123456789abcdef0123456789abcdeg"));
    assert!(!is_valid_room_id(""));
    assert!(!is_valid_room_id("../../../etc/passwd0123456789abc"));
}

#[test]
fn third_peer_is_refused_and_does_not_disturb_the_room() {
    let mut state = AppState::new();
    let id = key("0123456789abcdef0123456789abcdef");
    let mut sent = Vec::new();

    let (slot, out) = state.join_room(id, 0, 1);
    assert_eq!(slot, Some(0));
    sent.extend(out);
    let (slot, out) = state.join_room(id, 1, 2);
    assert_eq!(slot, Some(1));
    sent.extend(out);
    let (slot, out) = state.join_room(id, 2, 3);
    assert_eq!(slot, None, "third peer must be refused");
    sent.extend(out);

    // First peer: waiting, then peer_joined, in that order; second peer:
    // peer_joined only, never `waiting`. Neither incumbent was disturbed by the
    // refusal.
    assert_eq!(inbox(&sent, 0), vec![SYS_WAITING, SYS_PEER_JOINED]);
    assert_eq!(inbox(&sent, 1), vec![SYS_PEER_JOINED]);
    assert!(inbox(&sent, 2).is_empty());

    assert_eq!(occupied(state.room(id).unwrap()), 2);
}

#[test]
fn leaving_frees_a_slot_only_via_room_destruction() {
    let mut state = AppState::new();
    let id = key("aaaaaaaaaaaaaaaaaaaaaaaaaaaaaaaa");
    let mut sent = Vec::new();
    sent.extend(state.join_room(id, 0, 1).1);
    sent.extend(state.join_room(id, 1, 2).1);

    sent.extend(state.destroy_room(id));

    // The survivor is told, and the room is gone entirely.
    assert_eq!(
        inbox(&sent, 1),
        vec![SYS_PEER_JOINED, SYS_PEER_LEFT, "<close>"]
    );
    assert!(state.rooms.is_empty());
}

#[test]
fn destroying_an_unknown_room_is_harmless() {
    let mut state = AppState::new();
    assert!(state
        .destroy_room(key("ffffffffffffffffffffffffffffffff"))
        .is_empty());
    assert!(state.rooms.is_empty());
}

#[test]
fn room_capacity_is_enforced() {
    let mut state = AppState::new();
    for i in 0..MAX_ROOMS {
        state.rooms.insert(
            key(&format!("{i:032x}")),
            Room {
                peers: (None, None),
                last_activity: 0,
            },
        );
    }
    // A brand-new room is refused at capacity...
    let (slot, out) = state.join_room(key("ffffffffffffffffffffffffffffffff"), 7, 1);
    assert_eq!(slot, None);
    assert!(out.is_empty());
    // ...but an existing room still accepts its second peer.
    assert_eq!(
        state.join_room(key(&format!("{:032x}", 0)), 8, 1).0,
        Some(0)
    );
}

#[test]
fn idle_rooms_expire_and_active_ones_survive() {
    let mut state = AppState::new();
    let now = IDLE_TIMEOUT + 5 * SECOND;
    let old = key(&"0".repeat(32));
    let new = key(&"1".repeat(32));
    state.rooms.insert(
        old,
        Room {
            peers: (Some(4), None),
            last_activity: now - IDLE_TIMEOUT - SECOND,
        },
    );
    state.rooms.insert(
        new,
        Room {
            peers: (Some(5), None),
            last_activity: now,
        },
    );

    let sent = state.reap(now);

    assert!(state.room(old).is_none(), "idle room must be reaped");
    assert!(state.room(new).is_some(), "active room must survive");
    assert_eq!(inbox(&sent, 4), vec![SYS_EXPIRED, "<close>"]);
    assert_eq!(sent.len(), 2);
}

#[test]
fn touch_resets_the_idle_timer() {
    let mut state = AppState::new();
    let id = key(&"b".repeat(32));
    let stale = 0;
    state.rooms.insert(
        id,
        Room {
            peers: (None, None),
            last_activity: stale,
        },
    );
    state.touch(id, 300 * SECOND);
    assert!(state.room(id).unwrap().last_activity > stale);
    // An unknown room is not made by touching it.
    state.touch(key(&"c".repeat(32)), 1);
    assert_eq!(state.rooms.len(), 1);
}

#[test]
fn the_timeout_is_exact() {
    let mut state = AppState::new();
    state.join_room(1, 0, 10);
    assert!(state.reap(10 + IDLE_TIMEOUT - 1).is_empty());
    assert!(state.room(1).is_some());
    // A clock that is behind the room reaps nothing.
    assert!(state.reap(0).is_empty());
    assert_eq!(
        inbox(&state.reap(10 + IDLE_TIMEOUT), 0),
        vec![SYS_EXPIRED, "<close>"]
    );
    assert!(state.room(1).is_none());
}

#[test]
fn only_a_join_frame_opens_a_room() {
    let mut frame = vec![KIND_JOIN];
    frame.extend_from_slice(b"000000000000000000000000000000ff");
    assert_eq!(read_join(&frame), Some(255));
    assert_eq!(read_join(&frame[..32]), None);
    frame[0] = 1;
    assert_eq!(read_join(&frame), None);
    frame[0] = KIND_JOIN;
    frame[5] = b'A';
    assert_eq!(read_join(&frame), None);
    assert_eq!(read_join(&[]), None);
}

#[test]
fn identifiers_name_one_room_each() {
    assert_eq!(key("ffffffffffffffffffffffffffffffff"), u128::MAX);
    assert_eq!(key("00000000000000000000000000000010"), 16);
    assert_ne!(
        key("10000000000000000000000000000000"),
        key("01000000000000000000000000000000")
    );
}

fn join_frame(id: &str) -> Option<ClientMessage> {
    let mut frame = vec![KIND_JOIN];
    frame.extend_from_slice(id.as_bytes());
    Some(ClientMessage::Binary(frame))
}

#[test]
fn a_connection_enters_or_is_told_why_not() {
    let mut state = AppState::new();
    let id = "0123456789abcdef0123456789abcdef";
    for (peer, want) in [(0u64, 0usize), (1, 1)] {
        match state.enter(join_frame(id), peer, 1) {
            Entrance::Entered { room, slot, .. } => {
                assert_eq!(room, key(id));
                assert_eq!(slot, want);
            }
            other => panic!("expected to enter, got {other:?}"),
        }
    }
    match state.enter(join_frame(id), 2, 1) {
        Entrance::Refused(out) => {
            assert_eq!(inbox(&out, 2), vec![SYS_ROOM_FULL, "<close>"]);
        }
        other => panic!("expected a refusal, got {other:?}"),
    }
    for first in [
        None,
        Some(ClientMessage::Text),
        Some(ClientMessage::Keepalive),
        Some(ClientMessage::Binary(vec![1, 2, 3])),
    ] {
        match state.enter(first, 3, 1) {
            Entrance::Refused(out) => assert_eq!(inbox(&out, 3), vec!["<close>"]),
            other => panic!("expected a refusal, got {other:?}"),
        }
    }
    assert_eq!(state.rooms.len(), 1);
}

#[test]
fn payloads_go_to_the_other_slot_verbatim() {
    let mut state = AppState::new();
    let id = 42;
    state.join_room(id, 10, 1);
    // Alone: the frame is dropped, and counts as activity.
    assert!(matches!(
        state.relay(id, 0, vec![1], true, 5),
        Relayed::Nothing
    ));
    assert_eq!(state.room(id).unwrap().last_activity, 5);
    state.join_room(id, 11, 6);
    match state.relay(id, 0, vec![1, 2], true, 7) {
        Relayed::Forward(d) => {
            assert_eq!(
                d,
                Delivery {
                    to: 11,
                    out: Out::Bin(vec![1, 2])
                }
            );
        }
        other => panic!("expected a delivery, got {other:?}"),
    }
    match state.relay(id, 1, vec![3], true, 8) {
        Relayed::Forward(d) => assert_eq!(d.to, 10),
        other => panic!("expected a delivery, got {other:?}"),
    }
    // Too fast, or a room that is gone: the connection is over.
    assert!(matches!(
        state.relay(id, 1, vec![3], false, 9),
        Relayed::End
    ));
    assert_eq!(state.room(id).unwrap().last_activity, 8);
    assert!(matches!(state.relay(43, 1, vec![3], true, 9), Relayed::End));
}

#[test]
fn requests_are_told_apart_by_frame_type_and_size() {
    assert_eq!(
        ClientMessage::Binary(vec![0; MAX_FRAME]).request(),
        Request::Relay
    );
    assert_eq!(
        ClientMessage::Binary(vec![0; MAX_FRAME + 1]).request(),
        Request::End
    );
    assert_eq!(ClientMessage::Text.request(), Request::End);
    assert_eq!(ClientMessage::Keepalive.request(), Request::Touch);
    assert_eq!(ClientMessage::Close.request(), Request::End);
}
