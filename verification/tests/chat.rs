use narco::chat::{
    check_code, read_picked_file, Chat, Next, Outcome, SessionSlot, MAX_RECONNECTS,
};
use narco::files::{count_pieces, take_piece, Arrival, Incoming};
use narco::message::CHUNK;
use narco::session::{Event, Session};
use narco::status::Status;
use narco::ui::{log_line, status_parts, tor_outcome, tor_progress, LogBuffer, UiEvent};

fn pair() -> (Session, Session) {
    let derived = match narco::kdf::derive("PWXK7M2QRT9HFZ") {
        Ok(d) => d,
        Err(e) => panic!("refused: {e:?}"),
    };
    let mut a = Session::from_derived(&derived);
    let mut b = Session::from_derived(&derived);
    let from_a = a.pake_frame();
    let from_b = b.pake_frame();
    let tag_a = match a.handle(&from_b).unwrap() {
        Event::Send(f) => f,
        other => panic!("got {other:?}"),
    };
    let tag_b = match b.handle(&from_a).unwrap() {
        Event::Send(f) => f,
        other => panic!("got {other:?}"),
    };
    assert!(matches!(a.handle(&tag_b).unwrap(), Event::Ready));
    assert!(matches!(b.handle(&tag_a).unwrap(), Event::Ready));
    (a, b)
}

fn chats() -> (Chat, Chat) {
    let (a, b) = pair();
    let mut alice = Chat::new("alice".into(), 600);
    let mut bob = Chat::new("bob".into(), 0);
    assert_eq!(alice.on_connected(a).emit, vec![UiEvent::Ready]);
    assert_eq!(bob.on_connected(b).emit, vec![UiEvent::Ready]);
    (alice, bob)
}

fn frame(outcome: Outcome) -> Vec<u8> {
    match outcome.next {
        Next::Transmit(f) => f,
        other => panic!("expected a frame, got {other:?}"),
    }
}

fn reason(outcome: Outcome) -> String {
    match outcome.next {
        Next::End(why) => why,
        other => panic!("expected the end, got {other:?}"),
    }
}

#[test]
fn what_is_typed_is_shown() {
    let (mut alice, mut bob) = chats();
    let f = frame(alice.on_send("hello"));
    let out = bob.on_frame(&f);
    assert_eq!(
        out.emit,
        vec![UiEvent::Message {
            from: "alice".into(),
            text: "hello".into()
        }]
    );
    assert!(matches!(out.next, Next::Talk));
    let f = frame(bob.on_send("hi"));
    assert_eq!(alice.on_frame(&f).emit.len(), 1);
}

#[test]
fn a_file_crosses_in_pieces() {
    let (mut alice, mut bob) = chats();
    let data: Vec<u8> = (0..(2 * CHUNK + 10)).map(|i| (i % 251) as u8).collect();
    assert!(matches!(
        alice.on_send_file("cat.jpg".into(), data.clone()).next,
        Next::SendFile
    ));
    let mut events = Vec::new();
    let mut sent = Vec::new();
    loop {
        match alice.next_piece().next {
            Next::Transmit(f) => {
                sent.extend(alice.on_piece_sent().emit);
                events.extend(bob.on_frame(&f).emit);
            }
            Next::Talk => break,
            other => panic!("got {other:?}"),
        }
    }
    assert_eq!(sent.len(), 3);
    assert_eq!(
        sent[2],
        UiEvent::FileProgress {
            name: "cat.jpg".into(),
            sent: 3,
            total: 3,
            outgoing: true
        }
    );
    assert_eq!(events.len(), 4);
    assert_eq!(
        events[1],
        UiEvent::FileProgress {
            name: "cat.jpg".into(),
            sent: 2,
            total: 3,
            outgoing: false
        }
    );
    match &events[3] {
        UiEvent::File {
            from,
            name,
            data: got,
        } => {
            assert_eq!(from, "alice");
            assert_eq!(name, "cat.jpg");
            assert_eq!(read_picked_file(got).unwrap(), data);
        }
        other => panic!("got {other:?}"),
    }
    // The next transfer is another one.
    alice.on_send_file("b".into(), vec![1]);
    let f = frame(alice.next_piece());
    assert_eq!(bob.on_frame(&f).emit.len(), 2);
}

#[test]
fn a_message_too_long_is_the_users_to_fix() {
    let (mut alice, mut bob) = chats();
    let out = alice.on_send(&"x".repeat(40_000));
    assert_eq!(
        out.emit,
        vec![UiEvent::Status {
            text: "Message too long.".into(),
            stage: "verify".into()
        }]
    );
    assert!(matches!(out.next, Next::Talk));
    let f = frame(alice.on_send("short"));
    assert_eq!(bob.on_frame(&f).emit.len(), 1);
}

#[test]
fn protocol_errors_end_the_chat_for_good() {
    let (mut alice, mut bob) = chats();
    let mut f = frame(alice.on_send("hello"));
    let last = f.len() - 1;
    f[last] ^= 1;
    assert_eq!(
        reason(bob.on_frame(&f)),
        "Message failed verification — session ended for safety."
    );

    let (mut alice, mut bob) = chats();
    let f = frame(alice.on_send("once"));
    bob.on_frame(&f);
    assert_eq!(
        reason(bob.on_frame(&f)),
        "Message failed verification — session ended for safety."
    );

    let (_, mut bob) = chats();
    assert_eq!(reason(bob.on_frame(&[])), "malformed frame");

    let (a, b) = pair();
    let mut a = a;
    let mut bob = Chat::new("bob".into(), 0);
    bob.on_connected(b);
    let f = a.encrypt(&[99, 0]).unwrap();
    assert_eq!(reason(bob.on_frame(&f)), "Received a malformed message.");
}

#[test]
fn a_handshake_in_the_middle_of_a_chat_is_unexpected() {
    let derived = match narco::kdf::derive("PWXK7M2QRT9HFZ") {
        Ok(d) => d,
        Err(e) => panic!("refused: {e:?}"),
    };
    let mut chat = Chat::new("".into(), 0);
    chat.on_connected(Session::from_derived(&derived));
    let hello = Session::from_derived(&derived).pake_frame();
    assert_eq!(reason(chat.on_frame(&hello)), "Unexpected handshake frame.");
}

#[test]
fn a_dropped_connection_is_chased_but_not_forever() {
    let mut chat = Chat::new("".into(), 0);
    let (a, _b) = pair();
    chat.on_connected(a);
    for _ in 0..MAX_RECONNECTS {
        let out = chat.on_disconnected();
        assert_eq!(out.emit, vec![UiEvent::Reconnecting]);
        assert!(matches!(out.next, Next::Connect));
    }
    let (a, _b) = pair();
    assert_eq!(chat.on_connected(a).emit, vec![UiEvent::Reconnected]);
    assert_eq!(
        reason(chat.on_disconnected()),
        "The other person disconnected."
    );
}

#[test]
fn failing_to_connect_is_shown_and_failing_to_get_back_is_tried_again() {
    let mut chat = Chat::new("".into(), 0);
    assert_eq!(
        reason(chat.on_connect_failed("no network".into())),
        "no network"
    );

    let mut chat = Chat::new("".into(), 0);
    let (a, _b) = pair();
    chat.on_connected(a);
    chat.on_disconnected();
    for _ in 1..MAX_RECONNECTS {
        assert!(matches!(
            chat.on_connect_failed("x".into()).next,
            Next::Connect
        ));
    }
    assert_eq!(
        reason(chat.on_connect_failed("x".into())),
        "Lost the connection and could not get it back."
    );
}

#[test]
fn silence_is_warned_of_and_never_ends_the_chat() {
    let warning = |seconds_left, active| {
        vec![UiEvent::IdleWarning {
            seconds_left,
            active,
        }]
    };
    let (mut alice, mut bob) = chats();
    assert_eq!(alice.next_wait(), Some(540));
    assert_eq!(bob.next_wait(), Some(u32::MAX as u64 - 60));
    assert_eq!(alice.on_waited().emit, warning(60, true));
    // There is nothing more to wait for, and waiting on changes nothing.
    assert_eq!(alice.next_wait(), None);
    for _ in 0..3 {
        let out = alice.on_waited();
        assert!(out.emit.is_empty());
        assert!(matches!(out.next, Next::Talk));
        assert!(alice.is_linked());
    }
    // Traffic in either direction calls it off, and the time starts anew.
    let out = alice.on_send("still here");
    assert_eq!(out.emit, warning(0, false));
    assert_eq!(alice.next_wait(), Some(540));
    let f = frame(out);
    bob.on_waited();
    assert_eq!(bob.on_frame(&f).emit.len(), 2);
    assert_eq!(bob.next_wait(), Some(u32::MAX as u64 - 60));
    // A file is traffic too.
    alice.on_waited();
    assert_eq!(
        alice.on_send_file("x".into(), vec![1]).emit,
        warning(0, false)
    );
    assert_eq!(alice.next_wait(), Some(540));
}

#[test]
fn a_short_idle_time_is_warned_of_at_once() {
    let derived = match narco::kdf::derive("PWXK7M2QRT9HFZ") {
        Ok(d) => d,
        Err(e) => panic!("refused: {e:?}"),
    };
    let mut chat = Chat::new("".into(), 30);
    chat.on_connected(narco::Session::from_derived(&derived));
    assert_eq!(chat.next_wait(), Some(0));
    chat.on_waited();
    assert_eq!(chat.next_wait(), None);
}

#[test]
fn the_user_has_the_last_word() {
    let (mut alice, mut bob) = chats();
    assert_eq!(reason(alice.on_end()), "You ended the session.");
    assert_eq!(reason(bob.on_closed()), "Session closed.");
    assert_eq!(
        reason(Chat::new("".into(), 0).on_cancelled()),
        "You cancelled."
    );
}

#[test]
fn one_session_runs_at_a_time() {
    let mut slot = SessionSlot::new();
    let first = slot.begin().unwrap();
    assert_eq!(slot.begin().unwrap_err(), "a session is already running");
    assert_eq!(slot.take(), Some(first));
    let second = slot.begin().unwrap();
    assert_ne!(first, second);
    // The first one finishing late must not close the second.
    slot.finish(first);
    assert_eq!(slot.current, Some(second));
    slot.finish(second);
    assert_eq!(slot.current, None);
}

#[test]
fn picked_files_are_read_or_refused() {
    assert_eq!(read_picked_file("aGk=").unwrap(), b"hi");
    assert_eq!(
        read_picked_file("not base64!").unwrap_err(),
        "could not read that file"
    );
    assert_eq!(read_picked_file("").unwrap_err(), "that file is empty");
    // Only what an encoder writes is read: no missing padding, no stray bits,
    // nothing around it.
    for text in ["aGk", "aGl=", "aG==k", "a===", "=", " aGk=", "aGk=\n"] {
        assert_eq!(
            read_picked_file(text).unwrap_err(),
            "could not read that file",
            "{text:?}"
        );
    }
    assert_eq!(read_picked_file("Bw==").unwrap(), vec![7]);
    assert_eq!(read_picked_file("+/+/").unwrap(), vec![0xfb, 0xff, 0xbf]);
}

#[test]
fn codes_are_checked_while_typing() {
    check_code("  PWXK7M2QRT9HFZ ").unwrap();
    assert_eq!(
        check_code("abc").unwrap_err(),
        "code must be at least 10 characters"
    );
}

#[test]
fn pieces_make_the_file() {
    for len in [0, 1, CHUNK - 1, CHUNK, CHUNK + 1, 3 * CHUNK] {
        let data: Vec<u8> = (0..len).map(|i| i as u8).collect();
        let n = count_pieces(&data);
        assert_eq!(n, len.div_ceil(CHUNK) as u64);
        let mut joined = Vec::new();
        for i in 0..n {
            let piece = take_piece(&data, i as u32);
            assert!(!piece.is_empty() && piece.len() <= CHUNK);
            joined.extend(piece);
        }
        assert_eq!(joined, data);
    }
}

#[test]
fn pieces_arrive_in_any_order_among_other_transfers() {
    let mut files = Incoming::new();
    assert!(matches!(
        files.receive(1, 2, 3, "a", vec![5]),
        Arrival::Partial { have: 1 }
    ));
    assert!(matches!(
        files.receive(2, 0, 2, "b", vec![9]),
        Arrival::Partial { have: 1 }
    ));
    assert!(matches!(
        files.receive(1, 0, 3, "other name", vec![1, 2]),
        Arrival::Partial { have: 2 }
    ));
    // The same piece again changes nothing.
    assert!(matches!(
        files.receive(1, 0, 3, "a", vec![1, 2]),
        Arrival::Partial { have: 2 }
    ));
    // A different total contradicts the transfer, and is dropped.
    assert!(matches!(
        files.receive(1, 1, 4, "a", vec![7]),
        Arrival::Ignored
    ));
    match files.receive(1, 1, 3, "a", vec![3, 4]) {
        Arrival::Complete { have, name, data } => {
            assert_eq!(have, 3);
            assert_eq!(name, "a");
            assert_eq!(data, vec![1, 2, 3, 4, 5]);
        }
        other => panic!("got {other:?}"),
    }
    // Completed transfers are forgotten.
    assert!(matches!(
        files.receive(1, 0, 2, "a", vec![1]),
        Arrival::Partial { have: 1 }
    ));
}

#[test]
fn the_log_is_bounded_and_keeps_the_newest() {
    let mut log = LogBuffer::new();
    assert_eq!(log.get_logs(), "(no logs yet)");
    log.push_log("  \n");
    assert_eq!(log.get_logs(), "(no logs yet)");
    log.write("one \r\n\ntwo\nthree");
    assert_eq!(log.get_logs(), "one\ntwo\nthree");
    for i in 0..600 {
        log.push_log(&format!("line {i}"));
    }
    let shown = log.get_logs();
    assert_eq!(shown.lines().count(), 500);
    assert!(shown.starts_with("line 100\n"));
    assert!(shown.ends_with("line 599"));
}

#[test]
fn nothing_said_is_ever_logged() {
    assert_eq!(
        log_line(&UiEvent::Message {
            from: "a".into(),
            text: "b".into()
        }),
        None
    );
    assert_eq!(
        log_line(&UiEvent::File {
            from: "a".into(),
            name: "b".into(),
            data: "c".into()
        }),
        None
    );
    assert_eq!(
        log_line(&UiEvent::FileProgress {
            name: "secret.png".into(),
            sent: 2,
            total: 10,
            outgoing: false
        })
        .unwrap(),
        "[narco] file receiving 2/10"
    );
}

#[test]
fn events_are_logged_in_words() {
    for (e, line) in [
        (UiEvent::Ready, "[narco] handshake confirmed — chat live"),
        (
            UiEvent::Reconnecting,
            "[narco] connection lost — reconnecting",
        ),
        (UiEvent::Reconnected, "[narco] reconnected"),
        (
            UiEvent::Ended {
                reason: "bye".into(),
            },
            "[narco] ended: bye",
        ),
        (
            UiEvent::IdleWarning {
                seconds_left: 60,
                active: true,
            },
            "[narco] idle warning shown",
        ),
        (
            UiEvent::Status {
                text: "t".into(),
                stage: "s".into(),
            },
            "[narco] status[s] t",
        ),
        (
            tor_outcome(Some("down")),
            "[narco] tor: down (ready=false failed=true)",
        ),
        (
            tor_outcome(None),
            "[narco] tor: Tor ready (ready=true failed=false)",
        ),
        (
            tor_progress(Status::PublishingService),
            "[narco] tor: Publishing your address… (ready=false failed=false)",
        ),
    ] {
        assert_eq!(log_line(&e).as_deref(), Some(line));
    }
}

#[test]
fn statuses_have_a_text_and_a_stage() {
    assert_eq!(
        status_parts(Status::BootstrappingTor {
            percent: 45,
            detail: "Loading".into()
        }),
        ("Joining the Tor network… 45% — Loading".to_owned(), "tor")
    );
    assert_eq!(status_parts(Status::WaitingForPeer).1, "peer");
    assert_eq!(
        status_parts(Status::PeerFound),
        (
            "Found them. Verifying it's really them…".to_owned(),
            "verify"
        )
    );
}
