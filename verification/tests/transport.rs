use narco::error::Error;
use narco::status;
use narco::transport::{
    app_error, app_status, bad_bridge_line, join_step, nickname, Bootstrap, BootstrapEvent,
    BootstrapStep, BridgeSettings, HostEvent, HostStep, Hosting, JoinEvent, JoinStep, Status,
    TorError, MAX_GUESSES, MEET_TIMEOUT,
};
use narco::wire::{
    recv_frame, send_frame, ConnectError, Handshake, Received, Step, MAX_FRAME,
};

#[test]
fn status_is_comparable_for_ui_dedup() {
    assert_eq!(Status::WaitingForPeer, Status::WaitingForPeer);
    assert_ne!(
        Status::BootstrappingTor { percent: 1 },
        Status::BootstrappingTor { percent: 2 }
    );
}

#[test]
fn frame_roundtrip_and_oversize_rejection() {
    match recv_frame(&send_frame(b"hello")) {
        Received::Frame(f) => assert_eq!(f, b"hello"),
        other => panic!("got {other:?}"),
    }

    // A length header larger than MAX_FRAME must be refused outright,
    // not used to allocate.
    assert!(matches!(
        recv_frame(&u32::MAX.to_be_bytes()),
        Received::TooLarge
    ));
}

#[test]
fn empty_frame_roundtrips() {
    match recv_frame(&send_frame(b"")) {
        Received::Frame(f) => assert_eq!(f, b""),
        other => panic!("got {other:?}"),
    }
}

#[test]
fn frames_ask_for_exactly_what_is_missing() {
    let sent = send_frame(b"hello");
    assert_eq!(sent, [0, 0, 0, 5, b'h', b'e', b'l', b'l', b'o']);
    for n in 0..sent.len() {
        match recv_frame(&sent[..n]) {
            Received::Need(k) if n < 4 => assert_eq!(k, 4 - n),
            Received::Need(k) => assert_eq!(k, sent.len() - n),
            other => panic!("got {other:?}"),
        }
    }
    assert!(matches!(
        recv_frame(&(MAX_FRAME as u32).to_be_bytes()),
        Received::Need(MAX_FRAME)
    ));
    assert!(matches!(
        recv_frame(&(MAX_FRAME as u32 + 1).to_be_bytes()),
        Received::TooLarge
    ));
}

#[test]
fn two_handshakes_confirm_each_other() {
    let derived = match narco::kdf::derive("PWXK7M2QRT9HFZ") {
        Ok(d) => d,
        Err(e) => panic!("refused: {e:?}"),
    };
    let (mut a, from_a) = Handshake::start(&derived);
    let (mut b, from_b) = Handshake::start(&derived);
    let tag_a = match a.step(&from_b) {
        Step::Send(f) => f,
        other => panic!("got {other:?}"),
    };
    let tag_b = match b.step(&from_a) {
        Step::Send(f) => f,
        other => panic!("got {other:?}"),
    };
    assert!(matches!(a.step(&tag_b), Step::Connected));
    assert!(matches!(b.step(&tag_a), Step::Connected));
    let mut a = a.into_session();
    let mut b = b.into_session();
    let frame = a.encrypt(b"hi").unwrap();
    match b.handle(&frame).unwrap() {
        narco::Event::Message(m) => assert_eq!(m, b"hi"),
        other => panic!("got {other:?}"),
    }
}

#[test]
fn a_failed_handshake_says_why() {
    let derived = match narco::kdf::derive("PWXK7M2QRT9HFZ") {
        Ok(d) => d,
        Err(e) => panic!("refused: {e:?}"),
    };
    let (mut a, own) = Handshake::start(&derived);
    match a.step(&own) {
        Step::Failed(ConnectError::Protocol(e)) => assert_eq!(e, Error::Reflection),
        other => panic!("got {other:?}"),
    }
    match a.step(&own) {
        Step::Failed(ConnectError::Protocol(e)) => assert_eq!(e, Error::Dead),
        other => panic!("got {other:?}"),
    }
}

#[test]
fn joining_the_network_is_followed_and_bounded() {
    let (mut boot, status) = Bootstrap::start();
    assert_eq!(status, Status::BootstrappingTor { percent: 0 });
    match boot.step(BootstrapEvent::Progress {
        percent: 40,
        blocked: None,
    }) {
        BootstrapStep::Report(s) => assert_eq!(s, Status::BootstrappingTor { percent: 40 }),
        other => panic!("got {other:?}"),
    }
    match boot.step(BootstrapEvent::Tick) {
        BootstrapStep::Report(s) => assert_eq!(s, Status::BootstrappingTor { percent: 40 }),
        other => panic!("got {other:?}"),
    }
    match boot.step(BootstrapEvent::Progress {
        percent: 41,
        blocked: Some("no route".into()),
    }) {
        BootstrapStep::Report(s) => assert_eq!(
            s,
            Status::TorBlocked {
                detail: "no route".into()
            }
        ),
        other => panic!("got {other:?}"),
    }
    match boot.step(BootstrapEvent::Deadline) {
        BootstrapStep::Failed(e) => assert_eq!(
            e.to_string(),
            "could not connect to the Tor network: could not reach the Tor network after 150s (stuck at 41%). This network is probably blocking Tor — try a phone hotspot or a VPN."
        ),
        other => panic!("got {other:?}"),
    }
    assert!(matches!(
        boot.step(BootstrapEvent::Joined),
        BootstrapStep::Joined
    ));
    assert!(matches!(
        boot.step(BootstrapEvent::Failed("x".into())),
        BootstrapStep::Failed(TorError::Bootstrap(_))
    ));
}

#[test]
fn a_host_waits_for_the_real_peer() {
    let mut host = Hosting::new();
    assert!(matches!(
        host.step(HostEvent::Published),
        HostStep::Wait(Some(Status::WaitingForPeer))
    ));
    assert!(matches!(
        host.step(HostEvent::AcceptFailed),
        HostStep::Wait(None)
    ));
    assert!(matches!(host.step(HostEvent::Accepted), HostStep::Handshake));
    // Rubbish is not a guess, however much of it there is.
    for _ in 0..10 {
        for e in [Error::BadHandshake, Error::Reflection, Error::BadFrame] {
            assert!(matches!(
                host.step(HostEvent::HandshakeFailed(ConnectError::Protocol(e))),
                HostStep::Wait(Some(Status::WaitingForPeer))
            ));
        }
        assert!(matches!(
            host.step(HostEvent::HandshakeFailed(ConnectError::Io("reset".into()))),
            HostStep::Wait(Some(Status::WaitingForPeer))
        ));
    }
    assert_eq!(host.wrong, 0);
    assert!(matches!(host.step(HostEvent::Confirmed), HostStep::Paired));
    assert!(matches!(
        host.step(HostEvent::NobodyCame),
        HostStep::Failed(ConnectError::TimedOut)
    ));
}

#[test]
fn guessing_is_bounded() {
    let wrong = || HostEvent::HandshakeFailed(ConnectError::Protocol(Error::ConfirmMismatch));
    let mut host = Hosting::new();
    let mut last = 0;
    for n in 1..MAX_GUESSES {
        match host.step(wrong()) {
            HostStep::Pause(secs) => {
                assert!(secs > last, "each guess is answered more slowly");
                assert_eq!(secs, 5 * u64::from(n));
                last = secs;
            }
            other => panic!("got {other:?}"),
        }
        assert_eq!(host.wrong, n);
    }
    assert_eq!(MAX_GUESSES, 5);
    assert!(matches!(
        host.step(wrong()),
        HostStep::Failed(ConnectError::Protocol(Error::ConfirmMismatch))
    ));
}

#[test]
fn the_app_is_not_told_which_engine_runs() {
    assert_eq!(
        app_status(Status::BootstrappingTor { percent: 40 }),
        status::Status::BootstrappingTor {
            percent: 40,
            detail: "connecting".into()
        }
    );
    assert_eq!(
        app_status(Status::TorBlocked {
            detail: "no route".into()
        }),
        status::Status::BootstrappingTor {
            percent: 0,
            detail: "no route".into()
        }
    );
    assert_eq!(
        app_status(Status::PublishingService),
        status::Status::PublishingService
    );
    for s in [Status::WaitingForPeer, Status::Retrying { round: 2 }] {
        assert_eq!(app_status(s), status::Status::WaitingForPeer);
    }
    assert_eq!(app_status(Status::PeerFound), status::Status::PeerFound);
    assert_eq!(
        app_error(TorError::Launch("x".into())).to_string(),
        "could not publish onion service: x"
    );
    assert_eq!(
        app_error(TorError::KeystoreDisabled).to_string(),
        "Arti keystore is disabled"
    );
}

#[test]
fn a_joiner_keeps_dialling_unless_the_codes_differ() {
    assert!(matches!(
        join_step(JoinEvent::Dial { elapsed: 0 }),
        JoinStep::Dial
    ));
    assert!(matches!(
        join_step(JoinEvent::Dial {
            elapsed: MEET_TIMEOUT
        }),
        JoinStep::Failed(ConnectError::TimedOut)
    ));
    assert!(matches!(join_step(JoinEvent::NoAnswer), JoinStep::Retry));
    assert!(matches!(join_step(JoinEvent::Answered), JoinStep::Handshake));
    assert!(matches!(join_step(JoinEvent::Confirmed), JoinStep::Paired));
    assert!(matches!(
        join_step(JoinEvent::HandshakeFailed(ConnectError::Protocol(
            Error::Reflection
        ))),
        JoinStep::Retry
    ));
    assert!(matches!(
        join_step(JoinEvent::HandshakeFailed(ConnectError::Protocol(
            Error::ConfirmMismatch
        ))),
        JoinStep::Failed(ConnectError::Protocol(Error::ConfirmMismatch))
    ));
}

#[test]
fn bridges_need_at_least_one_line() {
    let mut bridges = BridgeSettings {
        lyrebird_path: "/bin/lyrebird".into(),
        lines: vec![],
    };
    assert_eq!(
        bridges.check().unwrap_err().to_string(),
        "invalid Tor configuration: no bridge lines provided"
    );
    bridges.lines.push("obfs4 1.2.3.4:443".into());
    bridges.check().unwrap();
    assert_eq!(
        bad_bridge_line("no port").to_string(),
        "invalid Tor configuration: bad bridge line: no port"
    );
}

#[test]
fn labels_are_unique_per_launch() {
    assert_eq!(nickname(0), "narco0");
    assert_eq!(nickname(12), "narco12");
}

#[test]
fn connection_errors_are_put_into_words() {
    assert_eq!(
        TorError::Launch("x".into()).to_string(),
        "could not publish onion service: x"
    );
    assert_eq!(
        TorError::KeystoreDisabled.to_string(),
        "Arti keystore is disabled"
    );
    assert_eq!(
        ConnectError::Tor(status::TorError::Engine("down".into())).to_string(),
        "down"
    );
    assert_eq!(
        ConnectError::Tor(status::TorError::Launch("down".into())).to_string(),
        "could not publish onion service: down"
    );
    assert_eq!(
        ConnectError::Protocol(Error::Dead).to_string(),
        "session has ended"
    );
    assert_eq!(
        ConnectError::Io("reset".into()).to_string(),
        "connection lost: reset"
    );
    assert_eq!(
        ConnectError::TimedOut.to_string(),
        "the other person never arrived"
    );
}
