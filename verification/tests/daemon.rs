use narco::daemon::{
    add_onion_command, authenticate_command, check_authenticated, control_closed,
    del_onion_command, no_control_port, parse_bootstrap, parse_control_port, parse_service,
    parse_socks_port, tor_args, BootstrapWatch, DaemonError, ReplyReader, WatchEvent, WatchStep,
};

#[test]
fn parses_both_bootstrap_formats() {
    let (p, s) = parse_bootstrap("Sep 01 21:00:00.000 [notice] Bootstrapped 45% (requesting_descriptors): Asking for relay descriptors").unwrap();
    assert_eq!(p, 45);
    assert!(!s.is_empty());

    let (p, s) =
        parse_bootstrap("650 STATUS_CLIENT NOTICE BOOTSTRAP PROGRESS=100 TAG=done SUMMARY=\"Done\"")
            .unwrap();
    assert_eq!(p, 100);
    assert_eq!(s, "Done");
}

#[test]
fn ignores_unrelated_lines() {
    assert!(parse_bootstrap("[notice] Opening Socks listener").is_none());
    assert!(parse_bootstrap("250 OK").is_none());
}

#[test]
fn summaries_come_from_quotes_or_the_last_colon() {
    assert_eq!(
        parse_bootstrap("x: Bootstrapped 45% (a): Asking: for more"),
        Some((45, "for more".to_owned()))
    );
    assert_eq!(
        parse_bootstrap("BOOTSTRAP PROGRESS=7"),
        Some((7, "BOOTSTRAP PROGRESS=7".to_owned()))
    );
    assert_eq!(
        parse_bootstrap("BOOTSTRAP PROGRESS=7 SUMMARY=\"a: b\" c"),
        Some((7, "a: b".to_owned()))
    );
}

#[test]
fn odd_percentages_are_read_or_refused() {
    assert_eq!(parse_bootstrap("Bootstrapped +9 %").map(|p| p.0), Some(9));
    assert_eq!(parse_bootstrap("Bootstrapped 255%").map(|p| p.0), Some(255));
    assert_eq!(parse_bootstrap("Bootstrapped 256%"), None);
    assert_eq!(parse_bootstrap("Bootstrapped soon"), None);
    assert_eq!(parse_bootstrap("Bootstrapped"), None);
    assert_eq!(parse_bootstrap("BOOTSTRAP PROGRESS=+5"), None);
    assert_eq!(
        parse_bootstrap("BOOTSTRAP PROGRESS=05x").map(|p| p.0),
        Some(5)
    );
    // A second mark ends the piece that is read.
    assert_eq!(
        parse_bootstrap("Bootstrapped 45 Bootstrapped 46%").map(|p| p.0),
        Some(45)
    );
}

#[test]
fn ports_are_read_from_the_end_of_addresses() {
    assert_eq!(parse_control_port("PORT=127.0.0.1:9051\n"), Some(9051));
    assert_eq!(parse_control_port("9051"), Some(9051));
    assert_eq!(parse_control_port("PORT=127.0.0.1:65536"), None);
    assert_eq!(parse_control_port("PORT=127.0.0.1:"), None);
    assert_eq!(parse_control_port(""), None);

    assert_eq!(
        parse_socks_port("250-net/listeners/socks=\"127.0.0.1:9050\"\n250 OK\n").unwrap(),
        9050
    );
    match parse_socks_port("250 OK") {
        Err(DaemonError::Control(e)) => assert_eq!(e, "could not read SOCKS port: 250 OK"),
        other => panic!("got {other:?}"),
    }
}

#[test]
fn commands_are_written_as_tor_expects_them() {
    assert_eq!(
        authenticate_command(&[0x0a, 0xff]),
        "AUTHENTICATE 0aff\r\n"
    );
    assert_eq!(
        add_onion_command("KEY", 9001, 65535),
        "ADD_ONION ED25519-V3:KEY Flags=DiscardPK Port=9001,127.0.0.1:65535\r\n"
    );
    assert_eq!(del_onion_command("abc.onion"), "DEL_ONION abc\r\n");
    assert_eq!(del_onion_command("abc.onion.onion"), "DEL_ONION abc\r\n");
    assert_eq!(del_onion_command("abc"), "DEL_ONION abc\r\n");
    let args = tor_args("/data", "/data/control-port");
    assert_eq!(args.len(), 17);
    assert_eq!(args[3..5], ["DataDirectory", "/data"]);
    assert_eq!(args[9..11], ["ControlPortWriteToFile", "/data/control-port"]);
}

#[test]
fn authentication_is_what_the_reply_says() {
    check_authenticated("250 OK\n").unwrap();
    match check_authenticated("515 Bad\n") {
        Err(DaemonError::Control(e)) => assert_eq!(e, "AUTHENTICATE failed: 515 Bad\n"),
        other => panic!("got {other:?}"),
    }
}

#[test]
fn the_published_service_is_found_and_closed() {
    let address = parse_service("250-ServiceID=abcd\n250 OK\n").unwrap();
    assert_eq!(address, "abcd.onion");
    assert_eq!(del_onion_command(&address), "DEL_ONION abcd\r\n");
    assert_eq!(
        parse_service("250-Other=1\r\n250-ServiceID=xy\r\n250 OK").unwrap(),
        "xy.onion"
    );
    match parse_service("512 Bad\n") {
        Err(DaemonError::Control(e)) => assert_eq!(e, "ADD_ONION gave no ServiceID: 512 Bad\n"),
        other => panic!("got {other:?}"),
    }
}

fn read(bytes: &[u8]) -> (Option<String>, usize) {
    let mut reader = ReplyReader::new();
    for (i, b) in bytes.iter().enumerate() {
        if let Some(reply) = reader.push(*b) {
            return (Some(reply), i + 1);
        }
    }
    (None, bytes.len())
}

#[test]
fn replies_end_at_the_line_that_says_so() {
    assert_eq!(
        read(b"250-a=1\r\n250-b \r\n250 OK\r\nnext"),
        (Some("250-a=1\n250-b\n250 OK\n".to_owned()), 25)
    );
    assert_eq!(read(b"250-a\r\n25"), (None, 9));
    assert_eq!(read(b"250\n"), (None, 4));
    // The fourth byte decides, and a byte above ASCII is two bytes of text.
    assert_eq!(read(b"2\xe9 x\n").0.as_deref(), Some("2é x\n"));
}

#[test]
fn watching_follows_the_progress_to_its_end() {
    let mut watch = BootstrapWatch::new();
    assert!(matches!(
        watch.step(WatchEvent::Line("[notice] hello".into())),
        WatchStep::Wait
    ));
    match watch.step(WatchEvent::Line("Bootstrapped 45% (x): Asking".into())) {
        WatchStep::Progress { percent, summary } => {
            assert_eq!((percent, summary.as_str()), (45, "Asking"));
        }
        other => panic!("got {other:?}"),
    }
    match watch.step(WatchEvent::Deadline) {
        WatchStep::Failed(DaemonError::Bootstrap(e)) => assert_eq!(
            e,
            "stalled at 45% after 180s. Antivirus or firewall software inspecting connections is the usual cause; a network that blocks Tor will do it too."
        ),
        other => panic!("got {other:?}"),
    }
    match watch.step(WatchEvent::Line("Bootstrapped 100% (done): Done".into())) {
        WatchStep::Done { percent, summary } => {
            assert_eq!((percent, summary.as_str()), (100, "Done"));
        }
        other => panic!("got {other:?}"),
    }
    assert!(matches!(
        watch.step(WatchEvent::Closed),
        WatchStep::Failed(DaemonError::Bootstrap(_))
    ));
    match watch.step(WatchEvent::Failed("broken pipe".into())) {
        WatchStep::Failed(e) => assert_eq!(
            e.to_string(),
            "could not connect to the Tor network: broken pipe"
        ),
        other => panic!("got {other:?}"),
    }
}

#[test]
fn daemon_errors_are_put_into_words() {
    assert_eq!(
        DaemonError::NotFound("tor".into()).to_string(),
        "could not find the bundled tor binary (tor)"
    );
    assert_eq!(
        no_control_port().to_string(),
        "could not start tor: tor did not report a control port; it may have failed to start"
    );
    assert_eq!(
        control_closed().to_string(),
        "tor control connection failed: control connection closed"
    );
    assert_eq!(DaemonError::Io("x".into()).to_string(), "x");
}
