use chacha20poly1305::aead::{Aead, KeyInit, Payload};
use chacha20poly1305::ChaCha20Poly1305;
use narco::error::Error;
use narco::frame;
use narco::session::{
    aad_for, agree, nonce_for, order_messages, read_opened, Event, Phase, Session,
};

/// Drive two sessions through a full handshake over an in-memory "relay".
fn handshake(code_a: &str, code_b: &str) -> Result<(Session, Session), Error> {
    let mut a = Session::new(code_a)?;
    let mut b = Session::new(code_b)?;

    let a_pake = a.pake_frame();
    let b_pake = b.pake_frame();

    let a_confirm = match a.handle(&b_pake)? {
        Event::Send(f) => f,
        other => panic!("expected Send, got {other:?}"),
    };
    let b_confirm = match b.handle(&a_pake)? {
        Event::Send(f) => f,
        other => panic!("expected Send, got {other:?}"),
    };

    assert!(
        matches!(a.handle(&b_confirm)?, Event::Ready),
        "a should be ready"
    );
    assert!(
        matches!(b.handle(&a_confirm)?, Event::Ready),
        "b should be ready"
    );

    Ok((a, b))
}

fn ready() -> (Session, Session) {
    match handshake(CODE, CODE) {
        Ok(pair) => pair,
        Err(e) => panic!("handshake failed: {e:?}"),
    }
}

fn fresh(code: &str) -> Session {
    match Session::new(code) {
        Ok(s) => s,
        Err(e) => panic!("refused: {e:?}"),
    }
}

fn exchange(from: &mut Session, to: &mut Session, msg: &[u8]) -> Vec<u8> {
    let frame = from.encrypt(msg).expect("encrypt");
    match to.handle(&frame).expect("decrypt") {
        Event::Message(m) => m,
        other => panic!("expected Message, got {other:?}"),
    }
}

const CODE: &str = "PWXK7M2QRT9HFZ";
const OTHER: &str = "LDN4VB8SGJ3YQC";

#[test]
fn matching_codes_reach_ready_and_agree_on_room() {
    let (a, b) = ready();
    assert!(a.is_ready() && b.is_ready());
    assert_eq!(a.room_id(), b.room_id());
}

#[test]
fn messages_round_trip_in_both_directions() {
    let (mut a, mut b) = ready();
    assert_eq!(exchange(&mut a, &mut b, b"hello from a"), b"hello from a");
    assert_eq!(exchange(&mut b, &mut a, b"hello from b"), b"hello from b");
    for i in 0..50u32 {
        let msg = format!("message {i}");
        assert_eq!(exchange(&mut a, &mut b, msg.as_bytes()), msg.as_bytes());
    }
}

#[test]
fn empty_and_maximum_messages_work() {
    let (mut a, mut b) = ready();
    assert_eq!(exchange(&mut a, &mut b, b""), b"");
    let big = vec![0x5Au8; frame::MAX_PLAINTEXT];
    assert_eq!(exchange(&mut a, &mut b, &big), big);
}

#[test]
fn oversize_message_is_rejected_without_killing_the_session() {
    let (mut a, mut b) = ready();
    let too_big = vec![0u8; frame::MAX_PLAINTEXT + 1];
    assert_eq!(a.encrypt(&too_big).unwrap_err(), Error::TooLong);
    assert!(a.is_ready(), "session must survive a too-long message");
    assert_eq!(exchange(&mut a, &mut b, b"still fine"), b"still fine");
}

/// Rubbish is not a guess.
///
/// A host counts wrong secrets against a limit and abandons the room once it
/// has seen enough of them. If a failure to read the handshake message looked
/// like somebody typing the wrong secret, five junk connections would make the
/// host give up on the meeting, and anyone who could reach the address could
/// shut the room without ever guessing anything.
#[test]
fn unreadable_handshake_input_is_not_a_wrong_secret() {
    let a_pake = fresh(CODE).pake_frame();
    for junk in [
        // Right length, all zeroes: not a point on the curve.
        vec![0u8; a_pake.len()],
        // Right length, wrong side marker.
        {
            let mut v = a_pake.clone();
            v[1] ^= 0xff;
            v
        },
        // Truncated.
        a_pake[..a_pake.len() - 1].to_vec(),
    ] {
        let mut s = fresh(CODE);
        match s.handle(&junk) {
            Err(Error::ConfirmMismatch) => {
                panic!("junk was counted as a wrong secret, which lets it close the room")
            }
            Err(_) => {}
            Ok(e) => panic!("junk was accepted: {e:?}"),
        }
    }
}

#[test]
fn mismatched_codes_fail_at_confirmation() {
    let mut a = fresh(CODE);
    let mut b = fresh(OTHER);
    // Different codes mean different rooms, so they would never meet; force
    // them together to prove confirmation is what rejects them.
    assert_ne!(a.room_id(), b.room_id());

    let a_pake = a.pake_frame();
    let b_pake = b.pake_frame();
    let a_confirm = match a.handle(&b_pake).unwrap() {
        Event::Send(f) => f,
        other => panic!("got {other:?}"),
    };
    let b_confirm = match b.handle(&a_pake).unwrap() {
        Event::Send(f) => f,
        other => panic!("got {other:?}"),
    };

    assert_eq!(a.handle(&b_confirm).unwrap_err(), Error::ConfirmMismatch);
    assert_eq!(b.handle(&a_confirm).unwrap_err(), Error::ConfirmMismatch);
    assert_eq!(a.phase(), Phase::Dead);
    assert_eq!(b.phase(), Phase::Dead);
    assert_eq!(a.encrypt(b"leak?").unwrap_err(), Error::WrongPhase);
}

#[test]
fn reflected_handshake_is_rejected() {
    let mut a = fresh(CODE);
    let own = a.pake_frame();
    assert_eq!(a.handle(&own).unwrap_err(), Error::Reflection);
    assert_eq!(a.phase(), Phase::Dead);
}

#[test]
fn replayed_message_is_rejected() {
    let (mut a, mut b) = ready();
    let frame = a.encrypt(b"once").unwrap();
    assert!(matches!(b.handle(&frame).unwrap(), Event::Message(_)));
    assert_eq!(
        b.handle(&frame).unwrap_err(),
        Error::OutOfOrder {
            expected: 1,
            got: 0
        }
    );
    assert_eq!(b.phase(), Phase::Dead);
}

#[test]
fn reordered_message_is_rejected() {
    let (mut a, mut b) = ready();
    let first = a.encrypt(b"one").unwrap();
    let second = a.encrypt(b"two").unwrap();
    assert_eq!(
        b.handle(&second).unwrap_err(),
        Error::OutOfOrder {
            expected: 0,
            got: 1
        }
    );
    drop(first);
}

#[test]
fn tampered_ciphertext_is_rejected() {
    let (mut a, mut b) = ready();
    let mut frame = a.encrypt(b"authentic").unwrap();
    let last = frame.len() - 1;
    frame[last] ^= 0x01;
    assert_eq!(b.handle(&frame).unwrap_err(), Error::Decrypt);
    assert_eq!(b.phase(), Phase::Dead);
}

#[test]
fn forward_secrecy_old_key_cannot_decrypt_later_message() {
    let (mut a, mut b) = ready();
    // Capture the key that encrypts message 0, then advance past it.
    let key0 = a.tx().as_ref().unwrap().key.clone();
    let _ = exchange(&mut a, &mut b, b"first");
    let frame1 = a.encrypt(b"second").unwrap();

    // A recorded key from before the ratchet must not open a later message.
    let ct = &frame1[9..];
    let cipher = ChaCha20Poly1305::new_from_slice(key0.as_ref()).unwrap();
    assert!(cipher
        .decrypt(
            &nonce_for(1).into(),
            Payload {
                msg: ct,
                aad: &aad_for(1)
            }
        )
        .is_err());
    // And the key genuinely changed.
    assert_ne!(a.tx().as_ref().unwrap().key.as_ref(), key0.as_ref());
}

#[test]
fn out_of_phase_frames_are_rejected() {
    let mut a = fresh(CODE);
    // A message frame before the handshake completes.
    assert_eq!(
        a.handle(&frame::msg_frame(0, b"x")).unwrap_err(),
        Error::WrongPhase
    );
    assert_eq!(a.phase(), Phase::Dead);

    let mut c = fresh(CODE);
    assert_eq!(
        c.handle(&frame::confirm_frame(&[0u8; 32])).unwrap_err(),
        Error::WrongPhase
    );
}

#[test]
fn wipe_is_idempotent_and_terminal() {
    let (mut a, _b) = ready();
    a.wipe();
    a.wipe();
    assert_eq!(a.phase(), Phase::Dead);
    assert_eq!(a.encrypt(b"x").unwrap_err(), Error::WrongPhase);
    assert_eq!(
        a.handle(&frame::msg_frame(0, b"x")).unwrap_err(),
        Error::Dead
    );
}

#[test]
fn counters_advance_independently_per_direction() {
    let (mut a, mut b) = ready();
    exchange(&mut a, &mut b, b"a1");
    exchange(&mut a, &mut b, b"a2");
    exchange(&mut b, &mut a, b"b1");
    assert_eq!(a.tx().as_ref().unwrap().ctr, 2);
    assert_eq!(a.rx().as_ref().unwrap().ctr, 1);
    assert_eq!(b.tx().as_ref().unwrap().ctr, 1);
    assert_eq!(b.rx().as_ref().unwrap().ctr, 2);
}

#[test]
fn peers_take_opposite_roles_so_directions_do_not_collide() {
    let (a, b) = ready();
    // A's send key must be B's receive key, and vice versa.
    assert_eq!(
        a.tx().as_ref().unwrap().key.as_ref(),
        b.rx().as_ref().unwrap().key.as_ref()
    );
    assert_eq!(
        a.rx().as_ref().unwrap().key.as_ref(),
        b.tx().as_ref().unwrap().key.as_ref()
    );
    // The two directions must not share a key.
    assert_ne!(
        a.tx().as_ref().unwrap().key.as_ref(),
        a.rx().as_ref().unwrap().key.as_ref()
    );
}

#[test]
fn junk_of_the_right_length_is_a_bad_handshake() {
    let mut s = fresh(CODE);
    // The symmetric marker, then bytes that are no point of the curve.
    let mut junk = vec![0x53u8; 33];
    for (i, b) in junk.iter_mut().enumerate().skip(1) {
        *b = if i == 1 { 2 } else { 0 };
    }
    assert_eq!(
        s.handle(&frame::pake_frame(&junk)).unwrap_err(),
        Error::BadHandshake
    );
    assert_eq!(s.phase(), Phase::Dead);
    assert_eq!(s.pake_frame(), vec![frame::KIND_PAKE]);

    let mut s = fresh(CODE);
    assert_eq!(
        s.handle(&frame::pake_frame(&[0u8; 33])).unwrap_err(),
        Error::BadHandshake
    );
}

#[test]
fn malformed_frames_end_a_session_by_their_own_name() {
    let mut s = fresh(CODE);
    assert_eq!(s.handle(&[]).unwrap_err(), Error::BadFrame);
    let mut s = fresh(CODE);
    assert_eq!(s.handle(&[7, 7]).unwrap_err(), Error::UnknownKind(7));
    assert_eq!(s.handle(&[7, 7]).unwrap_err(), Error::Dead);
}

#[test]
fn authentic_but_badly_padded_messages_are_rejected() {
    let (a, mut b) = ready();
    // Seal something that is not padded under the key the peer expects.
    let key = a.tx().as_ref().unwrap().key.clone();
    let cipher = ChaCha20Poly1305::new_from_slice(key.as_ref()).unwrap();
    let ct = cipher
        .encrypt(
            &nonce_for(0).into(),
            Payload {
                msg: &[0u8; 10],
                aad: &aad_for(0),
            },
        )
        .unwrap();
    assert_eq!(
        b.handle(&frame::msg_frame(0, &ct)).unwrap_err(),
        Error::Padding
    );
    assert_eq!(b.phase(), Phase::Dead);
}

#[test]
fn a_message_is_sealed_as_documented() {
    let (mut a, _b) = ready();
    let key = a.tx().as_ref().unwrap().key.clone();
    let f = a.encrypt(b"hi").unwrap();
    assert_eq!(&f[..9], &[3, 0, 0, 0, 0, 0, 0, 0, 0]);
    assert_eq!(f.len(), 9 + 256 + 16);
    let cipher = ChaCha20Poly1305::new_from_slice(key.as_ref()).unwrap();
    let padded = cipher
        .decrypt(
            &nonce_for(0).into(),
            Payload {
                msg: &f[9..],
                aad: &aad_for(0),
            },
        )
        .unwrap();
    assert_eq!(frame::unpad(&padded).unwrap(), b"hi");
}

#[test]
fn nonces_and_associated_data_carry_the_counter() {
    assert_eq!(
        nonce_for(0x0102),
        [0, 0, 0, 0, 0, 0, 0, 0, 0, 0, 1, 2]
    );
    let aad = aad_for(1);
    assert_eq!(&aad[..12], b"narco/v1/msg");
    assert_eq!(&aad[12..], &[0, 0, 0, 0, 0, 0, 0, 1]);
    assert_ne!(nonce_for(1), nonce_for(2));
    assert_ne!(aad_for(1), aad_for(2));
}

#[test]
fn sessions_begin_awaiting_the_handshake() {
    let s = fresh(CODE);
    assert_eq!(s.phase(), Phase::AwaitPake);
    assert!(!s.is_ready());
    assert!(s.tx().is_none() && s.rx().is_none());
    let hello = s.pake_frame();
    assert_eq!(hello.len(), 1 + frame::PAKE_LEN);
    assert_eq!(&hello[..2], &[frame::KIND_PAKE, 0x53]);
    // Each session draws its own ephemeral.
    assert_ne!(hello, fresh(CODE).pake_frame());
}

#[test]
fn a_session_is_not_made_of_a_bad_code() {
    match Session::new("short") {
        Ok(_) => panic!("accepted"),
        Err(e) => assert_eq!(e, Error::CodeTooShort),
    }
}

#[test]
fn the_lower_message_comes_first() {
    assert_eq!(order_messages(&[1, 2], &[1, 3]), (true, vec![1, 2, 1, 3]));
    assert_eq!(order_messages(&[1, 3], &[1, 2]), (false, vec![1, 2, 1, 3]));
    assert_eq!(order_messages(&[1], &[1, 0]), (true, vec![1, 1, 0]));
    assert_eq!(order_messages(&[255], &[0, 0]), (false, vec![0, 0, 255]));
}

#[test]
fn two_peers_draw_mirrored_keys() {
    let a = agree(b"shared key", b"message a", b"message b");
    let b = agree(b"shared key", b"message b", b"message a");
    assert_eq!(a.tx.as_ref(), b.rx.as_ref());
    assert_eq!(a.rx.as_ref(), b.tx.as_ref());
    assert_eq!(a.my_confirm.as_ref(), b.peer_confirm.as_ref());
    assert_eq!(a.peer_confirm.as_ref(), b.my_confirm.as_ref());
    assert_ne!(a.tx.as_ref(), a.rx.as_ref());
    assert_ne!(a.my_confirm.as_ref(), a.peer_confirm.as_ref());

    let mut expected = [0u8; 32];
    hkdf::Hkdf::<sha2::Sha256>::new(Some(b"message amessage b"), b"shared key")
        .expand(b"narco/v1/key-A", &mut expected)
        .unwrap();
    assert_eq!(a.tx.as_ref(), &expected);
}

#[test]
fn only_authentic_and_padded_bytes_are_a_message() {
    assert_eq!(read_opened(None).unwrap_err(), Error::Decrypt);
    assert_eq!(read_opened(Some(vec![0; 5])).unwrap_err(), Error::Padding);
    let padded = frame::pad(b"hello").unwrap();
    assert_eq!(read_opened(Some(padded)).unwrap(), b"hello");
}

#[test]
fn sending_too_early_ends_the_session() {
    for m in [b"leak?".to_vec(), vec![0; frame::MAX_PLAINTEXT + 1]] {
        let mut a = fresh(CODE);
        assert_eq!(a.encrypt(&m).unwrap_err(), Error::WrongPhase);
        assert_eq!(a.phase(), Phase::Dead);

        let mut a = fresh(CODE);
        let b = fresh(CODE);
        a.handle(&b.pake_frame()).unwrap();
        assert_eq!(a.phase(), Phase::AwaitConfirm);
        assert_eq!(a.encrypt(&m).unwrap_err(), Error::WrongPhase);
        assert_eq!(a.phase(), Phase::Dead);
    }
}

#[test]
fn a_frame_is_as_long_as_its_bucket() {
    let (mut a, _b) = ready();
    for (k, (len, bucket)) in [
        (0, 256),
        (252, 256),
        (253, 1024),
        (1021, 4096),
        (4093, 16384),
        (16381, 65536),
        (32768, 65536),
    ]
    .into_iter()
    .enumerate()
    {
        let f = a.encrypt(&vec![1; len]).unwrap();
        assert_eq!(f.len(), 9 + bucket + 16, "{len} bytes");
        assert_eq!(f[0], 3);
        assert_eq!(f[1..9], (k as u64).to_be_bytes());
    }
}

#[test]
fn a_session_refuses_its_own_confirmation() {
    let mut a = fresh(CODE);
    let b = fresh(CODE);
    let own = match a.handle(&b.pake_frame()).unwrap() {
        Event::Send(f) => f,
        other => panic!("got {other:?}"),
    };
    assert_eq!(own.len(), 33);
    assert_eq!(own[0], 2);
    assert_eq!(a.handle(&own).unwrap_err(), Error::ConfirmMismatch);
}

#[test]
fn a_handshake_begins_with_the_symmetric_marker() {
    let f = fresh(CODE).pake_frame();
    assert_eq!(f.len(), 34);
    assert_eq!(f[..2], [1, 0x53]);
}
