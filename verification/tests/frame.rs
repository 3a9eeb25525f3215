use narco::error::Error;
use narco::frame::{
    confirm_frame, msg_frame, pad, pake_frame, parse, unpad, Frame, BUCKETS, CONFIRM_LEN,
    KIND_CONFIRM, KIND_MSG, KIND_PAKE, MAX_PLAINTEXT, PAKE_LEN,
};

#[test]
fn pad_round_trips_across_buckets() {
    for len in [0usize, 1, 251, 252, 253, 1019, 1020, 4000, 16000, 32768] {
        let pt = vec![0xABu8; len];
        let padded = pad(&pt).unwrap();
        assert!(
            BUCKETS.contains(&padded.len()),
            "len {len} → {}",
            padded.len()
        );
        assert_eq!(unpad(&padded).unwrap(), pt, "round trip failed at {len}");
    }
}

#[test]
fn pad_hides_length_within_a_bucket() {
    assert_eq!(pad(b"hi").unwrap().len(), pad(&[0u8; 200]).unwrap().len());
}

#[test]
fn pad_rejects_oversize() {
    assert_eq!(
        pad(&vec![0u8; MAX_PLAINTEXT + 1]).unwrap_err(),
        Error::TooLong
    );
}

#[test]
fn unpad_rejects_nonzero_tail() {
    let mut padded = pad(b"hello").unwrap();
    let last = padded.len() - 1;
    padded[last] = 1;
    assert_eq!(unpad(&padded).unwrap_err(), Error::Padding);
}

#[test]
fn unpad_rejects_non_bucket_length() {
    assert_eq!(unpad(&[0u8; 100]).unwrap_err(), Error::Padding);
    assert_eq!(unpad(&[]).unwrap_err(), Error::Padding);
}

#[test]
fn unpad_rejects_length_overrunning_the_buffer() {
    let mut padded = pad(b"hello").unwrap();
    padded[..4].copy_from_slice(&9999u32.to_be_bytes());
    assert_eq!(unpad(&padded).unwrap_err(), Error::Padding);
}

#[test]
fn frames_round_trip() {
    match parse(&pake_frame(&[7u8; PAKE_LEN])).unwrap() {
        Frame::Pake(m) => assert_eq!(m, &[7u8; PAKE_LEN]),
        other => panic!("expected Pake, got {other:?}"),
    }
    match parse(&confirm_frame(&[9u8; CONFIRM_LEN])).unwrap() {
        Frame::Confirm(t) => assert_eq!(t, &[9u8; CONFIRM_LEN]),
        other => panic!("expected Confirm, got {other:?}"),
    }
    match parse(&msg_frame(42, b"ct")).unwrap() {
        Frame::Msg { ctr, ct } => {
            assert_eq!(ctr, 42);
            assert_eq!(ct, b"ct");
        }
        other => panic!("expected Msg, got {other:?}"),
    }
}

#[test]
fn parse_rejects_malformed_input() {
    assert_eq!(parse(&[]).unwrap_err(), Error::BadFrame);
    assert_eq!(parse(&[KIND_PAKE, 1, 2]).unwrap_err(), Error::BadFrame);
    assert_eq!(parse(&[KIND_CONFIRM]).unwrap_err(), Error::BadFrame);
    // KIND_MSG with a counter but no ciphertext.
    assert_eq!(
        parse(&[KIND_MSG, 0, 0, 0, 0, 0, 0, 0, 0]).unwrap_err(),
        Error::BadFrame
    );
    assert_eq!(parse(&[0xFF, 1]).unwrap_err(), Error::UnknownKind(0xFF));
}

#[test]
fn padding_is_the_length_the_text_and_zeros() {
    let padded = pad(b"hi").unwrap();
    assert_eq!(padded.len(), 256);
    assert_eq!(&padded[..6], &[0, 0, 0, 2, b'h', b'i']);
    assert!(padded[6..].iter().all(|&b| b == 0));
    // One byte more than a bucket holds moves to the next one.
    assert_eq!(pad(&[1u8; 252]).unwrap().len(), 256);
    assert_eq!(pad(&[1u8; 253]).unwrap().len(), 1024);
    assert_eq!(pad(&vec![1u8; MAX_PLAINTEXT]).unwrap().len(), 65536);
}

#[test]
fn only_what_padding_produces_unpads() {
    // A short text in a bucket larger than it needs.
    let mut loose = vec![0u8; 1024];
    loose[3] = 2;
    assert_eq!(unpad(&loose).unwrap_err(), Error::Padding);
    // A length that no plaintext may have.
    let mut long = vec![0u8; 65536];
    long[..4].copy_from_slice(&((MAX_PLAINTEXT + 1) as u32).to_be_bytes());
    assert_eq!(unpad(&long).unwrap_err(), Error::Padding);
}

#[test]
fn frames_are_laid_out_as_documented() {
    assert_eq!(pake_frame(&[5, 6]), vec![1, 5, 6]);
    assert_eq!(
        msg_frame(0x0102030405060708, &[9]),
        vec![3, 1, 2, 3, 4, 5, 6, 7, 8, 9]
    );
    assert_eq!(confirm_frame(&[4u8; CONFIRM_LEN])[0], 2);
    assert_eq!(msg_frame(u64::MAX, &[1])[1..9], [0xff; 8]);
}
