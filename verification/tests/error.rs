use narco::error::Error;

#[test]
fn every_error_is_put_into_words() {
    for (e, text) in [
        (Error::CodeTooShort, "code must be at least 10 characters"),
        (
            Error::CodeTooRepetitive,
            "code must use at least 6 different characters",
        ),
        (Error::CodeSequential, "code must not be a simple sequence"),
        (Error::CodeWeak, "code is too common to be secret"),
        (Error::Kdf, "key derivation failed"),
        (Error::BadFrame, "malformed frame"),
        (Error::UnknownKind(255), "unknown frame kind 255"),
        (
            Error::Reflection,
            "handshake reflected: the relay is misbehaving",
        ),
        (Error::BadHandshake, "malformed handshake message"),
        (
            Error::ConfirmMismatch,
            "handshake failed: codes do not match",
        ),
        (
            Error::OutOfOrder {
                expected: 10,
                got: u64::MAX,
            },
            "out-of-order message (expected 10, got 18446744073709551615)",
        ),
        (Error::Decrypt, "message failed authentication"),
        (Error::Padding, "malformed padding"),
        (Error::TooLong, "message too long"),
        (Error::WrongPhase, "operation not valid in this phase"),
        (Error::Dead, "session has ended"),
    ] {
        assert_eq!(e.to_string(), text);
    }
}
