use with_daemon::protocol::{
    ReadyToken, FAILED_STATE_WORD, FAILED_WORD, FORKED_WORD, RUNNING_WORD,
};
use with_daemon::ready::{DaemonReadyToken, ReadError};

#[test]
fn forked_token_is_its_header() {
    assert_eq!(DaemonReadyToken::Forked.write_to(), vec![0x4e, 0xa1, 0x1e, 0x55]);
}

#[test]
fn headers_of_the_other_tokens() {
    assert_eq!(DaemonReadyToken::Running.write_to(), vec![0x4e, 0xa1, 0xab, 0x1e]);
    assert_eq!(DaemonReadyToken::Failed.write_to(), vec![0x50, 0x00, 0xde, 0xad]);
}

#[test]
fn reason_follows_its_header() {
    let token = DaemonReadyToken::FailedState("no é".to_owned());
    assert_eq!(
        token.write_to(),
        vec![0x00, 0x05, 0x1a, 0x1e, b'n', b'o', b' ', 0xc3, 0xa9]
    );
}

#[test]
fn tokens_are_read_back() {
    let tokens = vec![
        DaemonReadyToken::Forked,
        DaemonReadyToken::Running,
        DaemonReadyToken::Failed,
        DaemonReadyToken::FailedState(String::new()),
        DaemonReadyToken::FailedState("could not bind port 80: ünlucky".to_owned()),
    ];
    for token in tokens {
        assert_eq!(DaemonReadyToken::read_from(&token.write_to()), Ok(token));
    }
}

#[test]
fn different_tokens_are_different_bytes() {
    let reason = DaemonReadyToken::FailedState("a".to_owned());
    assert_ne!(reason.write_to(), DaemonReadyToken::FailedState("b".to_owned()).write_to());
    assert_ne!(reason.write_to(), DaemonReadyToken::Failed.write_to());
}

#[test]
fn incomplete_header_is_an_early_end() {
    assert_eq!(DaemonReadyToken::read_from(&[]), Err(ReadError::UnexpectedEof));
    assert_eq!(
        DaemonReadyToken::read_from(&[0x4e, 0xa1, 0x1e]),
        Err(ReadError::UnexpectedEof)
    );
}

#[test]
fn unknown_header_is_refused() {
    assert_eq!(
        DaemonReadyToken::read_from(&[0, 0, 0, 0]),
        Err(ReadError::UnknownHeader)
    );
}

#[test]
fn reason_must_be_text() {
    assert_eq!(
        DaemonReadyToken::read_from(&[0x00, 0x05, 0x1a, 0x1e, 0xff]),
        Err(ReadError::InvalidText)
    );
    assert_eq!(
        DaemonReadyToken::read_from(&[0x00, 0x05, 0x1a, 0x1e, 0xc3]),
        Err(ReadError::InvalidText)
    );
}

#[test]
fn what_follows_a_bare_token_is_left_alone() {
    assert_eq!(
        DaemonReadyToken::read_from(&[0x4e, 0xa1, 0x1e, 0x55, 0xff, 0xff]),
        Ok(DaemonReadyToken::Forked)
    );
}

#[test]
fn words_of_ready_tokens() {
    assert_eq!(ReadyToken::DaemonForked.to_u32(), 0x4ea11e55);
    assert_eq!(ReadyToken::DaemonRunning.to_u32(), 0x4ea1ab1e);
    assert_eq!(ReadyToken::DaemonFailed.to_u32(), 0x5000dead);
    assert_eq!(FORKED_WORD, 0x4ea11e55);
    assert_eq!(RUNNING_WORD, 0x4ea1ab1e);
    assert_eq!(FAILED_WORD, 0x5000dead);
    assert_eq!(FAILED_STATE_WORD, 0x00051a1e);
}

#[test]
fn ready_tokens_are_found_by_their_words() {
    for token in [
        ReadyToken::DaemonForked,
        ReadyToken::DaemonRunning,
        ReadyToken::DaemonFailed,
    ] {
        assert_eq!(ReadyToken::from_u32(token.to_u32()), Some(token));
    }
    assert_eq!(ReadyToken::from_u32(0x00051a1e), None);
    assert_eq!(ReadyToken::from_u32(0), None);
}

#[test]
fn ready_token_words_are_all_different() {
    assert_ne!(ReadyToken::DaemonForked.to_u32(), ReadyToken::DaemonRunning.to_u32());
    assert_ne!(ReadyToken::DaemonForked.to_u32(), ReadyToken::DaemonFailed.to_u32());
    assert_ne!(ReadyToken::DaemonRunning.to_u32(), ReadyToken::DaemonFailed.to_u32());
}

#[test]
fn ready_token_bytes_start_with_the_highest() {
    assert_eq!(ReadyToken::DaemonRunning.to_bytes(), vec![0x4e, 0xa1, 0xab, 0x1e]);
}

#[test]
fn ready_token_says_whether_the_daemon_got_ready() {
    assert_eq!(ReadyToken::for_outcome(true), ReadyToken::DaemonForked);
    assert_eq!(ReadyToken::for_outcome(false), ReadyToken::DaemonFailed);
}
