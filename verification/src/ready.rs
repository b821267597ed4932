//! The token by which a daemon tells the client that started it how it fares.

use vstd::prelude::*;
use vstd::utf8::{
    decode_utf8, decode_utf8_encode_utf8, encode_utf8, encode_utf8_decode_utf8,
    encode_utf8_valid_utf8, valid_utf8,
};

use crate::protocol::{FAILED_STATE_WORD, FAILED_WORD, FORKED_WORD, RUNNING_WORD};
use crate::wire::{bytes_roundtrip, push_word, word_at, word_bytes, word_of, word_roundtrip};

verus! {

/// A type to send through a socket between the two sides of a fork, to inform the parent about the
/// status of the daemon.
#[derive(Debug, Clone, PartialEq, Eq)]
pub enum DaemonReadyToken {
    /// Daemon has just been forked by the child and is now ready to accept connections.
    Forked,
    /// Daemon has already been running and it is not known if it is ready to accept connections
    /// (but very likely it is).
    Running,
    /// Daemon could not be run because of an internal error.
    Failed,
    /// Daemon could not be run because of a failure to produce a state.
    FailedState(String),
}

/// What a [`DaemonReadyToken`] says.
pub enum ReadyTokenView {
    Forked,
    Running,
    Failed,
    FailedState(Seq<char>),
}

impl View for DaemonReadyToken {
    type V = ReadyTokenView;

    open spec fn view(&self) -> ReadyTokenView {
        match *self {
            DaemonReadyToken::Forked => ReadyTokenView::Forked,
            DaemonReadyToken::Running => ReadyTokenView::Running,
            DaemonReadyToken::Failed => ReadyTokenView::Failed,
            DaemonReadyToken::FailedState(reason) => ReadyTokenView::FailedState(reason@),
        }
    }
}

/// Why no token could be read.
#[derive(Debug, Clone, Copy, PartialEq, Eq, Structural)]
pub enum ReadError {
    /// The bytes ended before the header was complete.
    UnexpectedEof,
    /// The header is none of the valid ones.
    UnknownHeader,
    /// The reason is not UTF-8.
    InvalidText,
}

impl ReadyTokenView {
    /// The word that the token starts with.
    pub open spec fn header(self) -> u32 {
        match self {
            ReadyTokenView::Forked => FORKED_WORD,
            ReadyTokenView::Running => RUNNING_WORD,
            ReadyTokenView::Failed => FAILED_WORD,
            ReadyTokenView::FailedState(_) => FAILED_STATE_WORD,
        }
    }

    /// The bytes by which the token is sent: the header, then the reason where there is one.
    pub open spec fn bytes(self) -> Seq<u8> {
        match self {
            ReadyTokenView::FailedState(reason) => word_bytes(self.header()) + encode_utf8(reason),
            _ => word_bytes(self.header()),
        }
    }
}

/// The token that `bytes` start with. A reason reaches to the end; after another token, whatever
/// follows is left alone.
pub open spec fn token_of(bytes: Seq<u8>) -> Result<ReadyTokenView, ReadError> {
    if bytes.len() < 4 {
        Err(ReadError::UnexpectedEof)
    } else if word_of(bytes, 0) == FORKED_WORD {
        Ok(ReadyTokenView::Forked)
    } else if word_of(bytes, 0) == RUNNING_WORD {
        Ok(ReadyTokenView::Running)
    } else if word_of(bytes, 0) == FAILED_WORD {
        Ok(ReadyTokenView::Failed)
    } else if word_of(bytes, 0) != FAILED_STATE_WORD {
        Err(ReadError::UnknownHeader)
    } else if valid_utf8(bytes.skip(4)) {
        Ok(ReadyTokenView::FailedState(decode_utf8(bytes.skip(4))))
    } else {
        Err(ReadError::InvalidText)
    }
}

/// [`String::from_utf8`]: the text that `bytes` encode, or nothing where they are not UTF-8.
#[verifier::external_body]
fn text_from_utf8(bytes: Vec<u8>) -> (text: Option<String>)
    ensures
        text is Some <==> valid_utf8(bytes@),
        text matches Some(t) ==> t@ == decode_utf8(bytes@),
{
    String::from_utf8(bytes).ok()
}

impl DaemonReadyToken {
    /// The bytes by which the token is sent.
    pub fn write_to(&self) -> (bytes: Vec<u8>)
        ensures
            bytes@ == self@.bytes(),
    {
        let mut bytes: Vec<u8> = Vec::new();
        match self {
            DaemonReadyToken::Forked => push_word(&mut bytes, FORKED_WORD),
            DaemonReadyToken::Running => push_word(&mut bytes, RUNNING_WORD),
            DaemonReadyToken::Failed => push_word(&mut bytes, FAILED_WORD),
            DaemonReadyToken::FailedState(reason) => {
                push_word(&mut bytes, FAILED_STATE_WORD);
                bytes.extend_from_slice(reason.as_str().as_bytes());
            },
        }
        assert(bytes@ =~= self@.bytes());
        bytes
    }

    /// The token that was sent as `bytes`.
    pub fn read_from(bytes: &[u8]) -> (token: Result<DaemonReadyToken, ReadError>)
        ensures
            match token {
                Ok(t) => token_of(bytes@) == Ok::<ReadyTokenView, ReadError>(t@),
                Err(e) => token_of(bytes@) == Err::<ReadyTokenView, ReadError>(e),
            },
    {
        if bytes.len() < 4 {
            return Err(ReadError::UnexpectedEof);
        }
        let header: u32 = word_at(bytes, 0);
        if header == FORKED_WORD {
            Ok(DaemonReadyToken::Forked)
        } else if header == RUNNING_WORD {
            Ok(DaemonReadyToken::Running)
        } else if header == FAILED_WORD {
            Ok(DaemonReadyToken::Failed)
        } else if header != FAILED_STATE_WORD {
            Err(ReadError::UnknownHeader)
        } else {
            let mut rest: Vec<u8> = Vec::new();
            let mut i: usize = 4;
            while i < bytes.len()
                invariant
                    4 <= i <= bytes@.len(),
                    rest@ == bytes@.subrange(4, i as int),
                decreases bytes@.len() - i,
            {
                rest.push(bytes[i]);
                i = i + 1;
                assert(rest@ =~= bytes@.subrange(4, i as int));
            }
            assert(rest@ =~= bytes@.skip(4));
            match text_from_utf8(rest) {
                Some(reason) => Ok(DaemonReadyToken::FailedState(reason)),
                None => Err(ReadError::InvalidText),
            }
        }
    }
}

/// Whatever the daemon reports, the client reads the same.
pub proof fn token_roundtrip(token: ReadyTokenView)
    ensures
        token_of(token.bytes()) == Ok::<ReadyTokenView, ReadError>(token),
{
    let bytes = token.bytes();
    assert(bytes.subrange(0, 4) =~= word_bytes(token.header()));
    word_roundtrip(bytes, 0, token.header());
    if let ReadyTokenView::FailedState(reason) = token {
        assert(bytes.skip(4) =~= encode_utf8(reason));
        encode_utf8_valid_utf8(reason);
        encode_utf8_decode_utf8(reason);
    }
}

/// No two tokens are sent as the same bytes.
pub proof fn token_bytes_differ(a: ReadyTokenView, b: ReadyTokenView)
    requires
        a.bytes() == b.bytes(),
    ensures
        a == b,
{
    token_roundtrip(a);
    token_roundtrip(b);
}

/// A token is read only where its bytes are: those of a token without a reason stand at the start,
/// whatever follows, and those of one with a reason are all there is.
pub proof fn read_token_was_sent(bytes: Seq<u8>, token: ReadyTokenView)
    ensures
        token_of(bytes) == Ok::<ReadyTokenView, ReadError>(token) <==> match token {
            ReadyTokenView::FailedState(_) => bytes == token.bytes(),
            _ => bytes.len() >= 4 && bytes.take(4) == token.bytes(),
        },
{
    token_roundtrip(token);
    if bytes.len() >= 4 {
        bytes_roundtrip(bytes, 0);
        assert(bytes.subrange(0, 4) =~= bytes.take(4));
        assert(bytes =~= bytes.take(4) + bytes.skip(4));
        if bytes.take(4) == word_bytes(token.header()) {
            word_roundtrip(bytes, 0, token.header());
        }
        if let ReadyTokenView::FailedState(reason) = token {
            if token_of(bytes) == Ok::<ReadyTokenView, ReadError>(token) {
                decode_utf8_encode_utf8(bytes.skip(4));
            }
        }
    } else {
        assert(token.bytes().len() >= 4);
    }
}

/// Which error comes where no token is read: the bytes are too few, or they start with a header
/// that no token has, or what follows the header of a reason is no text.
pub proof fn read_error_is_true(bytes: Seq<u8>, error: ReadError)
    requires
        token_of(bytes) == Err::<ReadyTokenView, ReadError>(error),
    ensures
        error is UnexpectedEof <==> bytes.len() < 4,
        error is UnknownHeader ==> forall|token: ReadyTokenView|
            bytes.take(4) != word_bytes(#[trigger] token.header()),
        error is InvalidText ==> bytes.take(4) == word_bytes(FAILED_STATE_WORD) && !valid_utf8(
            bytes.skip(4),
        ),
{
    if bytes.len() >= 4 {
        bytes_roundtrip(bytes, 0);
        assert(bytes.subrange(0, 4) =~= bytes.take(4));
        assert forall|token: ReadyTokenView| error is UnknownHeader implies bytes.take(4)
            != word_bytes(#[trigger] token.header()) by {
            if bytes.take(4) == word_bytes(token.header()) {
                word_roundtrip(bytes, 0, token.header());
            }
        }
    }
}

/// What each token is sent as: a header of four bytes, most significant first, and nothing but the
/// reason after it.
pub proof fn tokens_and_their_headers(reason: Seq<char>)
    ensures
        ReadyTokenView::Forked.bytes() == word_bytes(0x4ea1_1e55),
        ReadyTokenView::Running.bytes() == word_bytes(0x4ea1_ab1e),
        ReadyTokenView::Failed.bytes() == word_bytes(0x5000_dead),
        ReadyTokenView::FailedState(reason).bytes() == word_bytes(0x0005_1a1e) + encode_utf8(
            reason,
        ),
{
}

/// What a token says is what it holds.
pub proof fn tokens_say_what_they_hold(reason: String)
    ensures
        DaemonReadyToken::Forked@ == ReadyTokenView::Forked,
        DaemonReadyToken::Running@ == ReadyTokenView::Running,
        DaemonReadyToken::Failed@ == ReadyTokenView::Failed,
        DaemonReadyToken::FailedState(reason)@ == ReadyTokenView::FailedState(reason@),
{
}

} // verus!
