//! The word by which a freshly forked daemon tells the process that started it how it fares.

use vstd::prelude::*;

use crate::wire::push_word;
use crate::wire::word_bytes;

verus! {

/// The word for a daemon that has just been forked.
pub const FORKED_WORD: u32 = 0x4ea1_1e55;

/// The word for a daemon that has been running already.
pub const RUNNING_WORD: u32 = 0x4ea1_ab1e;

/// The word for a daemon that could not be run.
pub const FAILED_WORD: u32 = 0x5000_dead;

/// The word for a daemon whose state could not be produced; the reason follows it as text.
pub const FAILED_STATE_WORD: u32 = 0x0005_1a1e;

/// A type to send through a socket between the two sides of a fork, to inform the parent about the
/// status of the daemon.
#[derive(Debug, Clone, Copy, PartialEq, Eq, Structural)]
pub enum ReadyToken {
    /// The daemon has just been forked by the child and is now ready to accept connections.
    DaemonForked,
    /// The daemon has already been running and it is not known if it is ready to accept
    /// connections (but very likely it is).
    DaemonRunning,
    /// The daemon could not be run.
    DaemonFailed,
}

impl ReadyToken {
    /// The word that stands for this token.
    pub open spec fn word(self) -> u32 {
        match self {
            ReadyToken::DaemonForked => FORKED_WORD,
            ReadyToken::DaemonRunning => RUNNING_WORD,
            ReadyToken::DaemonFailed => FAILED_WORD,
        }
    }

    /// The word that stands for this token.
    pub fn to_u32(self) -> (word: u32)
        ensures
            word == self.word(),
    {
        match self {
            ReadyToken::DaemonForked => FORKED_WORD,
            ReadyToken::DaemonRunning => RUNNING_WORD,
            ReadyToken::DaemonFailed => FAILED_WORD,
        }
    }

    /// The token that `word` stands for, if it stands for any.
    pub fn from_u32(word: u32) -> (token: Option<ReadyToken>)
        ensures
            token matches Some(t) ==> t.word() == word,
            token is None ==> forall|t: ReadyToken| #[trigger] t.word() != word,
    {
        if word == FORKED_WORD {
            Some(ReadyToken::DaemonForked)
        } else if word == RUNNING_WORD {
            Some(ReadyToken::DaemonRunning)
        } else if word == FAILED_WORD {
            Some(ReadyToken::DaemonFailed)
        } else {
            None
        }
    }

    /// The bytes by which this token is sent.
    pub fn to_bytes(self) -> (bytes: Vec<u8>)
        ensures
            bytes@ == word_bytes(self.word()),
    {
        let mut bytes: Vec<u8> = Vec::new();
        push_word(&mut bytes, self.to_u32());
        bytes
    }

    /// The token to send once it is known whether the daemon got ready.
    pub fn for_outcome(ready: bool) -> (token: ReadyToken)
        ensures
            token == if ready {
                ReadyToken::DaemonForked
            } else {
                ReadyToken::DaemonFailed
            },
    {
        if ready {
            ReadyToken::DaemonForked
        } else {
            ReadyToken::DaemonFailed
        }
    }
}

/// No two tokens are sent as the same word.
pub proof fn ready_token_words_differ(a: ReadyToken, b: ReadyToken)
    requires
        a.word() == b.word(),
    ensures
        a == b,
{
}

} // verus!
