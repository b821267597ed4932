//! Waiting until every token that was handed out has come back.

use vstd::prelude::*;

verus! {

/// Hands out tokens and tells when all of them have come back.
#[derive(Debug)]
pub struct Waiter {
    outstanding: u64,
}

/// What the holder gives back when it is done.
#[derive(Debug)]
pub struct Token {
    holder: (),
}

impl Token {
    /// The one value that tokens have.
    pub closed spec fn alike() -> Token {
        Token { holder: () }
    }
}

impl Waiter {
    /// How many tokens are out.
    pub closed spec fn outstanding(self) -> nat {
        self.outstanding as nat
    }

    /// A waiter with no token out.
    pub fn new() -> (waiter: Waiter)
        ensures
            waiter.outstanding() == 0,
    {
        Waiter { outstanding: 0 }
    }

    /// Hands out one more token.
    pub fn token(&mut self) -> (token: Token)
        requires
            old(self).outstanding() < u64::MAX,
        ensures
            final(self).outstanding() == old(self).outstanding() + 1,
            token == Token::alike(),
    {
        self.outstanding = self.outstanding + 1;
        Token { holder: () }
    }

    /// Takes a token back.
    pub fn release(&mut self, token: Token)
        requires
            old(self).outstanding() > 0,
        ensures
            final(self).outstanding() == old(self).outstanding() - 1,
    {
        let Token { holder: _ } = token;
        self.outstanding = self.outstanding - 1;
    }

    /// Whether the wait is over: whether every token has come back.
    pub fn wait(&self) -> (over: bool)
        ensures
            over == (self.outstanding() == 0),
    {
        self.outstanding == 0
    }
}

} // verus!
