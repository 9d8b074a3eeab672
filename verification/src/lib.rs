//! A Twitch chat bot: the parsing of chat lines, the command and trigger
//! tables, the switches of `!commands add`, and the `${..}` templates of
//! replies, each stated and proved over sequences of characters.
//!
//! `gotw` holds the bot as it runs; `bot` and `irc` hold the first version
//! of its message parser and of its IRC line format.
mod assoc;
pub mod bot;
pub mod gotw;
pub mod irc;
pub mod text;

use vstd::prelude::*;

verus! {

/// An I/O error (`std::io::Error`), carried through unread.
#[verifier::external_type_specification]
#[verifier::external_body]
pub struct ExIoError(std::io::Error);

/// An error of the websocket connection (`tungstenite::error::Error`),
/// carried through unread.
#[verifier::external_type_specification]
#[verifier::external_body]
pub struct ExWsError(tungstenite::error::Error);

/// The errors of the first version of the bot.
#[derive(Debug)]
pub enum BotError {
    Io(std::io::Error),
    Ws(tungstenite::error::Error),
    MessageParse(String),
}

/// The result type of the first version of the bot.
pub type BotResult<T> = Result<T, BotError>;

impl From<std::io::Error> for BotError {
    fn from(e: std::io::Error) -> (r: Self) {
        BotError::Io(e)
    }
}

impl vstd::std_specs::convert::FromSpecImpl<std::io::Error> for BotError {
    open spec fn obeys_from_spec() -> bool {
        true
    }

    open spec fn from_spec(e: std::io::Error) -> Self {
        BotError::Io(e)
    }
}

impl From<tungstenite::error::Error> for BotError {
    fn from(e: tungstenite::error::Error) -> (r: Self) {
        BotError::Ws(e)
    }
}

impl vstd::std_specs::convert::FromSpecImpl<tungstenite::error::Error> for BotError {
    open spec fn obeys_from_spec() -> bool {
        true
    }

    open spec fn from_spec(e: tungstenite::error::Error) -> Self {
        BotError::Ws(e)
    }
}

} // verus!
