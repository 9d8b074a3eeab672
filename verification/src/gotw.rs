//! The bot as it runs: chat lines become messages, messages run commands
//! and triggers, and commands answer with text.
pub mod bot;
pub mod command;
pub mod commands;
pub mod format;
pub mod irc;
pub mod user;

use crate::gotw::command::CommandError;
use vstd::prelude::*;

verus! {

/// The errors of the bot.
#[derive(Debug)]
pub enum BotError {
    Io(std::io::Error),
    /// A setting was missing from the environment; holds the reason.
    MissingEnvironment(String),
    Ws(tungstenite::error::Error),
    MessageParse(String),
    Command(CommandError),
}

/// The result type of the bot.
pub type BotResult<T> = Result<T, BotError>;

/// What contracts see of an error: its kind, and the text or command error
/// that it carries.
pub enum BotErrorView {
    Io,
    MissingEnvironment(Seq<char>),
    Ws,
    MessageParse(Seq<char>),
    Command(CommandError),
}

impl View for BotError {
    type V = BotErrorView;

    open spec fn view(&self) -> BotErrorView {
        match self {
            BotError::Io(_) => BotErrorView::Io,
            BotError::MissingEnvironment(s) => BotErrorView::MissingEnvironment(s@),
            BotError::Ws(_) => BotErrorView::Ws,
            BotError::MessageParse(s) => BotErrorView::MessageParse(s@),
            BotError::Command(c) => BotErrorView::Command(*c),
        }
    }
}

/// What contracts see of the answer to a message: no answer, a text, or an
/// error.
pub open spec fn reply_view(r: BotResult<Option<String>>) -> Result<Option<Seq<char>>, BotErrorView> {
    match r {
        Ok(None) => Ok(None),
        Ok(Some(s)) => Ok(Some(s@)),
        Err(e) => Err(e@),
    }
}

impl From<std::io::Error> for BotError {
    fn from(e: std::io::Error) -> (r: Self) {
        BotError::Io(e)
    }
}

impl vstd::std_specs::convert::FromSpecImpl<std::io::Error> for BotError {
    open spec fn obeys_from_spec() -> bool {
        true
    }

    open spec fn from_spec(e: std::io::Error) -> Self {
        BotError::Io(e)
    }
}

impl From<tungstenite::error::Error> for BotError {
    fn from(e: tungstenite::error::Error) -> (r: Self) {
        BotError::Ws(e)
    }
}

impl vstd::std_specs::convert::FromSpecImpl<tungstenite::error::Error> for BotError {
    open spec fn obeys_from_spec() -> bool {
        true
    }

    open spec fn from_spec(e: tungstenite::error::Error) -> Self {
        BotError::Ws(e)
    }
}

/// The text of an I/O error (`ToString::to_string` on `std::io::Error`).
/// Nothing is stated of it: the text comes from the operating system.
#[verifier::external_body]
fn io_error_text(e: &std::io::Error) -> String {
    e.to_string()
}

/// The text of a websocket error (`ToString::to_string` on
/// `tungstenite::error::Error`). Nothing is stated of it: the error is
/// opaque here, and its text is written by the outside crate.
#[verifier::external_body]
fn ws_error_text(e: &tungstenite::error::Error) -> String {
    e.to_string()
}

impl BotError {
    /// The error as it is shown to the user (what `Display` shows).
    pub fn display_text(&self) -> (r: String)
        ensures
            self matches BotError::MessageParse(s) ==> r@ == s@,
            self matches BotError::MissingEnvironment(s) ==> r@ == s@,
            self matches BotError::Command(c) ==> r@ == c.name_spec(),
    {
        match self {
            BotError::Io(e) => io_error_text(e),
            BotError::MissingEnvironment(s) => s.clone(),
            BotError::Ws(e) => ws_error_text(e),
            BotError::MessageParse(s) => s.clone(),
            BotError::Command(c) => c.name(),
        }
    }
}

} // verus!
