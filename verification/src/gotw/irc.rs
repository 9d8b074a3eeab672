//! The lines that the bot exchanges with the Twitch chat server.
use crate::text::{append_chars, chars_eq_str, chars_of, push_char};
use url::{ParseError, Url};
use vstd::prelude::*;

verus! {

/// A URL (`url::Url`), opaque here.
#[verifier::external_type_specification]
#[verifier::external_body]
pub struct ExUrl(Url);

/// Why a text is not a URL (`url::ParseError`), opaque here.
#[verifier::external_type_specification]
#[verifier::external_body]
pub struct ExUrlParseError(ParseError);

/// Whether `url::Url::parse` accepts `input` as an absolute URL: a function
/// of the text alone.
pub uninterp spec fn url_parses(input: Seq<char>) -> bool;

/// Parses `input` as an absolute URL (`url::Url::parse`). It succeeds
/// exactly when `url_parses` holds of the text; nothing more is stated of the
/// URL, which is opaque here.
#[verifier::external_body]
fn parse_url(input: &str) -> (r: Result<Url, ParseError>)
    ensures
        r is Ok <==> url_parses(input@),
{
    Url::parse(input)
}

/// The address of the websocket of the Twitch chat server.
pub fn server_address() -> (r: &'static str)
    ensures
        r@ == "ws://irc-ws.chat.twitch.tv:80"@,
{
    "ws://irc-ws.chat.twitch.tv:80"
}

/// The address of the websocket of the Twitch chat server, parsed.
pub fn server_url() -> (r: Result<Url, ParseError>)
    ensures
        r is Ok <==> url_parses("ws://irc-ws.chat.twitch.tv:80"@),
{
    parse_url(server_address())
}

/// The line that answers the server's keep-alive ping.
pub fn pong_line() -> (r: String)
    ensures
        r@ == "PONG :tmi.twitch.tv"@,
{
    "PONG :tmi.twitch.tv".to_owned()
}

/// The line that sends the command `cmd` with the text `message`.
pub fn command_line(cmd: &str, message: &str) -> (r: String)
    ensures
        r@ == cmd@ + seq![' '] + message@,
{
    let mut r = cmd.to_owned();
    push_char(&mut r, ' ');
    let m = chars_of(message);
    append_chars(&mut r, m.as_slice());
    r
}

/// The line that says `message` in `channel`.
pub fn privmsg_line(channel: &str, message: &str) -> (r: String)
    ensures
        r@ == "PRIVMSG "@ + channel@ + seq![' ', ':'] + message@,
{
    let mut cmd = "PRIVMSG ".to_owned();
    let c = chars_of(channel);
    append_chars(&mut cmd, c.as_slice());
    let mut text = String::new();
    push_char(&mut text, ':');
    let m = chars_of(message);
    append_chars(&mut text, m.as_slice());
    let r = command_line(cmd.as_str(), text.as_str());
    assert(r@ =~= "PRIVMSG "@ + channel@ + seq![' ', ':'] + message@);
    r
}

/// The lines that log the bot in: its password, its name, the channel to
/// join, and the request for tags and commands.
pub fn login_lines(nick: &str, pass: &str, channel: &str) -> (r: Vec<String>)
    ensures
        r.deep_view() == seq![
            "PASS"@ + seq![' '] + pass@,
            "NICK"@ + seq![' '] + nick@,
            "JOIN"@ + seq![' '] + channel@,
            "CAP REQ"@ + seq![' '] + ":twitch.tv/tags twitch.tv/commands"@,
        ],
{
    let mut r: Vec<String> = Vec::new();
    r.push(command_line("PASS", pass));
    r.push(command_line("NICK", nick));
    r.push(command_line("JOIN", channel));
    r.push(command_line("CAP REQ", ":twitch.tv/tags twitch.tv/commands"));
    assert(r.deep_view() =~= seq![
        "PASS"@ + seq![' '] + pass@,
        "NICK"@ + seq![' '] + nick@,
        "JOIN"@ + seq![' '] + channel@,
        "CAP REQ"@ + seq![' '] + ":twitch.tv/tags twitch.tv/commands"@,
    ]);
    r
}

/// Whether a text from the server is its keep-alive ping, which the bot
/// answers with a pong and does not read as a chat line.
pub fn is_ping(text: &str) -> (r: bool)
    ensures
        r == (text@ == "PING :tmi.twitch.tv\r\n"@),
{
    let t = chars_of(text);
    chars_eq_str(t.as_slice(), "PING :tmi.twitch.tv\r\n")
}

} // verus!
