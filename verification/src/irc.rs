//! The lines of the first IRC client: a plain `command text` line format.
use crate::gotw::irc::command_line;
use crate::text::{ascii_lowercase, chars_eq_str, chars_of, lower_char, string_of};
use vstd::prelude::*;

verus! {

/// `s` with its ASCII letters in lower case (`str::to_ascii_lowercase`).
pub fn ascii_lower_string(s: &str) -> (r: String)
    ensures
        r@ == s@.map_values(|c: char| lower_char(c)),
{
    let v = chars_of(s);
    let l = ascii_lowercase(v.as_slice());
    string_of(l.as_slice(), 0, l.len())
}

/// The lines that log the client in: the password, the name in lower case,
/// and the channel in lower case.
pub fn login_lines(name: &str, pass: &str, channel: &str) -> (r: Vec<String>)
    ensures
        r.deep_view() == seq![
            "PASS"@ + seq![' '] + pass@,
            "NICK"@ + seq![' '] + name@.map_values(|c: char| lower_char(c)),
            "JOIN"@ + seq![' '] + channel@.map_values(|c: char| lower_char(c)),
        ],
{
    let name = ascii_lower_string(name);
    let channel = ascii_lower_string(channel);
    let mut r: Vec<String> = Vec::new();
    r.push(command_line("PASS", pass));
    r.push(command_line("NICK", name.as_str()));
    r.push(command_line("JOIN", channel.as_str()));
    assert(r.deep_view() =~= seq![
        "PASS"@ + seq![' '] + pass@,
        "NICK"@ + seq![' '] + name@,
        "JOIN"@ + seq![' '] + channel@,
    ]);
    r
}

/// The line that sends `message`.
pub fn message_line(message: &str) -> (r: String)
    ensures
        r@ == "PRIVMSG"@ + seq![' '] + message@,
{
    command_line("PRIVMSG", message)
}

/// Whether a text from the server is its keep-alive ping.
pub fn is_ping(text: &str) -> (r: bool)
    ensures
        r == (text@ == "PING :tmi.twitch.tv"@),
{
    let t = chars_of(text);
    chars_eq_str(t.as_slice(), "PING :tmi.twitch.tv")
}

} // verus!
