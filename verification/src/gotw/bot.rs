//! Chat lines from Twitch become messages; the answers to commands become
//! chat lines.
use crate::gotw::command::CommandError;
use crate::gotw::user::{tags_spec, User};
use crate::gotw::{reply_view, BotError, BotErrorView, BotResult};
use crate::text::{
    append_chars, chars_eq, chars_of, join_from, join_spec, lemma_split_nonempty, push_char,
    split, split_spec, string_of, trim_crlf_len, trim_crlf_spec,
};
use vstd::prelude::*;

verus! {

/// Where and as whom the bot logs in.
pub struct BotConfig {
    channel: String,
    username: String,
    password: String,
}

impl BotConfig {
    pub closed spec fn channel_view(&self) -> Seq<char> {
        self.channel@
    }

    pub closed spec fn username_view(&self) -> Seq<char> {
        self.username@
    }

    pub closed spec fn password_view(&self) -> Seq<char> {
        self.password@
    }

    pub fn new(channel: String, username: String, password: String) -> (r: Self)
        ensures
            r.channel_view() == channel@,
            r.username_view() == username@,
            r.password_view() == password@,
    {
        BotConfig { channel, username, password }
    }

    pub fn channel(&self) -> (r: &String)
        ensures
            r@ == self.channel_view(),
    {
        &self.channel
    }

    pub fn username(&self) -> (r: &String)
        ensures
            r@ == self.username_view(),
    {
        &self.username
    }

    pub fn password(&self) -> (r: &String)
        ensures
            r@ == self.password_view(),
    {
        &self.password
    }
}

/// A chat message: its words, who sent it, and its text.
#[derive(Debug)]
pub struct Message {
    pub words: Vec<String>,
    pub sender: User,
    pub raw: String,
}

impl Message {
    /// The message as shown in the log (what `Display` shows).
    pub fn display_text(&self) -> (r: String)
        ensures
            r@ == "Message from "@ + self.sender.name_view() + ": "@ + self.raw@,
    {
        let mut r = "Message from ".to_owned();
        let name = chars_of(self.sender.username().as_str());
        append_chars(&mut r, name.as_slice());
        let sep = chars_of(": ");
        append_chars(&mut r, sep.as_slice());
        let raw = chars_of(self.raw.as_str());
        append_chars(&mut r, raw.as_slice());
        r
    }
}

/// The line that Twitch sends when the bot itself joins the channel.
pub open spec fn join_notice(username: Seq<char>, channel: Seq<char>) -> Seq<char> {
    seq![':'] + username + seq!['!'] + username + seq!['@'] + username + ".tmi.twitch.tv JOIN "@
        + channel
}

/// The text of the error for a line without a sender.
pub open spec fn no_sender_text() -> Seq<char> {
    "Could not parse username from twitch response."@
}

/// What a chat line says, once its trailing line breaks are cut off: the
/// tags before the first `:`, the sender up to the first `!` of the next
/// part, and the text after the second `:`.
pub open spec fn line_parts(m: Seq<char>) -> Seq<Seq<char>> {
    split_spec(trim_crlf_spec(m), ':')
}

/// The sender named by a chat line.
pub open spec fn line_sender(m: Seq<char>) -> Seq<char> {
    split_spec(line_parts(m)[1], '!')[0]
}

/// The text of a chat line.
pub open spec fn line_text(m: Seq<char>) -> Seq<char> {
    join_spec(line_parts(m).skip(2), ':')
}

fn join_notice_exec(config: &BotConfig) -> (r: Vec<char>)
    ensures
        r@ == join_notice(config.username_view(), config.channel_view()),
{
    let u = chars_of(config.username.as_str());
    let mut s = String::new();
    push_char(&mut s, ':');
    append_chars(&mut s, u.as_slice());
    push_char(&mut s, '!');
    append_chars(&mut s, u.as_slice());
    push_char(&mut s, '@');
    append_chars(&mut s, u.as_slice());
    let mid = chars_of(".tmi.twitch.tv JOIN ");
    append_chars(&mut s, mid.as_slice());
    let c = chars_of(config.channel.as_str());
    append_chars(&mut s, c.as_slice());
    chars_of(s.as_str())
}

/// Reads a line that came from Twitch: nothing for an empty line or for the
/// notice that the bot joined, an error for a line without a sender, and
/// else the message with its sender's name and tags, its text, and the words
/// of its text.
pub fn try_parse_message(config: &BotConfig, message: &str) -> (r: BotResult<Option<Message>>)
    ensures
        message@.len() == 0 || message@ == join_notice(
            config.username_view(),
            config.channel_view(),
        ) ==> r matches Ok(None),
        !(message@.len() == 0 || message@ == join_notice(
            config.username_view(),
            config.channel_view(),
        )) ==> if line_parts(message@).len() < 2 {
            r matches Err(e) && e@ == BotErrorView::MessageParse(no_sender_text())
        } else {
            r matches Ok(Some(msg)) && msg.sender.tags_view() == tags_spec(line_parts(message@)[0])
                && msg.sender.name_view() == line_sender(message@) && msg.raw@ == line_text(
                message@,
            ) && msg.words.deep_view() == split_spec(line_text(message@), ' ')
        },
{
    let m = chars_of(message);
    let notice = join_notice_exec(config);
    if m.len() == 0 || chars_eq(m.as_slice(), notice.as_slice()) {
        return Ok(None);
    }
    let end = trim_crlf_len(m.as_slice());
    let trimmed = chars_of(string_of(m.as_slice(), 0, end).as_str());
    assert(trimmed@ =~= trim_crlf_spec(m@));
    let parts = split(trimmed.as_slice(), ':');
    if parts.len() < 2 {
        return Err(BotError::MessageParse("Could not parse username from twitch response.".to_owned()));
    }
    let tags = parts[0].as_str();
    let second = chars_of(parts[1].as_str());
    let names = split(second.as_slice(), '!');
    proof {
        lemma_split_nonempty(second@, '!');
    }
    let sender = names[0].as_str();
    let raw = join_from(&parts, 2, ':');
    let user = User::parse(tags, sender);
    let rc = chars_of(raw.as_str());
    let words = split(rc.as_slice(), ' ');
    Ok(Some(Message { words, sender: user, raw }))
}

/// What the bot says in the channel after answering a message: a notice for
/// a missing word or an unknown name, the answer's text, or nothing.
pub fn reply_text(res: &BotResult<Option<String>>) -> (r: Option<String>)
    ensures
        match reply_view(*res) {
            Err(BotErrorView::Command(CommandError::NotEnoughArgs)) => r matches Some(s) && s@
                == "Not enough arguments!"@,
            Err(BotErrorView::Command(CommandError::NotRegistered)) => r matches Some(s) && s@
                == "Command/trigger/alias does not exist!"@,
            Ok(Some(t)) => r matches Some(s) && s@ == t,
            _ => r is None,
        },
{
    match res {
        Err(BotError::Command(CommandError::NotEnoughArgs)) => Some(
            "Not enough arguments!".to_owned(),
        ),
        Err(BotError::Command(CommandError::NotRegistered)) => Some(
            "Command/trigger/alias does not exist!".to_owned(),
        ),
        Ok(Some(m)) => Some(m.clone()),
        _ => None,
    }
}

} // verus!
