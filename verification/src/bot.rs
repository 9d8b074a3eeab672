//! The first version of the message parser: a message is a command when its
//! text starts with the configured prefix.
use crate::gotw::bot::join_notice;
use crate::gotw::user::{tags_spec, User};
use crate::text::{
    append_chars, chars_eq, chars_of, find_char, index_of, join_from, join_spec,
    lemma_split_nonempty, push_char, split, split_spec, starts_with, string_of,
};
use crate::{BotError, BotResult};
use vstd::prelude::*;

verus! {

/// Where and as whom the bot logs in, and the prefix of its commands.
pub struct BotConfig {
    channel: String,
    username: String,
    password: String,
    prefix: String,
}

impl BotConfig {
    pub closed spec fn channel_view(&self) -> Seq<char> {
        self.channel@
    }

    pub closed spec fn username_view(&self) -> Seq<char> {
        self.username@
    }

    pub closed spec fn password_view(&self) -> Seq<char> {
        self.password@
    }

    pub closed spec fn prefix_view(&self) -> Seq<char> {
        self.prefix@
    }

    pub fn new(channel: String, username: String, password: String, prefix: String) -> (r: Self)
        ensures
            r.channel_view() == channel@,
            r.username_view() == username@,
            r.password_view() == password@,
            r.prefix_view() == prefix@,
    {
        BotConfig { channel, username, password, prefix }
    }

    pub fn channel(&self) -> (r: &String)
        ensures
            r@ == self.channel_view(),
    {
        &self.channel
    }

    pub fn username(&self) -> (r: &String)
        ensures
            r@ == self.username_view(),
    {
        &self.username
    }

    pub fn password(&self) -> (r: &String)
        ensures
            r@ == self.password_view(),
    {
        &self.password
    }

    pub fn prefix(&self) -> (r: &String)
        ensures
            r@ == self.prefix_view(),
    {
        &self.prefix
    }
}

/// A chat message of the first version: its command and arguments when it
/// is a command, who sent it, and its text.
#[derive(Debug)]
pub struct Message {
    pub command: Option<String>,
    pub args: Option<Vec<String>>,
    pub sender: User,
    pub raw: String,
}

impl Message {
    /// The message as shown in the log (what `Display` shows).
    pub fn display_text(&self) -> (r: String)
        ensures
            r@ == "Message from "@ + self.sender.name_view() + ": "@ + self.raw@ + seq![' ']
                + match self.command {
                Some(c) => c@,
                None => Seq::<char>::empty(),
            },
    {
        let mut r = "Message from ".to_owned();
        let name = chars_of(self.sender.username().as_str());
        append_chars(&mut r, name.as_slice());
        let sep = chars_of(": ");
        append_chars(&mut r, sep.as_slice());
        let raw = chars_of(self.raw.as_str());
        append_chars(&mut r, raw.as_slice());
        push_char(&mut r, ' ');
        match &self.command {
            Some(c) => {
                let cc = chars_of(c.as_str());
                append_chars(&mut r, cc.as_slice());
            },
            None => {},
        }
        r
    }
}

/// The number of bytes that UTF-8 takes for `c`.
pub open spec fn utf8_len(c: char) -> nat {
    if (c as u32) < 0x80 {
        1
    } else if (c as u32) < 0x800 {
        2
    } else if (c as u32) < 0x10000 {
        3
    } else {
        4
    }
}

/// How many characters cutting the last two bytes off `s` removes, when
/// that cut falls between characters: the last one when it takes two bytes,
/// the last two when each takes one.
pub open spec fn cut_count(s: Seq<char>) -> Option<nat> {
    if s.len() >= 1 && utf8_len(s.last()) == 2 {
        Some(1)
    } else if s.len() >= 2 && utf8_len(s.last()) == 1 && utf8_len(s[s.len() - 2]) == 1 {
        Some(2)
    } else {
        None
    }
}

/// The parts of a line between its colons.
pub open spec fn parts(m: Seq<char>) -> Seq<Seq<char>> {
    split_spec(m, ':')
}

/// The text of a line: what follows its second colon.
pub open spec fn text_of(m: Seq<char>) -> Seq<char> {
    join_spec(parts(m).skip(2), ':')
}

/// The command word of a text that starts with `prefix`: its first word
/// after the prefix.
pub open spec fn command_word(prefix: Seq<char>, raw: Seq<char>) -> Seq<char> {
    let first = split_spec(raw, ' ')[0];
    if prefix.len() <= first.len() {
        first.skip(prefix.len() as int)
    } else {
        Seq::<char>::empty()
    }
}

/// Whether a line is read without a fault: it is empty, the join notice, or
/// lacks a sender, or its text is no command, or else the prefix holds no
/// space and the command word ends in a way that the cut of its last two
/// bytes can handle.
pub open spec fn parse_ok(username: Seq<char>, channel: Seq<char>, prefix: Seq<char>, m: Seq<char>) -> bool {
    ||| m.len() == 0
    ||| m == join_notice(username, channel)
    ||| parts(m).len() < 2
    ||| !prefix.is_prefix_of(text_of(m))
    ||| (index_of(prefix, ' ') == prefix.len() && cut_count(command_word(prefix, text_of(m))) is Some)
}

fn char_bytes(c: char) -> (r: u8)
    ensures
        r == utf8_len(c),
{
    let u = c as u32;
    if u < 0x80 {
        1
    } else if u < 0x800 {
        2
    } else if u < 0x10000 {
        3
    } else {
        4
    }
}

fn cut_count_exec(s: &[char]) -> (r: Option<usize>)
    ensures
        match cut_count(s@) {
            Some(k) => r == Some(k as usize),
            None => r is None,
        },
{
    let n = s.len();
    if n >= 1 && char_bytes(s[n - 1]) == 2 {
        Some(1)
    } else if n >= 2 && char_bytes(s[n - 1]) == 1 && char_bytes(s[n - 2]) == 1 {
        Some(2)
    } else {
        None
    }
}

fn join_notice_exec(config: &BotConfig) -> (r: Vec<char>)
    ensures
        r@ == join_notice(config.username_view(), config.channel_view()),
{
    let u = chars_of(config.username.as_str());
    let mut s = String::new();
    push_char(&mut s, ':');
    append_chars(&mut s, u.as_slice());
    push_char(&mut s, '!');
    append_chars(&mut s, u.as_slice());
    push_char(&mut s, '@');
    append_chars(&mut s, u.as_slice());
    let mid = chars_of(".tmi.twitch.tv JOIN ");
    append_chars(&mut s, mid.as_slice());
    let c = chars_of(config.channel.as_str());
    append_chars(&mut s, c.as_slice());
    chars_of(s.as_str())
}

/// The text of a line, when it has a sender.
fn text_exec(m: &Vec<char>) -> (r: Option<(Vec<String>, String)>)
    ensures
        parts(m@).len() < 2 ==> r is None,
        parts(m@).len() >= 2 ==> (r matches Some((ps, raw)) && ps.deep_view() == parts(m@) && raw@
            == text_of(m@)),
{
    let ps = split(m.as_slice(), ':');
    if ps.len() < 2 {
        return None;
    }
    let raw = join_from(&ps, 2, ':');
    Some((ps, raw))
}

/// Whether `try_parse_message` reads `message` without a fault.
pub fn parses(config: &BotConfig, message: &str) -> (r: bool)
    ensures
        r == parse_ok(
            config.username_view(),
            config.channel_view(),
            config.prefix_view(),
            message@,
        ),
{
    let m = chars_of(message);
    let notice = join_notice_exec(config);
    if m.len() == 0 || chars_eq(m.as_slice(), notice.as_slice()) {
        return true;
    }
    match text_exec(&m) {
        None => true,
        Some((_, raw)) => {
            let rc = chars_of(raw.as_str());
            let prefix = chars_of(config.prefix.as_str());
            if !starts_with(rc.as_slice(), prefix.as_slice()) {
                return true;
            }
            let sp = find_char(prefix.as_slice(), 0, ' ');
            assert(prefix@.skip(0) =~= prefix@);
            if sp != prefix.len() {
                return false;
            }
            let words = split(rc.as_slice(), ' ');
            proof {
                lemma_split_nonempty(rc@, ' ');
            }
            let first = chars_of(words[0].as_str());
            if first.len() < prefix.len() {
                return false;
            }
            let cmd = chars_of(string_of(first.as_slice(), prefix.len(), first.len()).as_str());
            assert(cmd@ =~= command_word(prefix@, rc@));
            cut_count_exec(cmd.as_slice()).is_some()
        },
    }
}

/// Reads a line that came from Twitch: nothing for an empty line or for the
/// notice that the bot joined, an error for a line without a sender, and
/// else the message with its sender. When the text starts with the prefix,
/// the message is a command: its name is the first word after the prefix
/// with the last two bytes cut off, and its arguments are the other words.
pub fn try_parse_message(config: &BotConfig, message: &str) -> (r: BotResult<Option<Message>>)
    requires
        parse_ok(config.username_view(), config.channel_view(), config.prefix_view(), message@),
    ensures
        message@.len() == 0 || message@ == join_notice(
            config.username_view(),
            config.channel_view(),
        ) ==> r matches Ok(None),
        !(message@.len() == 0 || message@ == join_notice(
            config.username_view(),
            config.channel_view(),
        )) ==> if parts(message@).len() < 2 {
            r matches Err(BotError::MessageParse(e)) && e@
                == "Could not parse username from twitch response."@
        } else {
            let raw = text_of(message@);
            let ws = split_spec(raw, ' ');
            &&& r matches Ok(Some(msg))
            &&& msg.sender.tags_view() == tags_spec(parts(message@)[0])
            &&& msg.sender.name_view() == split_spec(parts(message@)[1], '!')[0]
            &&& msg.raw@ == raw
            &&& if config.prefix_view().is_prefix_of(raw) {
                let w = command_word(config.prefix_view(), raw);
                &&& msg.command matches Some(c) && c@ == w.take(
                    w.len() - cut_count(w).unwrap(),
                )
                &&& if ws.len() > 1 {
                    msg.args matches Some(a) && a.deep_view() == ws.skip(1)
                } else {
                    msg.args is None
                }
            } else {
                msg.command is None && msg.args is None
            }
        },
{
    let m = chars_of(message);
    let notice = join_notice_exec(config);
    if m.len() == 0 || chars_eq(m.as_slice(), notice.as_slice()) {
        return Ok(None);
    }
    let (ps, raw) = match text_exec(&m) {
        None => {
            return Err(
                BotError::MessageParse("Could not parse username from twitch response.".to_owned()),
            );
        },
        Some(t) => t,
    };
    let second = chars_of(ps[1].as_str());
    let names = split(second.as_slice(), '!');
    proof {
        lemma_split_nonempty(second@, '!');
    }
    let user = User::parse(ps[0].as_str(), names[0].as_str());
    let rc = chars_of(raw.as_str());
    let prefix = chars_of(config.prefix.as_str());
    if !starts_with(rc.as_slice(), prefix.as_slice()) {
        return Ok(Some(Message { command: None, args: None, sender: user, raw }));
    }
    let words = split(rc.as_slice(), ' ');
    proof {
        lemma_split_nonempty(rc@, ' ');
    }
    let first = chars_of(words[0].as_str());
    let cmd = if first.len() >= prefix.len() {
        chars_of(string_of(first.as_slice(), prefix.len(), first.len()).as_str())
    } else {
        Vec::new()
    };
    assert(cmd@ =~= command_word(prefix@, rc@));
    let cut = match cut_count_exec(cmd.as_slice()) {
        Some(k) => k,
        None => {
            assert(false);
            0
        },
    };
    let command = string_of(cmd.as_slice(), 0, cmd.len() - cut);
    assert(cmd@.subrange(0, cmd.len() - cut) =~= cmd@.take(cmd.len() - cut));
    let mut args: Vec<String> = Vec::new();
    let mut i: usize = 1;
    while i < words.len()
        invariant
            1 <= i <= words@.len(),
            args.deep_view() == words.deep_view().subrange(1, i as int),
        decreases words.len() - i,
    {
        let w = words[i].clone();
        assert(w@ == words.deep_view()[i as int]);
        let ghost before = args.deep_view();
        args.push(w);
        assert(args.deep_view() =~= before.push(w@));
        assert(args.deep_view() =~= words.deep_view().subrange(1, i + 1));
        i = i + 1;
    }
    assert(words.deep_view().subrange(1, words@.len() as int) =~= words.deep_view().skip(1));
    let args = if args.len() == 0 {
        None
    } else {
        Some(args)
    };
    Ok(Some(Message { command: Some(command), args, sender: user, raw }))
}

} // verus!
