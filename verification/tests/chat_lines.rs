use gotw::gotw::bot::{reply_text, try_parse_message, BotConfig};
use gotw::gotw::command::CommandError;
use gotw::gotw::irc::{command_line, is_ping, login_lines, privmsg_line};
use gotw::gotw::BotError;

fn config() -> BotConfig {
    BotConfig::new("#chan".to_string(), "gotwbot".to_string(), "oauth:SECRET".to_string())
}

#[test]
fn parse_chat_line() {
    let line = "@badges=vip/1;mod=0 :viewer!viewer@viewer.tmi.twitch.tv PRIVMSG #chan :!hug some one\r\n";
    let m = try_parse_message(&config(), line).unwrap().unwrap();
    assert_eq!(m.sender.username(), "viewer");
    assert_eq!(m.sender.tag("badges").map(|s| s.as_str()), Some("vip/1"));
    assert_eq!(m.raw, "!hug some one");
    assert_eq!(m.words, vec!["!hug", "some", "one"]);
    assert_eq!(m.display_text(), "Message from viewer: !hug some one");
}

#[test]
fn parse_keeps_later_colons_and_skips_notices() {
    let m = try_parse_message(&config(), "tags :bob!x :a:b: c").unwrap().unwrap();
    assert_eq!(m.raw, "a:b: c");
    assert_eq!(m.sender.username(), "bob");
    assert!(try_parse_message(&config(), "").unwrap().is_none());
    let notice = ":gotwbot!gotwbot@gotwbot.tmi.twitch.tv JOIN #chan";
    assert!(try_parse_message(&config(), notice).unwrap().is_none());
    match try_parse_message(&config(), "no colon here") {
        Err(BotError::MessageParse(e)) => assert_eq!(e, "Could not parse username from twitch response."),
        _ => panic!("expected a parse error"),
    }
}

#[test]
fn replies_for_results() {
    let ok: Result<Option<String>, BotError> = Ok(Some("hi".to_string()));
    assert_eq!(reply_text(&ok).as_deref(), Some("hi"));
    assert_eq!(reply_text(&Ok(None)), None);
    let e = Err(BotError::Command(CommandError::NotEnoughArgs));
    assert_eq!(reply_text(&e).as_deref(), Some("Not enough arguments!"));
    let e = Err(BotError::Command(CommandError::NotRegistered));
    assert_eq!(reply_text(&e).as_deref(), Some("Command/trigger/alias does not exist!"));
    let e = Err(BotError::Command(CommandError::InsufficientPerms));
    assert_eq!(reply_text(&e), None);
}

#[test]
fn irc_lines() {
    assert_eq!(command_line("PASS", "oauth:x"), "PASS oauth:x");
    assert_eq!(privmsg_line("#chan", "hello"), "PRIVMSG #chan :hello");
    assert_eq!(login_lines("Nick", "pw", "#Chan"), vec![
        "PASS pw", "NICK Nick", "JOIN #Chan", "CAP REQ :twitch.tv/tags twitch.tv/commands",
    ]);
    assert!(is_ping("PING :tmi.twitch.tv\r\n"));
    assert!(!is_ping("PING :tmi.twitch.tv"));
}

#[test]
fn error_texts() {
    assert_eq!(BotError::MessageParse("bad".to_string()).display_text(), "bad");
    assert_eq!(BotError::MissingEnvironment("gone".to_string()).display_text(), "gone");
    assert_eq!(BotError::Command(CommandError::NotFound).display_text(), "NotFound");
    let io = std::io::Error::new(std::io::ErrorKind::Other, "disk on fire");
    assert_eq!(BotError::Io(io).display_text(), "disk on fire");
    let e: BotError = std::io::Error::new(std::io::ErrorKind::Other, "x").into();
    assert!(matches!(e, BotError::Io(_)));
}

#[test]
fn config_getters() {
    let c = config();
    assert_eq!(c.channel(), "#chan");
    assert_eq!(c.username(), "gotwbot");
    assert_eq!(c.password(), "oauth:SECRET");
}

#[test]
fn server_url_is_the_twitch_websocket() {
    let url = gotw::gotw::irc::server_url().unwrap();
    assert_eq!(url.as_str(), "ws://irc-ws.chat.twitch.tv/");
    assert_eq!(url.port_or_known_default(), Some(80));
}

#[test]
fn server_address_and_pong() {
    assert_eq!(gotw::gotw::irc::server_address(), "ws://irc-ws.chat.twitch.tv:80");
    assert_eq!(gotw::gotw::irc::pong_line(), "PONG :tmi.twitch.tv");
}
