use gotw::bot::{parses, try_parse_message, BotConfig};
use gotw::gotw::commands::{Command, CommandAction, CommandPerms};
use gotw::gotw::user::User;
use gotw::irc::{ascii_lower_string, is_ping, login_lines, message_line};

fn config(prefix: &str) -> BotConfig {
    BotConfig::new("#chan".into(), "bot".into(), "pw".into(), prefix.into())
}

#[test]
fn first_parser_reads_commands() {
    let cfg = config("!");
    let line = "@mod=1 :m!m@m.tmi.twitch.tv PRIVMSG #chan :!hello\r\n";
    assert!(parses(&cfg, line));
    let m = try_parse_message(&cfg, line).unwrap().unwrap();
    assert_eq!(m.command.as_deref(), Some("hello"));
    assert_eq!(m.args, None);
    assert_eq!(m.display_text(), "Message from m: !hello\r\n hello");
    let line = "t :u!u PRIVMSG #chan :!add one two";
    let m = try_parse_message(&cfg, line).unwrap().unwrap();
    // the last two bytes of the command word are cut off
    assert_eq!(m.command.as_deref(), Some("a"));
    assert_eq!(m.args, Some(vec!["one".to_string(), "two".to_string()]));
}

#[test]
fn first_parser_plain_lines_and_faults() {
    let cfg = config("!");
    let m = try_parse_message(&cfg, "t :u!u PRIVMSG #c :hello all").unwrap().unwrap();
    assert_eq!(m.command, None);
    assert_eq!(m.raw, "hello all");
    assert_eq!(m.display_text(), "Message from u: hello all ");
    assert!(try_parse_message(&cfg, ":bot!bot@bot.tmi.twitch.tv JOIN #chan").unwrap().is_none());
    assert!(try_parse_message(&cfg, "").unwrap().is_none());
    assert!(try_parse_message(&cfg, "nothing").is_err());
    assert!(!parses(&cfg, "t :u!u x :!a"));
    assert!(!parses(&config("! "), "t :u!u x :! hey you"));
    assert!(parses(&cfg, "t :u!u x :!é"));
    assert_eq!(try_parse_message(&cfg, "t :u!u x :!é").unwrap().unwrap().command.as_deref(), Some(""));
}

#[test]
fn first_commands_count_permitted_runs() {
    let mut c = Command::new(CommandPerms::Mod, CommandAction::Static { ret: "x".into() });
    assert!(!c.run(User::parse("mod=0", "v")));
    assert!(c.run(User::parse("mod=1", "m")));
    assert!(c.run(User::parse("badges=broadcaster/1", "b")));
    assert!(CommandPerms::max(&User::parse("badges=vip/1", "v")) == CommandPerms::Vip);
    assert!(CommandPerms::Vip < CommandPerms::Mod);
}

#[test]
fn first_irc_lines() {
    assert_eq!(login_lines("MyBot", "pw", "#MyChan"), vec!["PASS pw", "NICK mybot", "JOIN #mychan"]);
    assert_eq!(message_line("hi"), "PRIVMSG hi");
    assert!(is_ping("PING :tmi.twitch.tv"));
    assert_eq!(ascii_lower_string("ÄBC"), "Äbc");
}
