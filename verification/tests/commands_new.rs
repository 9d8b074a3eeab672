use gotw::gotw::bot::Message;
use gotw::gotw::command::commands::{CommandPerms, NewCommand};
use gotw::gotw::user::User;
use std::str::FromStr;

fn message(text: &str, tags: &str, name: &str) -> Message {
    Message {
        words: text.split(' ').map(|w| w.to_string()).collect(),
        sender: User::parse(tags, name),
        raw: text.to_string(),
    }
}

#[test]
fn add_line_reads_switches_name_and_reply() {
    let nc = NewCommand::from_str("!commands add -k=1 -cd=10000 gl Thanks, friend!").unwrap();
    assert_eq!(nc.name, "gl");
    assert!(nc.cmd.is_trigger());
    assert_eq!(nc.cmd.perms(), CommandPerms::Anyone);
    let plain = NewCommand::parse("!commands add -p=MOD hello Hi there!");
    assert_eq!(plain.name, "hello");
    assert!(!plain.cmd.is_trigger());
    assert_eq!(plain.cmd.perms(), CommandPerms::Mod);
}

#[test]
fn readme_add_line() {
    let nc = NewCommand::from_str("!commands add !hello Hi there!").unwrap();
    assert_eq!(nc.name, "!hello");
    assert_eq!(nc.cmd.perms(), CommandPerms::Anyone);
    assert!(nc.cmd.is_case_sensitive());
    assert!(!nc.cmd.is_trigger());
    assert!(!nc.cmd.cooling_after(0));
    let mut cmd = nc.cmd;
    assert_eq!(cmd.run(message("!hello", "", "bob")).unwrap().as_deref(), Some("Hi there!"));
}

#[test]
fn plus_opens_an_add_line() {
    let nc = NewCommand::parse("+ -cs=false !hello Hi there!");
    assert_eq!(nc.name, "!hello");
    assert!(!nc.cmd.is_case_sensitive());
    let mut cmd = nc.cmd;
    assert_eq!(cmd.run(message("!hello", "", "bob")).unwrap().as_deref(), Some("Hi there!"));
}

#[test]
fn reply_keeps_inner_spacing_and_later_dashes() {
    let mut cmd = NewCommand::parse("!commands add x a  b -c").cmd;
    assert_eq!(cmd.run(message("x", "", "a")).unwrap().as_deref(), Some("a  b -c"));
    let empty = NewCommand::parse("!commands add -p=vip");
    assert_eq!(empty.name, "");
    let mut cmd = empty.cmd;
    assert_eq!(cmd.run(message("x", "", "a")).unwrap().as_deref(), Some(""));
    let mut bare = NewCommand::parse("!commands add x").cmd;
    assert_eq!(bare.run(message("x", "", "a")).unwrap().as_deref(), Some(""));
}

#[test]
fn last_switch_wins() {
    let nc = NewCommand::parse("!commands add -p=vip -p=broadcaster -p=bogus x y");
    assert_eq!(nc.cmd.perms(), CommandPerms::Broadcaster);
    let nc = NewCommand::parse("!commands add -k=5 -k=nope -k=7 x y");
    assert!(nc.cmd.is_trigger());
}

#[test]
fn reply_kinds() {
    let mut st = NewCommand::parse("!commands add hi Hello ${sender}").cmd;
    let r = st.run(message("!hi", "", "eve")).unwrap();
    assert_eq!(r.as_deref(), Some("Hello eve"));
    let mut fixed = NewCommand::parse("!commands add -t=static hi Hello ${sender}").cmd;
    let r = fixed.run(message("!hi", "", "eve")).unwrap();
    assert_eq!(r.as_deref(), Some("Hello ${sender}"));
    let mut js = NewCommand::parse("!commands add -t=js hi whatever").cmd;
    let r = js.run(message("!hi", "", "eve")).unwrap();
    assert_eq!(r.as_deref(), Some(""));
    let mut counted = NewCommand::parse("!commands add -t=sub c ${count}").cmd;
    assert_eq!(counted.run(message("!c", "", "a")).unwrap().as_deref(), Some("1"));
    assert_eq!(counted.run(message("!c", "", "a")).unwrap().as_deref(), Some("2"));
}

#[test]
fn cooldown_from_last_answer_and_respond() {
    let mut slow = NewCommand::parse("!commands add -cd=100000 slow hello").cmd;
    assert_eq!(slow.run(message("slow", "", "a")).unwrap().as_deref(), Some("hello"));
    assert_eq!(slow.run(message("slow", "", "a")).unwrap(), None);
    assert!(slow.can_count_run());
    let cmd = NewCommand::parse("!commands add t hi ${count}").cmd;
    assert_eq!(cmd.respond(true, message("!t", "", "a")).unwrap(), None);
    assert_eq!(cmd.respond(false, message("!t", "", "a")).unwrap().as_deref(), Some("hi 0"));
    assert!(cmd.can_count_run());
}

#[test]
fn perms_from_tags() {
    let p = |tags: &str| CommandPerms::max(&User::parse(tags, "u"));
    assert_eq!(p("badges=broadcaster/1;mod=0"), CommandPerms::Broadcaster);
    assert_eq!(p("badges=vip/1;mod=1"), CommandPerms::Mod);
    assert_eq!(p("badges=vip/1;mod=0"), CommandPerms::Vip);
    assert_eq!(p("badges=;mod=0"), CommandPerms::Anyone);
    assert_eq!(p(""), CommandPerms::Anyone);
    assert!(CommandPerms::Mod.at_least(&CommandPerms::Vip));
    assert!(!CommandPerms::Vip.at_least(&CommandPerms::Mod));
    assert!(CommandPerms::Broadcaster > CommandPerms::Mod);
}

#[test]
fn cooling_after_compares_with_cooldown() {
    let cmd = NewCommand::parse("!commands add -cd=1500 w hi").cmd;
    assert!(cmd.cooling_after(0));
    assert!(cmd.cooling_after(1499));
    assert!(!cmd.cooling_after(1500));
    let free = NewCommand::parse("!commands add f hi").cmd;
    assert!(!free.cooling_after(0));
}

#[test]
fn run_after_decides_by_elapsed_time() {
    let mut cmd = NewCommand::parse("!commands add -cd=1500 w hi ${count}").cmd;
    assert_eq!(cmd.run_after(None, message("w", "", "a")).unwrap().as_deref(), Some("hi 1"));
    assert_eq!(cmd.run_after(Some(5), message("w", "", "a")).unwrap(), None);
    assert_eq!(cmd.run_after(Some(1499), message("w", "", "a")).unwrap(), None);
    assert_eq!(cmd.run_after(Some(1500), message("w", "", "a")).unwrap().as_deref(), Some("hi 4"));
    let mut free = NewCommand::parse("!commands add f ok").cmd;
    assert_eq!(free.run_after(Some(0), message("f", "", "a")).unwrap().as_deref(), Some("ok"));
}
