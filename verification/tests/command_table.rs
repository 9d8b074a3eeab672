use gotw::gotw::bot::Message;
use gotw::gotw::command::command_map::{has_words_for, CommandMap};
use gotw::gotw::command::CommandError;
use gotw::gotw::user::User;
use gotw::gotw::BotError;

const MOD: &str = "@badges=moderator/1;mod=1";
const VIEWER: &str = "@badges=;mod=0";

fn message(text: &str, tags: &str) -> Message {
    Message {
        words: text.split(' ').map(|w| w.to_string()).collect(),
        sender: User::parse(tags, "someone"),
        raw: text.to_string(),
    }
}

fn run(map: &mut CommandMap, text: &str, tags: &str) -> Result<Option<String>, BotError> {
    assert!(map.can_count_runs());
    map.try_run_cmd(message(text, tags))
}

fn text(r: Result<Option<String>, BotError>) -> Option<String> {
    r.unwrap()
}

fn error(r: Result<Option<String>, BotError>) -> CommandError {
    match r {
        Err(BotError::Command(e)) => e,
        other => panic!("expected a command error, got {:?}", other),
    }
}

#[test]
fn add_run_delete_command() {
    let mut map = CommandMap::new();
    assert_eq!(text(run(&mut map, "!commands add !hello Hi there!", MOD)).as_deref(), Some("Command !hello successfully added"));
    assert_eq!(text(run(&mut map, "!hello", VIEWER)).as_deref(), Some("Hi there!"));
    assert_eq!(text(run(&mut map, "hello", VIEWER)), None);
    assert_eq!(text(run(&mut map, "say !hello", VIEWER)), None);
    assert_eq!(text(run(&mut map, "!commands del !hello", MOD)).as_deref(), Some("Command !hello successfully removed"));
    assert_eq!(text(run(&mut map, "!hello", VIEWER)), None);
    assert_eq!(error(run(&mut map, "!commands del !hello", MOD)), CommandError::NotRegistered);
}

#[test]
fn command_without_prefix() {
    let mut map = CommandMap::new();
    run(&mut map, "!commands add hello Hi there!", MOD).unwrap();
    assert_eq!(text(run(&mut map, "hello you", VIEWER)).as_deref(), Some("Hi there!"));
    assert_eq!(text(run(&mut map, "!hello", VIEWER)), None);
}

#[test]
fn triggers_answer_anywhere() {
    let mut map = CommandMap::new();
    assert_eq!(text(run(&mut map, "!commands add -k=1 gl Thanks, friend!", MOD)).as_deref(), Some("Trigger gl successfully added"));
    assert_eq!(text(run(&mut map, "good luck gl everyone", VIEWER)).as_deref(), Some("Thanks, friend!"));
    assert_eq!(text(run(&mut map, "nothing here", VIEWER)), None);
    assert_eq!(text(run(&mut map, "- gl", MOD)).as_deref(), Some("Trigger gl successfully removed"));
    assert_eq!(text(run(&mut map, "gl", VIEWER)), None);
}

#[test]
fn viewers_cannot_manage_and_perms_are_checked() {
    let mut map = CommandMap::new();
    assert_eq!(text(run(&mut map, "!commands add !x y", VIEWER)), None);
    assert_eq!(text(run(&mut map, "!x", VIEWER)), None);
    run(&mut map, "!commands add -p=mod !secret psst", MOD).unwrap();
    assert_eq!(error(run(&mut map, "!secret", VIEWER)), CommandError::InsufficientPerms);
    assert_eq!(text(run(&mut map, "!secret", MOD)).as_deref(), Some("psst"));
    assert_eq!(error(run(&mut map, "!commands unalias foo", MOD)), CommandError::NotRegistered);
}

#[test]
fn plus_alias_and_template_count() {
    let mut map = CommandMap::new();
    assert_eq!(text(run(&mut map, "+ !hug ${sender} hugs ${1} (${count})", MOD)).as_deref(), Some("Command !hug successfully added"));
    let mut m = message("!hug dave", VIEWER);
    m.sender = User::parse(VIEWER, "carol");
    assert_eq!(text(map.try_run_cmd(m)).as_deref(), Some("carol hugs dave (1)"));
    assert_eq!(error(run(&mut map, "!hug", VIEWER)), CommandError::NotEnoughArgs);
}

#[test]
fn plus_and_full_add_line_agree() {
    let mut m1 = CommandMap::new();
    let mut m2 = CommandMap::new();
    let r1 = text(run(&mut m1, "+ !hello Hi there!", "@mod=1"));
    let r2 = text(run(&mut m2, "!commands add !hello Hi there!", "@mod=1"));
    assert_eq!(r1.as_deref(), Some("Command !hello successfully added"));
    assert_eq!(r1, r2);
    assert_eq!(text(run(&mut m1, "!hello", "")).as_deref(), Some("Hi there!"));
    assert_eq!(text(run(&mut m2, "!hello", "")).as_deref(), Some("Hi there!"));
}

#[test]
fn case_insensitive_commands() {
    let mut map = CommandMap::new();
    run(&mut map, "!commands add -cs=false !Hi Hello", MOD).unwrap();
    run(&mut map, "!commands add !Yo Hey", MOD).unwrap();
    assert_eq!(text(run(&mut map, "!hi", VIEWER)).as_deref(), Some("Hello"));
    assert_eq!(text(run(&mut map, "!HI", VIEWER)).as_deref(), Some("Hello"));
    assert_eq!(text(run(&mut map, "!Hi", VIEWER)).as_deref(), Some("Hello"));
    assert_eq!(text(run(&mut map, "!Yo", VIEWER)).as_deref(), Some("Hey"));
    assert_eq!(text(run(&mut map, "!yo", VIEWER)), None);
    run(&mut map, "!commands add -k=0 -cs=false WOW such", MOD).unwrap();
    assert_eq!(text(run(&mut map, "so wow here", VIEWER)).as_deref(), Some("such"));
}

#[test]
fn exact_name_is_preferred() {
    let mut map = CommandMap::new();
    run(&mut map, "!commands add -cs=false !Hi loose", MOD).unwrap();
    run(&mut map, "!commands add !hi exact", MOD).unwrap();
    assert_eq!(text(run(&mut map, "!hi", VIEWER)).as_deref(), Some("exact"));
    assert_eq!(text(run(&mut map, "!HI", VIEWER)).as_deref(), Some("loose"));
}

#[test]
fn commands_and_triggers_never_overlap() {
    let mut map = CommandMap::new();
    run(&mut map, "!commands add x one", MOD).unwrap();
    assert_eq!(error(run(&mut map, "!commands add -k=1 x two", MOD)), CommandError::AlreadyRegistered);
    assert_eq!(text(run(&mut map, "x", VIEWER)).as_deref(), Some("one"));
    assert_eq!(text(run(&mut map, "a x", VIEWER)), None);
    run(&mut map, "!commands add -k=1 gl luck", MOD).unwrap();
    assert_eq!(error(run(&mut map, "+ gl other", MOD)), CommandError::AlreadyRegistered);
    assert_eq!(text(run(&mut map, "gl", VIEWER)).as_deref(), Some("luck"));
    assert_eq!(text(run(&mut map, "!commands add x three", MOD)).as_deref(), Some("Command x successfully added"));
    assert_eq!(text(run(&mut map, "x", VIEWER)).as_deref(), Some("three"));
}

#[test]
fn cooldown_counts_from_the_last_answer() {
    let mut map = CommandMap::new();
    run(&mut map, "!commands add -cd=100000 !slow ${count}", MOD).unwrap();
    assert_eq!(text(run(&mut map, "!slow", VIEWER)).as_deref(), Some("1"));
    assert_eq!(text(run(&mut map, "!slow", VIEWER)), None);
    assert_eq!(text(run(&mut map, "!slow", VIEWER)), None);
}

#[test]
fn needed_words_are_checked() {
    assert!(has_words_for(&message("!commands add", MOD)));
    assert!(!has_words_for(&message("!commands del", MOD)));
    assert!(has_words_for(&message("!commands del x", MOD)));
    assert!(!has_words_for(&message("-", MOD)));
    assert!(has_words_for(&message("- x", MOD)));
    assert!(!has_words_for(&message("!commands unalias", MOD)));
    assert!(has_words_for(&message("!commands del", VIEWER)));
    let mut empty = message("", VIEWER);
    empty.words.clear();
    assert!(!has_words_for(&empty));
}
