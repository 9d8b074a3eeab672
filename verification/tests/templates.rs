use gotw::gotw::command::CommandError;
use gotw::gotw::format::FormatArgs;
use gotw::gotw::BotError;

fn words(ws: &[&str]) -> Vec<String> {
    ws.iter().map(|w| w.to_string()).collect()
}

#[test]
fn format_substitutes_count_sender_and_words() {
    let args = FormatArgs::new(3, "carol", words(&["!hug", "dave"]));
    let r = gotw::gotw::format::format("${sender} hugs ${1} (${count} hugs, via ${0})", args).unwrap();
    assert_eq!(r, "carol hugs dave (3 hugs, via !hug)");
}

#[test]
fn format_keeps_unknown_and_lone_dollar() {
    let args = FormatArgs::new(1, "x", words(&["!c"]));
    assert_eq!(gotw::gotw::format::format("cost $5 ${foo} ${bar", args).unwrap(), "cost $5 ${foo} ${bar}");
    let args = FormatArgs::new(1, "x", words(&["!c"]));
    assert_eq!(gotw::gotw::format::format("plain text", args).unwrap(), "plain text");
    let args = FormatArgs::new(1, "x", words(&["!c"]));
    assert_eq!(gotw::gotw::format::format("costs $5, $$ or $", args).unwrap(), "costs $5, $$ or $");
    let args = FormatArgs::new(4, "x", words(&["!c"]));
    assert_eq!(gotw::gotw::format::format("$${count}$", args).unwrap(), "$4$");
    let args = FormatArgs::new(1, "x", words(&["!c", "y"]));
    assert_eq!(gotw::gotw::format::format("${+1}!", args).unwrap(), "y!");
}

#[test]
fn format_missing_word_is_an_error() {
    let args = FormatArgs::new(1, "x", words(&["!c"]));
    match gotw::gotw::format::format("hi ${2}", args) {
        Err(BotError::Command(CommandError::NotEnoughArgs)) => {}
        other => panic!("unexpected {:?}", other),
    }
}
