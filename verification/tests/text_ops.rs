use gotw::text::{
    ascii_lowercase, chars_of, contains_str, join_from, parse_unsigned, split, starts_with_str,
    trim_crlf_len, usize_to_string,
};

fn cs(s: &str) -> Vec<char> {
    s.chars().collect()
}

#[test]
fn split_keeps_empty_pieces() {
    let v = cs("a::b:");
    let parts = split(&v, ':');
    assert_eq!(parts, vec!["a".to_string(), "".to_string(), "b".to_string(), "".to_string()]);
    let none = split(&cs(""), ':');
    assert_eq!(none, vec!["".to_string()]);
}

#[test]
fn join_undoes_split() {
    let text = "hello there : friend ";
    let parts = split(&cs(text), ' ');
    assert_eq!(join_from(&parts, 0, ' '), text);
    assert_eq!(join_from(&parts, 1, ' '), "there : friend ");
}

#[test]
fn parse_unsigned_follows_str_parse() {
    let cases = ["0", "42", "+7", "", "+", "-1", "12a", "18446744073709551615", "18446744073709551616"];
    for c in cases {
        let expected = c.parse::<u64>().ok();
        assert_eq!(parse_unsigned(&cs(c), 0, u64::MAX), expected, "input {:?}", c);
    }
    assert_eq!(parse_unsigned(&cs("-k=300"), 3, 255), None);
    assert_eq!(parse_unsigned(&cs("-k=200"), 3, 255), Some(200));
}

#[test]
fn decimal_numerals() {
    assert_eq!(usize_to_string(0), "0");
    assert_eq!(usize_to_string(10), "10");
    assert_eq!(usize_to_string(90417), "90417");
    assert_eq!(usize_to_string(usize::MAX), usize::MAX.to_string());
}

#[test]
fn contains_prefix_lowercase_trim() {
    assert!(contains_str(&cs("subscriber/12,vip/1"), "vip"));
    assert!(!contains_str(&cs("subscriber/12"), "vip"));
    assert!(contains_str(&cs("x"), ""));
    assert!(starts_with_str(&cs("!commands add x"), "!commands add"));
    assert!(!starts_with_str(&cs("!command"), "!commands"));
    assert_eq!(ascii_lowercase(&cs("-P=MoD Ä")), cs("-p=mod Ä"));
    let line = cs("PRIVMSG #a :hi\r\n\r\n");
    assert_eq!(trim_crlf_len(&line), line.len() - 4);
    assert_eq!(chars_of("héllo").len(), 5);
}
