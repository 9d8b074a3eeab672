use gotw::gotw::user::User;

#[test]
fn user_tags_from_tag_string() {
    let u = User::parse("@badge-info=;badges=broadcaster/1;mod=0;color=#FF0000", "alice");
    assert_eq!(u.username(), "alice");
    assert_eq!(u.display_text(), "alice");
    assert_eq!(u.tag("badges").map(|s| s.as_str()), Some("broadcaster/1"));
    assert_eq!(u.tag("badge-info").map(|s| s.as_str()), Some(""));
    assert_eq!(u.tag("mod").map(|s| s.as_str()), Some("0"));
    assert_eq!(u.tag("color").map(|s| s.as_str()), Some("#FF0000"));
    assert_eq!(u.tag("subscriber"), None);
}

#[test]
fn user_later_tag_wins_and_odd_pieces() {
    let u = User::parse("mod=0;m@o@d=1;novalue;a=b=c", "bob");
    assert_eq!(u.tag("mod").map(|s| s.as_str()), Some("1"));
    assert_eq!(u.tag("").map(|s| s.as_str()), Some(""));
    assert_eq!(u.tag("a").map(|s| s.as_str()), Some("b=c"));
    assert_eq!(u.tag("novalue"), None);
}
