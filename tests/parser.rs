use twitch_chat_bot::private_message::{
    parse_command, parse_parameters, parse_source, PrivateMessageRequest, TagValue,
};

fn tag_text<'a>(m: &'a PrivateMessageRequest, key: &str) -> Option<&'a str> {
    let tags = m.tags.as_ref()?;
    match &tags.iter().rev().find(|t| t.key == key)?.value {
        TagValue::Text(s) => Some(s.as_str()),
        _ => None,
    }
}

#[test]
fn parameters_round_trip() {
    let (token, params) = parse_parameters("!greet Alice");
    assert_eq!(token, "greet");
    assert_eq!(params.as_deref(), Some("Alice"));
    let (token, params) = parse_parameters("!greet   Alice \t Bob  ");
    assert_eq!(token, "greet");
    let params = params.unwrap();
    assert_eq!(params, "Alice Bob");
    let again: Vec<&str> = params.split_whitespace().collect();
    assert_eq!(again, vec!["Alice", "Bob"]);
}

#[test]
fn parameters_without_words() {
    let (token, params) = parse_parameters("!hello");
    assert_eq!(token, "hello");
    assert_eq!(params, None);
    let (token, params) = parse_parameters("!");
    assert_eq!(token, "");
    assert_eq!(params, None);
}

#[test]
fn privmsg_line_with_tags_and_bot_command() {
    let m = PrivateMessageRequest::new(
        "@badge-info=;display-name=Foo :foo!foo@foo.tmi.twitch.tv PRIVMSG #bar :!hello Baz",
    );
    assert_eq!(tag_text(&m, "display-name"), Some("Foo"));
    assert_eq!(tag_text(&m, "badge-info"), Some(""));
    let c = m.command.as_ref().unwrap();
    assert_eq!(c.command, "PRIVMSG");
    assert_eq!(c.channel.as_deref(), Some("#bar"));
    let b = c.bot_command.as_ref().unwrap();
    assert_eq!(b.command, "hello");
    assert_eq!(b.command_params.as_deref(), Some("Baz"));
    let s = m.source.as_ref().unwrap();
    assert_eq!(s.nick.as_deref(), Some("foo"));
    assert_eq!(s.host, "foo@foo.tmi.twitch.tv");
    assert_eq!(m.parameters.as_deref(), Some("!hello Baz"));
}

#[test]
fn bare_ping_line() {
    let m = PrivateMessageRequest::new("PING :tmi.twitch.tv");
    assert!(m.tags.is_none());
    assert!(m.source.is_none());
    let c = m.command.as_ref().unwrap();
    assert_eq!(c.command, "PING");
    assert_eq!(c.channel, None);
    assert_eq!(m.parameters.as_deref(), Some("tmi.twitch.tv"));
}

#[test]
fn badges_and_emotes_are_decoded() {
    let m = PrivateMessageRequest::new(
        "@badges=broadcaster/1,subscriber/12,odd;emotes=25:0-4,12-16/1902:6-10;color=#FF0000 :a!b PRIVMSG #c :Kappa x",
    );
    let tags = m.tags.as_ref().unwrap();
    assert_eq!(tags.len(), 3);
    match &tags[0].value {
        TagValue::Badges(b) => {
            assert_eq!(b.len(), 2);
            assert_eq!((b[0].name.as_str(), b[0].tier.as_str()), ("broadcaster", "1"));
            assert_eq!((b[1].name.as_str(), b[1].tier.as_str()), ("subscriber", "12"));
        },
        _ => panic!("badges not decoded"),
    }
    match &tags[1].value {
        TagValue::Emotes(e) => {
            assert_eq!(e.len(), 2);
            assert_eq!(e[0].id, "25");
            assert_eq!(e[0].positions.len(), 2);
            assert_eq!(e[0].positions[1].start_position, "12");
            assert_eq!(e[0].positions[1].end_position, "16");
            assert_eq!(e[1].id, "1902");
            assert_eq!(e[1].positions[0].start_position, "6");
        },
        _ => panic!("emotes not decoded"),
    }
    assert_eq!(tag_text(&m, "color"), Some("#FF0000"));
    assert!(m.command.as_ref().unwrap().bot_command.is_none());
}

#[test]
fn emote_without_positions() {
    let m = PrivateMessageRequest::new("@emotes= :a!b PRIVMSG #c :hi");
    match &m.tags.as_ref().unwrap()[0].value {
        TagValue::Emotes(e) => {
            assert_eq!(e.len(), 1);
            assert_eq!(e[0].id, "");
            assert!(e[0].positions.is_empty());
        },
        _ => panic!("emotes not decoded"),
    }
}

#[test]
fn source_shapes() {
    let s = parse_source("nick!nick@host");
    assert_eq!(s.nick.as_deref(), Some("nick"));
    assert_eq!(s.host, "nick@host");
    let s = parse_source("tmi.twitch.tv");
    assert_eq!(s.nick, None);
    assert_eq!(s.host, "tmi.twitch.tv");
    let s = parse_source("a!b!c");
    assert_eq!(s.nick, None);
    assert_eq!(s.host, "a");
}

#[test]
fn command_groups() {
    let c = parse_command("  JOIN #chan ").unwrap();
    assert_eq!(c.command, "JOIN");
    assert_eq!(c.channel.as_deref(), Some("#chan"));
    let c = parse_command("CAP * ACK").unwrap();
    assert_eq!(c.is_cap_request_enabled, Some(true));
    let c = parse_command("CAP * NAK").unwrap();
    assert_eq!(c.is_cap_request_enabled, Some(false));
    let c = parse_command("001 botname").unwrap();
    assert_eq!(c.channel.as_deref(), Some("botname"));
    let c = parse_command("RECONNECT").unwrap();
    assert_eq!(c.channel, None);
    assert!(parse_command("353 a = #b").is_none());
    assert!(parse_command("FOO bar").is_none());
    assert!(parse_command("   ").is_none());
}

#[test]
fn malformed_lines_never_fail() {
    let m = PrivateMessageRequest::new("");
    assert!(m.tags.is_none() && m.source.is_none() && m.command.is_none() && m.parameters.is_none());
    let m = PrivateMessageRequest::new("@a=b");
    assert!(m.tags.is_none());
    assert!(m.command.is_none());
    let m = PrivateMessageRequest::new(":");
    assert!(m.command.is_none());
    assert_eq!(m.parameters.as_deref(), Some(""));
    let m = PrivateMessageRequest::new("PRIVMSG #c :!");
    let b = m.command.unwrap().bot_command.unwrap();
    assert_eq!(b.command, "");
}
