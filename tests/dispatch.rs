use twitch_chat_bot::bot_command::BotCommand;
use twitch_chat_bot::chat_bot::handle_message;
use twitch_chat_bot::command_parser::{validate_command_placeholders, Command, Commands};
use twitch_chat_bot::cooldown::CooldownTable;
use twitch_chat_bot::handshake::{frame_line, handshake_lines};
use twitch_chat_bot::private_message::{PrivateMessageRequest, PrivateMessageResponse};

fn def(name: &str, response: &str, cooldown: &str, scope: &str) -> Command {
    Command {
        name: name.to_string(),
        response: response.to_string(),
        cooldown_in_s: cooldown.to_string(),
        cooldown_scope: scope.to_string(),
    }
}

fn bot(token: &str, params: Option<&str>) -> BotCommand {
    BotCommand { command: token.to_string(), command_params: params.map(|p| p.to_string()) }
}

fn registry(defs: Vec<Command>) -> Commands {
    match Commands::new(defs) {
        Ok(c) => c,
        Err(e) => panic!("{}", e),
    }
}

#[test]
fn dispatch_fills_placeholders_and_sender() {
    let commands = registry(vec![def("hello {who}", "Hi {who}, from {sender}!", "0", "user")]);
    let mut table = CooldownTable::new();
    let r = bot("hello", Some("Bob")).parse("Zoe", "#chan", &commands, &mut table, 1000).unwrap();
    assert_eq!(r.to_line(), "PRIVMSG #chan :Hi Bob, from Zoe!");
    assert_eq!(table.last_trigger_of("hello", "Zoe"), Some(1000));
}

#[test]
fn missing_parameters_leave_placeholders() {
    let commands = registry(vec![def("so {a} {b}", "{a} and {b}", "0", "user")]);
    let mut table = CooldownTable::new();
    let r = bot("so", Some("x")).parse("Zoe", "#c", &commands, &mut table, 5).unwrap();
    assert_eq!(r.to_line(), "PRIVMSG #c :x and {b}");
    let r = bot("so", None).parse("Zoe", "#c", &commands, &mut table, 5).unwrap();
    assert_eq!(r.to_line(), "PRIVMSG #c :{a} and {b}");
}

#[test]
fn user_cooldown_rejects_within_window_then_allows() {
    let commands = registry(vec![def("dice", "rolled", "30", "user")]);
    let mut table = CooldownTable::new();
    let b = bot("dice", None);
    assert!(b.parse("Ann", "#c", &commands, &mut table, 100).is_some());
    assert!(b.parse("Ann", "#c", &commands, &mut table, 129).is_none());
    assert_eq!(table.last_trigger_of("dice", "Ann"), Some(100));
    assert!(b.parse("Ann", "#c", &commands, &mut table, 130).is_some());
    assert_eq!(table.last_trigger_of("dice", "Ann"), Some(130));
}

#[test]
fn global_scope_blocks_other_senders() {
    let commands = registry(vec![def("raid", "go", "60", "global")]);
    let mut table = CooldownTable::new();
    let b = bot("raid", None);
    assert!(b.parse("Ann", "#c", &commands, &mut table, 10).is_some());
    assert!(b.parse("Bob", "#c", &commands, &mut table, 20).is_none());
    assert_eq!(table.last_trigger_of("raid", "global"), Some(10));
    assert!(b.parse("Bob", "#c", &commands, &mut table, 70).is_some());
}

#[test]
fn user_scope_does_not_block_other_senders() {
    let commands = registry(vec![def("dice", "rolled", "60", "user")]);
    let mut table = CooldownTable::new();
    let b = bot("dice", None);
    assert!(b.parse("Ann", "#c", &commands, &mut table, 10).is_some());
    assert!(b.parse("Bob", "#c", &commands, &mut table, 20).is_some());
    assert!(b.parse("Ann", "#c", &commands, &mut table, 30).is_none());
}

#[test]
fn unknown_token_gives_no_reply_and_keeps_table() {
    let commands = registry(vec![def("dice", "rolled", "60", "user")]);
    let mut table = CooldownTable::new();
    assert!(bot("nope", None).parse("Ann", "#c", &commands, &mut table, 10).is_none());
    assert_eq!(table.last_trigger_of("nope", "Ann"), None);
    assert_eq!(table.last_trigger_of("dice", "Ann"), None);
}

#[test]
fn unknown_scope_never_fires() {
    let commands = registry(vec![def("x", "y", "0", "channel")]);
    let mut table = CooldownTable::new();
    assert!(bot("x", None).parse("Ann", "#c", &commands, &mut table, 10).is_none());
    assert_eq!(table.last_trigger_of("x", "Ann"), None);
}

#[test]
fn unparsable_cooldown_counts_as_zero() {
    let commands = registry(vec![def("x", "y", "soon", "user"), def("z", "w", "+5", "user")]);
    let mut table = CooldownTable::new();
    assert!(bot("x", None).parse("Ann", "#c", &commands, &mut table, 10).is_some());
    assert!(bot("x", None).parse("Ann", "#c", &commands, &mut table, 10).is_some());
    assert!(bot("z", None).parse("Ann", "#c", &commands, &mut table, 10).is_some());
    assert!(bot("z", None).parse("Ann", "#c", &commands, &mut table, 14).is_none());
    assert!(bot("z", None).parse("Ann", "#c", &commands, &mut table, 15).is_some());
}

#[test]
fn clock_going_back_is_within_window() {
    let commands = registry(vec![def("x", "y", "0", "user")]);
    let mut table = CooldownTable::new();
    assert!(bot("x", None).parse("Ann", "#c", &commands, &mut table, 10).is_some());
    assert!(bot("x", None).parse("Ann", "#c", &commands, &mut table, 9).is_none());
}

#[test]
fn first_matching_definition_wins() {
    let commands = registry(vec![
        def("hi there", "first", "0", "user"),
        def("hi", "second", "0", "user"),
    ]);
    let mut table = CooldownTable::new();
    let r = bot("hi", None).parse("Ann", "#c", &commands, &mut table, 1).unwrap();
    assert_eq!(r.to_line(), "PRIVMSG #c :first");
    assert_eq!(commands.get().len(), 2);
}

#[test]
fn placeholder_parity_is_checked() {
    assert!(validate_command_placeholders(&def("hello {who}", "Hi {who} {sender}", "0", "user")).is_ok());
    assert!(validate_command_placeholders(&def("a {x} {y}", "{y} {x} {x}", "0", "user")).is_ok());
    let e = validate_command_placeholders(&def("hello {who}", "Hi {sender}", "0", "user")).unwrap_err();
    assert_eq!(e, "Placeholder mismatch in command 'hello {who}'");
    assert!(validate_command_placeholders(&def("hello", "Hi {who}", "0", "user")).is_err());
    let r = Commands::new(vec![def("a", "b", "0", "user"), def("c {d}", "e", "0", "user")]);
    assert_eq!(r.err().as_deref(), Some("Placeholder mismatch in command 'c {d}'"));
}

#[test]
fn ping_gets_pong() {
    let commands = registry(vec![]);
    let mut table = CooldownTable::new();
    let m = PrivateMessageRequest::new("PING :tmi.twitch.tv");
    assert_eq!(handle_message(&m, &commands, &mut table, 1).as_deref(), Some("PONG tmi.twitch.tv"));
}

#[test]
fn privmsg_bot_command_is_dispatched() {
    let commands = registry(vec![def("hello {who}", "Hi {who}, from {sender}!", "0", "user")]);
    let mut table = CooldownTable::new();
    let m = PrivateMessageRequest::new(
        "@badge-info=;display-name=Foo :foo!foo@foo.tmi.twitch.tv PRIVMSG #bar :!hello Baz",
    );
    assert_eq!(
        handle_message(&m, &commands, &mut table, 1).as_deref(),
        Some("PRIVMSG #bar :Hi Baz, from Foo!")
    );
    let m = PrivateMessageRequest::new(":foo!foo@foo PRIVMSG #bar :!hello Baz");
    assert_eq!(handle_message(&m, &commands, &mut table, 1), None);
    let m = PrivateMessageRequest::new(":tmi.twitch.tv JOIN #bar");
    assert_eq!(handle_message(&m, &commands, &mut table, 1), None);
}

#[test]
fn response_and_handshake_lines() {
    assert_eq!(PrivateMessageResponse::from("#a", "b c").to_line(), "PRIVMSG #a :b c");
    let lines = handshake_lines("oauth:SECRET-REDACTED", "bot", "chan");
    assert_eq!(lines, vec!["PASS oauth:SECRET-REDACTED", "NICK bot", "JOIN #chan", "CAP REQ :twitch.tv/tags"]);
    assert_eq!(frame_line("PONG x"), "PONG x\r\n");
}
