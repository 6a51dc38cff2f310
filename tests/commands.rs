use chat_relay::command::{is_space_char, parse_command, split_words, Command};

#[test]
fn words_split_on_any_whitespace() {
    assert_eq!(split_words("  a  b\tc\n"), vec!["a", "b", "c"]);
    assert_eq!(split_words(""), Vec::<String>::new());
    assert_eq!(split_words("   "), Vec::<String>::new());
    assert_eq!(split_words("héllo\u{3000}wörld"), vec!["héllo", "wörld"]);
    let line = "x\u{a0}y\u{2003}z  \u{85}w";
    let want: Vec<&str> = line.split_whitespace().collect();
    assert_eq!(split_words(line), want);
}

#[test]
fn space_chars_match_std() {
    for u in 0u32..0x3100 {
        if let Some(c) = char::from_u32(u) {
            assert_eq!(is_space_char(c), c.is_whitespace(), "{:#x}", u);
        }
    }
}

#[test]
fn create_with_and_without_password() {
    assert!(matches!(parse_command("/create"), Ok(Command::Create(None))));
    match parse_command("/create pw") {
        Ok(Command::Create(Some(p))) => assert_eq!(p, "pw"),
        other => panic!("unexpected {:?}", other),
    }
}

#[test]
fn join_parses_the_uuid() {
    match parse_command("/join 67e55044-10b1-426f-9247-bb680e5fe0c8 alice secret") {
        Ok(Command::Join { chat_id, username, password }) => {
            assert_eq!(chat_id, 0x67e55044_10b1_426f_9247_bb680e5fe0c8);
            assert_eq!(username, "alice");
            assert_eq!(password.as_deref(), Some("secret"));
        }
        other => panic!("unexpected {:?}", other),
    }
    match parse_command("/join 67e5504410b1426f9247bb680e5fe0c8 bob") {
        Ok(Command::Join { password, .. }) => assert!(password.is_none()),
        other => panic!("unexpected {:?}", other),
    }
    assert!(parse_command("/join not-a-uuid alice").is_err());
    assert!(parse_command("/join 67e55044-10b1-426f-9247-bb680e5fe0c8").is_err());
}

#[test]
fn send_joins_words_with_single_spaces() {
    match parse_command("/send   hello    big  world ") {
        Ok(Command::Send(m)) => assert_eq!(m, "hello big world"),
        other => panic!("unexpected {:?}", other),
    }
    assert!(parse_command("/send").is_err());
    assert!(parse_command("/send    ").is_err());
}

#[test]
fn simple_commands() {
    assert!(matches!(parse_command("/leave"), Ok(Command::Leave)));
    assert!(matches!(parse_command("  /exit  "), Ok(Command::Exit)));
    assert!(matches!(parse_command("/help"), Ok(Command::Help)));
    assert!(parse_command("/nope").is_err());
    assert!(parse_command("").is_err());
    assert!(matches!("/leave".parse::<Command>(), Ok(Command::Leave)));
}

#[test]
fn lines_without_a_slash_are_sent() {
    match Command::from_line("hi there") {
        Command::Send(m) => assert_eq!(m, "hi there"),
        other => panic!("unexpected {:?}", other),
    }
    assert!(matches!(Command::from_line("/bogus"), Command::Invalid));
    assert!(matches!(Command::from_line("/leave"), Command::Leave));
}

#[test]
fn join_accepts_upper_case_and_simple_uuids() {
    match parse_command("/join 67E55044-10B1-426F-9247-BB680E5FE0C8 carol") {
        Ok(Command::Join { chat_id, .. }) => assert_eq!(chat_id, 0x67e55044_10b1_426f_9247_bb680e5fe0c8),
        other => panic!("unexpected {:?}", other),
    }
    match parse_command("/join 00000000000000000000000000000101 dave") {
        Ok(Command::Join { chat_id, .. }) => assert_eq!(chat_id, 0x101),
        other => panic!("unexpected {:?}", other),
    }
}
