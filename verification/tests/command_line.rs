use mls_sim::command::{
    command_hints, format_duration, join_args, matching_command_hints, parse_console_command,
    parse_optional_i32, parse_required_i32, required_arg, split_command_args, ConsoleCommand, Tab,
};
use mls_sim::text::parse_i32;

fn strings(v: &[&str]) -> Vec<String> {
    v.iter().map(|s| s.to_string()).collect()
}

#[test]
fn split_plain_arguments() {
    assert_eq!(split_command_args("join room-001 2 Bob").unwrap(), strings(&["join", "room-001", "2", "Bob"]));
    assert_eq!(split_command_args("   rooms   ").unwrap(), strings(&["rooms"]));
    assert_eq!(split_command_args("").unwrap(), Vec::<String>::new());
    assert_eq!(split_command_args(" \t\n ").unwrap(), Vec::<String>::new());
}

#[test]
fn split_honours_quotes() {
    assert_eq!(
        split_command_args("event room-001 \"hello world\" 'a b'").unwrap(),
        strings(&["event", "room-001", "hello world", "a b"])
    );
    assert_eq!(split_command_args("say \"it's\"").unwrap(), strings(&["say", "it's"]));
    assert_eq!(split_command_args("a\"b c\"d").unwrap(), strings(&["ab cd"]));
    assert_eq!(split_command_args("x \"\" y").unwrap(), strings(&["x", "", "y"]));
    assert_eq!(split_command_args("''").unwrap(), strings(&[""]));
}

#[test]
fn split_on_unicode_whitespace() {
    assert_eq!(split_command_args("a\u{3000}b\u{a0}c").unwrap(), strings(&["a", "b", "c"]));
}

#[test]
fn split_reports_unclosed_quote() {
    assert_eq!(split_command_args("event \"oops").unwrap_err(), "缺少结束引号: \"");
    assert_eq!(split_command_args("x 'y").unwrap_err(), "缺少结束引号: '");
}

#[test]
fn split_join_roundtrip_on_plain_words() {
    let words = strings(&["create", "D:/scripts", "2"]);
    let line = join_args(&words, 0, words.len());
    assert_eq!(line, "create D:/scripts 2");
    assert_eq!(split_command_args(&line).unwrap(), words);
}

#[test]
fn required_argument_present_or_named() {
    let args = strings(&["select", "room-001"]);
    assert_eq!(required_arg(&args, 1, "房间").unwrap(), "room-001");
    assert_eq!(required_arg(&args, 2, "房间").unwrap_err(), "缺少参数: 房间");
}

#[test]
fn required_integer_argument() {
    let args = strings(&["join", "room-001", "3", "x"]);
    assert_eq!(parse_required_i32(&args, 2, "槽位").unwrap(), 3);
    assert_eq!(parse_required_i32(&args, 3, "槽位").unwrap_err(), "槽位 必须是整数");
    assert_eq!(parse_required_i32(&args, 4, "槽位").unwrap_err(), "缺少参数: 槽位");
}

#[test]
fn optional_integer_argument() {
    assert_eq!(parse_optional_i32(None, 0, "模式").unwrap(), 0);
    let two = "2".to_string();
    assert_eq!(parse_optional_i32(Some(&two), 0, "模式").unwrap(), 2);
    let bad = "two".to_string();
    assert_eq!(parse_optional_i32(Some(&bad), 0, "模式").unwrap_err(), "模式 必须是整数");
}

#[test]
fn parse_i32_matches_std() {
    for s in ["0", "+5", "-0", "-17", "2147483647", "-2147483648", "007", "2147483648", "-2147483649", "", "-", "+", " 1", "1 ", "1_000", "+-1", "٣", "99999999999999999999"] {
        assert_eq!(parse_i32(s), s.parse::<i32>().ok(), "input {:?}", s);
    }
}

#[test]
fn format_duration_pads_to_two_digits() {
    assert_eq!(format_duration(0), "00:00:00");
    assert_eq!(format_duration(3661), "01:01:01");
    assert_eq!(format_duration(59), "00:00:59");
    assert_eq!(format_duration(360000), "100:00:00");
    assert_eq!(format_duration(-5), "00:00:-5");
    assert_eq!(format_duration(-3661), "-1:-1:-1");
    for secs in [i64::MIN, -86399, 7, 86399, i64::MAX] {
        let h = secs / 3600;
        let m = (secs % 3600) / 60;
        let s = secs % 60;
        assert_eq!(format_duration(secs), format!("{:02}:{:02}:{:02}", h, m, s));
    }
}

fn hint_names(input: &str) -> Vec<&'static str> {
    matching_command_hints(input).iter().map(|h| h.name).collect()
}

#[test]
fn command_hints_for_typed_text() {
    assert_eq!(command_hints().len(), 11);
    assert_eq!(hint_names("").len(), 11);
    assert_eq!(hint_names("   ").len(), 11);
    assert_eq!(hint_names("c"), vec!["clear", "create"]);
    assert_eq!(hint_names("JOIN room-001 1"), vec!["join"]);
    assert_eq!(hint_names("  st"), vec!["stop"]);
    assert_eq!(hint_names("e"), vec!["exit", "event"]);
    assert_eq!(hint_names("re"), vec!["restart"]);
    assert_eq!(hint_names("zz"), Vec::<&str>::new());
    assert_eq!(matching_command_hints("rooms")[0].usage, "rooms - 列出所有房间");
}

fn parsed(line: &str) -> Result<ConsoleCommand, String> {
    parse_console_command(&split_command_args(line).unwrap())
}

#[test]
fn console_commands_are_read() {
    assert!(matches!(parsed("").unwrap(), ConsoleCommand::Nothing));
    assert!(matches!(parsed("rooms").unwrap(), ConsoleCommand::ListRooms));
    assert!(matches!(parsed("clear").unwrap(), ConsoleCommand::Clear));
    match parsed("create D:/scripts 1").unwrap() {
        ConsoleCommand::Create { script_dir } => assert_eq!(script_dir, "D:/scripts"),
        other => panic!("unexpected {:?}", other),
    }
    match parsed("restart room-002").unwrap() {
        ConsoleCommand::Restart { room_id } => assert_eq!(room_id, "room-002"),
        other => panic!("unexpected {:?}", other),
    }
    match parsed("leave room-001 4").unwrap() {
        ConsoleCommand::Leave { room_id, player_index } => {
            assert_eq!(room_id, "room-001");
            assert_eq!(player_index, 4);
        }
        other => panic!("unexpected {:?}", other),
    }
}

#[test]
fn join_names_the_player() {
    match parsed("join room-001 2").unwrap() {
        ConsoleCommand::Join { room_id, player_index, name } => {
            assert_eq!(room_id, "room-001");
            assert_eq!(player_index, 2);
            assert_eq!(name, "Player_2");
        }
        other => panic!("unexpected {:?}", other),
    }
    match parsed("join room-001 -3 Big  Bob").unwrap() {
        ConsoleCommand::Join { player_index, name, .. } => {
            assert_eq!(player_index, -3);
            assert_eq!(name, "Big Bob");
        }
        other => panic!("unexpected {:?}", other),
    }
}

#[test]
fn event_takes_data_and_player() {
    match parsed("event room-001 boss hp 100 2").unwrap() {
        ConsoleCommand::Event { room_id, event_name, data, player_index } => {
            assert_eq!(room_id, "room-001");
            assert_eq!(event_name, "boss");
            assert_eq!(data, "hp 100");
            assert_eq!(player_index, 2);
        }
        other => panic!("unexpected {:?}", other),
    }
    match parsed("event room-001 boss 100").unwrap() {
        ConsoleCommand::Event { data, player_index, .. } => {
            assert_eq!(data, "100");
            assert_eq!(player_index, -1);
        }
        other => panic!("unexpected {:?}", other),
    }
    match parsed("event room-001 boss hp max").unwrap() {
        ConsoleCommand::Event { data, player_index, .. } => {
            assert_eq!(data, "hp max");
            assert_eq!(player_index, -1);
        }
        other => panic!("unexpected {:?}", other),
    }
    match parsed("event room-001 ping").unwrap() {
        ConsoleCommand::Event { data, player_index, .. } => {
            assert_eq!(data, "");
            assert_eq!(player_index, -1);
        }
        other => panic!("unexpected {:?}", other),
    }
}

#[test]
fn console_command_errors() {
    assert_eq!(parsed("create").unwrap_err(), "用法: create <脚本目录> [模式]");
    assert_eq!(parsed("select").unwrap_err(), "缺少参数: 房间");
    assert_eq!(parsed("join room-001").unwrap_err(), "缺少参数: 槽位");
    assert_eq!(parsed("exit room-001 x").unwrap_err(), "槽位 必须是整数");
    assert_eq!(parsed("event room-001").unwrap_err(), "缺少参数: 事件名");
    assert_eq!(parsed("fly away").unwrap_err(), "未知命令: fly");
}

#[test]
fn tabs_compare_by_variant() {
    assert!(Tab::Rooms == Tab::Rooms);
    assert!(Tab::Console != Tab::Settings);
}

#[test]
fn unquoted_lines_split_like_split_whitespace() {
    let line = "  join\troom-001   2  Bob ";
    let expected: Vec<String> = line.split_whitespace().map(String::from).collect();
    assert_eq!(split_command_args(line), Ok(expected));
}

#[test]
fn double_quoted_arguments_split_back() {
    let args = vec!["".to_string(), "a b".to_string(), "it's".to_string(), "\t".to_string()];
    let line = args.iter().map(|a| format!("\"{}\"", a)).collect::<Vec<_>>().join(" ");
    assert_eq!(split_command_args(&line), Ok(args));
}

#[test]
fn durations_read_back() {
    assert_eq!(format_duration(0), "00:00:00");
    assert_eq!(format_duration(3725), "01:02:05");
    assert_eq!(format_duration(360000), "100:00:00");
}
