use mls_sim::command::ConsoleCommand;
use mls_sim::console::{
    command_echo, command_reply, keep_latest, log_matches_filters, sort_names, trim_spaces,
    CommandOutcome, MAX_LOGS,
};

#[test]
fn trimming_and_echo() {
    assert_eq!(trim_spaces("  rooms \t\n"), "rooms");
    assert_eq!(trim_spaces("   "), "");
    assert_eq!(command_echo("rooms", "暂无房间"), "$ rooms -> 暂无房间");
}

#[test]
fn names_sort() {
    let mut v = vec!["room-003".to_string(), "room-001".to_string(), "room-002".to_string()];
    sort_names(&mut v);
    assert_eq!(v, vec!["room-001", "room-002", "room-003"]);
}

#[test]
fn only_the_latest_lines_are_kept() {
    let mut v: Vec<i32> = (0..10).collect();
    keep_latest(&mut v, 3);
    assert_eq!(v, vec![7, 8, 9]);
    let mut w = vec![1, 2];
    keep_latest(&mut w, 3);
    assert_eq!(w, vec![1, 2]);
    assert_eq!(MAX_LOGS, 10000);
}

#[test]
fn log_filters() {
    assert!(log_matches_filters("INF", "room-001", "Hello World", "", "", ""));
    assert!(log_matches_filters("INF", "room-001", "Hello World", "INF", "room-001", "WORLD"));
    assert!(!log_matches_filters("ERR", "room-001", "Hello", "INF", "", ""));
    assert!(!log_matches_filters("INF", "room-002", "Hello", "", "room-001", ""));
    assert!(!log_matches_filters("INF", "room-001", "Hello", "", "", "bye"));
}

#[test]
fn replies_to_commands() {
    let rooms = ConsoleCommand::ListRooms;
    let r = command_reply(
        &rooms,
        CommandOutcome::Rooms { rooms: vec!["b(运行中)".to_string(), "a(已停止)".to_string()] },
    );
    assert_eq!(r, Ok("房间: a(已停止), b(运行中)".to_string()));
    let r = command_reply(&rooms, CommandOutcome::Rooms { rooms: vec![] });
    assert_eq!(r, Ok("暂无房间".to_string()));
    let create = ConsoleCommand::Create { script_dir: "scripts".to_string() };
    assert_eq!(
        command_reply(&create, CommandOutcome::NewRoom { room_id: "room-001".to_string() }),
        Ok("已创建房间 room-001".to_string())
    );
    assert_eq!(
        command_reply(&create, CommandOutcome::NoSuchDirectory),
        Err("脚本目录不存在: scripts".to_string())
    );
    let leave = ConsoleCommand::Leave { room_id: "room-001".to_string(), player_index: 2 };
    assert_eq!(
        command_reply(&leave, CommandOutcome::Answered { errnu: 0 }),
        Ok("玩家 2 已离线".to_string())
    );
    assert_eq!(
        command_reply(&leave, CommandOutcome::Answered { errnu: 3 }),
        Err("玩家离线失败: errnu=3".to_string())
    );
    let stop = ConsoleCommand::Stop { room_id: "x".to_string() };
    assert_eq!(command_reply(&stop, CommandOutcome::NoSuchRoom), Err("房间不存在: x".to_string()));
    assert_eq!(command_reply(&ConsoleCommand::Clear, CommandOutcome::Done), Ok("日志已清空".to_string()));
}
