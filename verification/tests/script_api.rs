use mls_sim::console::ERR_OK;
use mls_sim::items::{apply_item_request, consume_items, ConsumeOutcome};
use mls_sim::player::Player;
use mls_sim::require::module_relative_path;
use mls_sim::script_api::{
    connected_player_count, player_achieve_done, player_archive_value,
    player_figure, player_item, player_lottery_count, player_name, player_script_archive,
    ml_event_answer, player_played_time, player_task_figure, player_vip_type, rdata_text, room_game_time, truncate_log, save_script_archive,
    set_player_archive, ArchiveKind, PlayerFigure, ScriptArchiveOutcome, TaskFigure,
    ERR_PLAYER_NOT_EXIST,
};
use std::collections::HashMap;

fn room() -> HashMap<i32, Player> {
    let mut players = HashMap::new();
    let mut p0 = Player::new(0, "Alice".to_string());
    p0.items.insert("gold".to_string(), 10);
    p0.items.insert("gem".to_string(), 2);
    p0.common_archive.insert("k".to_string(), "v".to_string());
    p0.cfg_archive.insert("c".to_string(), "cfg".to_string());
    players.insert(0, p0);
    let mut p1 = Player::new(1, String::new());
    p1.is_connected = false;
    players.insert(1, p1);
    players
}

#[test]
fn figures_of_present_and_missing_players() {
    let players = room();
    assert_eq!(player_figure(&players, 0, PlayerFigure::MapLevel), 1);
    assert_eq!(player_figure(&players, 0, PlayerFigure::Guid), 1_000_000_000_000);
    assert_eq!(player_figure(&players, 0, PlayerFigure::AchievePoint), 120);
    assert_eq!(player_figure(&players, 9, PlayerFigure::MapLevel), 0);
    assert_eq!(player_name(&players, 0), "Alice");
    assert_eq!(player_name(&players, 1), "Player_1");
    assert_eq!(player_name(&players, 9), "");
    assert_eq!(player_vip_type(&players, 0, 6), 1);
    assert_eq!(player_vip_type(&players, 0, 7), 0);
    assert_eq!(player_lottery_count(&players, 0, 1001), 1);
    assert_eq!(player_lottery_count(&players, 9, 1001), 0);
    assert_eq!(player_task_figure(&players, 0, 77, TaskFigure::Total), 10);
    assert_eq!(player_task_figure(&players, 0, 77, TaskFigure::Current), 3);
    assert_eq!(player_task_figure(&players, 9, 77, TaskFigure::Total), 0);
}

#[test]
fn room_figures() {
    let players = room();
    assert_eq!(connected_player_count(&players), 1);
    assert_eq!(connected_player_count(&HashMap::new()), 0);
    assert_eq!(room_game_time(0, 500), 0);
    assert_eq!(room_game_time(100, 500), 400);
}

#[test]
fn required_module_paths() {
    assert_eq!(module_relative_path("a.b.c"), "a/b/c");
    assert_eq!(module_relative_path("lib/x.y"), "lib/x.y");
    assert_eq!(module_relative_path("lib\\x.y"), "lib\\x.y");
    assert_eq!(module_relative_path("plain"), "plain");
}

#[test]
fn items_and_achievements_read_zero_when_absent() {
    let players = room();
    assert_eq!(player_item(&players, 0, "gold"), 10);
    assert_eq!(player_item(&players, 0, "silver"), 0);
    assert_eq!(player_item(&players, 9, "gold"), 0);
    assert_eq!(player_achieve_done(&players, 9, "a1"), 0);
}

#[test]
fn archive_reads_back_what_was_written() {
    let mut players = room();
    assert_eq!(player_archive_value(&players, 0, ArchiveKind::Common, "k"), "v");
    assert_eq!(player_archive_value(&players, 0, ArchiveKind::Cfg, "c"), "cfg");
    assert_eq!(player_archive_value(&players, 0, ArchiveKind::Read, "k"), "");
    let r = set_player_archive(&mut players, 0, false, "k".to_string(), "w".to_string());
    assert_eq!(r, ERR_OK);
    assert_eq!(player_archive_value(&players, 0, ArchiveKind::Common, "k"), "w");
    let r = set_player_archive(&mut players, 0, true, "r".to_string(), "x".to_string());
    assert_eq!(r, ERR_OK);
    assert_eq!(player_archive_value(&players, 0, ArchiveKind::Read, "r"), "x");
    assert_eq!(player_archive_value(&players, 0, ArchiveKind::Common, "r"), "");
    assert_eq!(player_archive_value(&players, 0, ArchiveKind::Common, "k"), "w");
}

#[test]
fn archive_write_for_missing_player_is_refused() {
    let mut players = room();
    let r = set_player_archive(&mut players, 5, false, "k".to_string(), "w".to_string());
    assert_eq!(r, ERR_PLAYER_NOT_EXIST);
    assert_eq!(players.len(), 2);
    assert_eq!(player_archive_value(&players, 5, ArchiveKind::Common, "k"), "");
}

#[test]
fn script_archive_is_saved_within_its_limit() {
    let mut players = room();
    assert_eq!(player_script_archive(&players, 0), "");
    assert_eq!(
        save_script_archive(&mut players, 0, "héllo".to_string(), 6),
        ScriptArchiveOutcome::Saved
    );
    assert_eq!(player_script_archive(&players, 0), "héllo");
    assert_eq!(
        save_script_archive(&mut players, 0, "héllo!".to_string(), 6),
        ScriptArchiveOutcome::TooLong
    );
    assert_eq!(player_script_archive(&players, 0), "héllo");
    assert_eq!(
        save_script_archive(&mut players, 4, "x".to_string(), 6),
        ScriptArchiveOutcome::PlayerNotExist
    );
}

#[test]
fn consuming_items_takes_them() {
    let mut players = room();
    let res = consume_items(&mut players, 0, r#"{"gold": 4, "gem": 2}"#);
    let (outcome, request) = res.unwrap();
    assert_eq!(outcome, ConsumeOutcome::Consumed);
    assert_eq!(request, vec![("gem".to_string(), 2), ("gold".to_string(), 4)]);
    assert_eq!(player_item(&players, 0, "gold"), 6);
    assert_eq!(player_item(&players, 0, "gem"), 0);
}

#[test]
fn consuming_refuses_missing_player_and_bad_requests() {
    let mut players = room();
    let (o, r) = consume_items(&mut players, 7, r#"{"gold": 1}"#).unwrap();
    assert_eq!(o, ConsumeOutcome::PlayerNotExist);
    assert!(r.is_empty());
    let (o, r) = consume_items(&mut players, 0, "not json").unwrap();
    assert_eq!(o, ConsumeOutcome::Unknown);
    assert!(r.is_empty());
    let (o, _) = consume_items(&mut players, 0, r#"{"gold": 1.5}"#).unwrap();
    assert_eq!(o, ConsumeOutcome::Unknown);
    assert_eq!(player_item(&players, 0, "gold"), 10);
}

#[test]
fn consuming_too_much_or_unknown_items_changes_nothing() {
    let mut players = room();
    let (o, r) = consume_items(&mut players, 0, r#"{"gold": 11}"#).unwrap();
    assert_eq!(o, ConsumeOutcome::ItemNotEnough);
    assert_eq!(r, vec![("gold".to_string(), 11)]);
    let (o, _) = consume_items(&mut players, 0, r#"{"gold": 1, "wood": 1}"#).unwrap();
    assert_eq!(o, ConsumeOutcome::ItemNotFound);
    assert_eq!(player_item(&players, 0, "gold"), 10);
    let (o, _) = consume_items(&mut players, 0, r#"{"gem": 3, "wood": 1}"#).unwrap();
    assert_eq!(o, ConsumeOutcome::ItemNotEnough);
}

#[test]
fn consuming_a_count_past_the_integer_range_is_refused() {
    let mut players = room();
    let res = consume_items(&mut players, 0, r#"{"gold": -2147483647}"#);
    assert!(res.is_none());
    assert_eq!(player_item(&players, 0, "gold"), 10);
}

#[test]
fn applying_a_read_request() {
    let mut players = room();
    let req = vec![("gold".to_string(), 3)];
    assert_eq!(apply_item_request(&mut players, 0, &req), ConsumeOutcome::Consumed);
    assert_eq!(player_item(&players, 0, "gold"), 7);
    assert_eq!(apply_item_request(&mut players, 3, &req), ConsumeOutcome::PlayerNotExist);
}

#[test]
fn default_player_answers_the_script_api() {
    let mut players = HashMap::new();
    players.insert(0, Player::new(0, "Player_0".to_string()));
    let f = |fig| player_figure(&players, 0, fig);
    assert_eq!(f(PlayerFigure::Guid), 1_000_000_000_000);
    assert_eq!(f(PlayerFigure::PlatLevel), 30);
    assert_eq!(f(PlayerFigure::VipLevel), 1);
    assert_eq!(f(PlayerFigure::MapVipLevel), 1);
    assert_eq!(f(PlayerFigure::IsAuthor), 1);
    assert_eq!(f(PlayerFigure::IsCollected), 1);
    assert_eq!(f(PlayerFigure::IsBackflow), 0);
    assert_eq!(f(PlayerFigure::DayRounds), 3);
    assert_eq!(f(PlayerFigure::SinceLastGame), 3600);
    assert_eq!(f(PlayerFigure::AchievePoint), 120);
    assert_eq!(f(PlayerFigure::SignInTotal), 7);
    assert_eq!(f(PlayerFigure::SignInContMax), 5);
    assert_eq!(f(PlayerFigure::SignInContCur), 2);
    assert_eq!(f(PlayerFigure::HasTopic), 1);
    assert_eq!(f(PlayerFigure::IsManager), 0);
    assert_eq!(f(PlayerFigure::TopicCount), 2);
    assert_eq!(f(PlayerFigure::CommentCount), 5);
    assert_eq!(f(PlayerFigure::HappyCount), 20);
    assert_eq!(f(PlayerFigure::BestCount), 1);
    assert_eq!(f(PlayerFigure::AppraiseCount), 10);
    assert_eq!(f(PlayerFigure::IsPinned), 1);
    assert_eq!(f(PlayerFigure::PetAdvTime), -1);
    assert_eq!(f(PlayerFigure::GuildLevel), 1);
    assert_eq!(player_vip_type(&players, 0, 6), 1);
    assert_eq!(player_lottery_count(&players, 0, 1001), 1);
    assert_eq!(player_achieve_done(&players, 0, "A1"), 0);
    assert_eq!(player_task_figure(&players, 0, 10, TaskFigure::Total), 10);
    assert_eq!(player_task_figure(&players, 0, 10, TaskFigure::Current), 3);
    assert_eq!(player_task_figure(&players, 0, 10, TaskFigure::Done), 0);
    assert_eq!(player_figure(&players, 99, PlayerFigure::Guid), 0);
    let ok = set_player_archive(&mut players, 0, false, "new_api_result".to_string(), "ok".to_string());
    let missing = set_player_archive(&mut players, 99, false, "new_api_result".to_string(), "bad".to_string());
    assert_eq!(ok, 0);
    assert_eq!(missing, 3);
    assert_eq!(player_archive_value(&players, 0, ArchiveKind::Common, "new_api_result"), "ok");
}

#[test]
fn read_archive_event_text_and_log_cut() {
    assert_eq!(rdata_text("k", "v"), "k\tv");
    assert_eq!(rdata_text("", ""), "\t");
    assert_eq!(truncate_log("héllo".to_string(), 3), "hé");
    assert_eq!(truncate_log("short".to_string(), 10), "short");
    assert_eq!(truncate_log("abc".to_string(), 3), "abc");
}

#[test]
fn played_time_of_an_empty_slot_is_zero() {
    let players = room();
    assert_eq!(player_played_time(&players, 42), 0);
    let t = player_played_time(&players, 0);
    assert!((0..5).contains(&t));
}

#[test]
fn ml_event_answers() {
    let players = room();
    assert_eq!(ml_event_answer(0, &players, 0), ERR_OK);
    assert_eq!(ml_event_answer(0, &players, -1), ERR_OK);
    assert_eq!(ml_event_answer(0, &players, 9), ERR_PLAYER_NOT_EXIST);
    assert_eq!(ml_event_answer(7, &players, 9), 7);
}
