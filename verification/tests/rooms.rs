use mls_sim::config::{
    build_players_from_config, build_room_simulation_from_config, default_archive_dir,
    default_host, default_players, default_port, default_true, AppConfig, AutoRoomConfig, Cli,
    PlayerAchievementConfig, PlayerActivityConfig, PlayerCommunityConfig, PlayerConfig,
    PlayerGuildConfig, PlayerPlatformConfig, PlayerSignInConfig, PlayerTaskConfig,
};
use mls_sim::player::{
    default_one, played_seconds, Player, PlayerActivityData, PlayerPlatformData, PlayerTaskData,
    PlayerTaskProgress,
};
use mls_sim::simulation::{
    default_unbound_player_index, player_rank_value, player_ranking, rank_player_name,
    rank_value, sort_ranking_entries, RankingEntry, RoomSimulationData,
};
use std::collections::HashMap;

fn entry(player_index: i32, name: &str, value: i32) -> RankingEntry {
    RankingEntry { player_index, player_name: name.to_string(), value }
}

fn bare_config(index: i32, name: &str) -> PlayerConfig {
    PlayerConfig {
        index,
        name: name.to_string(),
        items: HashMap::new(),
        map_level: None,
        map_exp: None,
        played_count: None,
        script_archive: None,
        common_archive: None,
        read_archive: None,
        cfg_archive: None,
        platform: None,
        activity: None,
        achievements: None,
        tasks: None,
        sign_in: None,
        community: None,
        guild: None,
    }
}

#[test]
fn new_player_has_slot_defaults() {
    let p = Player::new(0, String::new());
    assert_eq!(p.name, "Player_0");
    assert_eq!(p.map_level, 1);
    assert!(p.is_connected);
    assert_eq!(p.platform.guid, 1_000_000_000_000);
    assert_eq!(p.platform.plat_level, 30);
    assert_eq!(p.platform.vip_level, 1);
    assert_eq!(p.platform.map_vip_level, 1);
    assert_eq!(p.platform.vip_types.get(&6), Some(&1));
    assert_eq!(p.platform.is_author, 1);
    assert_eq!(p.platform.is_collected, 1);
    assert_eq!(p.platform.is_backflow, 0);
    assert_eq!(p.activity.day_rounds, 3);
    assert_eq!(p.activity.since_last_game, 3600);
    assert_eq!(p.activity.lottery_count(1001), 1);
    assert_eq!(p.achievements.point, 120);
    assert_eq!(p.achievements.done.get("A1"), None);
    let task = p.tasks.get(10);
    assert_eq!((task.total, task.current, task.done), (10, 3, 0));
    assert_eq!((p.sign_in.total, p.sign_in.cont_max, p.sign_in.cont_cur), (7, 5, 2));
    assert_eq!(p.community.has_topic, 1);
    assert_eq!(p.community.is_manager, 0);
    assert_eq!(p.community.topic_count, 2);
    assert_eq!(p.community.comment_count, 5);
    assert_eq!(p.community.happy_count, 20);
    assert_eq!(p.community.best_count, 1);
    assert_eq!(p.community.appraise_count, 10);
    assert_eq!(p.community.is_pinned, 1);
    assert_eq!(p.community.pet_adv_time, -1);
    assert_eq!(p.guild.level, 1);
    let q = Player::new(-7, "Ann".to_string());
    assert_eq!(q.name, "Ann");
    assert_eq!(Player::new(-7, String::new()).name, "Player_-7");
}

#[test]
fn platform_defaults_by_slot() {
    let d = PlayerPlatformData::default_for_index(3);
    assert_eq!(d.guid, 1_000_000_000_003);
    assert_eq!(d.vip_types.get(&6), Some(&0));
    assert_eq!(d.vip_types.len(), 1);
    assert_eq!(d.is_author, 0);
    assert_eq!(PlayerPlatformData::default().is_author, 1);
}

#[test]
fn recorded_figures_are_read() {
    let mut a = PlayerActivityData::default();
    a.lottery_counts.insert(5, 12);
    assert_eq!(a.lottery_count(5), 12);
    assert_eq!(a.lottery_count(6), 1);
    let mut t = PlayerTaskData::default();
    t.progress.insert(7, PlayerTaskProgress { total: 99, current: 44, done: 1 });
    assert_eq!(t.get(7).current, 44);
    assert_eq!(t.get(8).total, 10);
    assert_eq!(default_one(), 1);
    assert_eq!(default_unbound_player_index(), -1);
}

#[test]
fn played_seconds_truncates_and_saturates() {
    let s = 1_000_000_000u128;
    assert_eq!(played_seconds(10 * s, 10 * s), 0);
    assert_eq!(played_seconds(10 * s, 13 * s + s / 2), 3);
    assert_eq!(played_seconds(13 * s + s / 2, 10 * s), -3);
    assert_eq!(played_seconds(0, u128::MAX), i32::MAX);
    assert_eq!(played_seconds(u128::MAX, 0), i32::MIN);
    let p = Player::new(0, String::new());
    assert!(p.played_time() >= 0);
}

#[test]
fn ranking_entries_sort_by_value_then_index_then_name() {
    let mut v = vec![entry(2, "b", 5), entry(1, "z", 5), entry(3, "a", 9), entry(1, "y", 5), entry(0, "", -1)];
    sort_ranking_entries(&mut v);
    assert_eq!(v, vec![entry(3, "a", 9), entry(1, "y", 5), entry(1, "z", 5), entry(2, "b", 5), entry(0, "", -1)]);
    let again = v.clone();
    sort_ranking_entries(&mut v);
    assert_eq!(v, again);
    let mut names = vec![entry(1, "éa", 1), entry(1, "eb", 1), entry(1, "e", 1)];
    sort_ranking_entries(&mut names);
    let mut expected = names.clone();
    expected.sort_by(|a, b| a.player_name.cmp(&b.player_name));
    assert_eq!(names, expected);
}

fn two_players() -> HashMap<i32, Player> {
    let mut players = HashMap::new();
    let mut a = Player::new(0, "Ann".to_string());
    a.map_level = 3;
    a.map_exp = 40;
    a.played_count = 2;
    let mut b = Player::new(1, "Bob".to_string());
    b.map_level = 3;
    b.map_exp = -5;
    b.played_count = 100;
    players.insert(0, a);
    players.insert(1, b);
    players
}

#[test]
fn default_rankings_derive_from_players() {
    let players = two_players();
    let sim = RoomSimulationData::default_for_players(&players);
    assert_eq!(sim.map_version, "local-dev");
    assert_eq!(sim.env_type, -1);
    assert_eq!(sim.prebook_count, 128);
    assert!(sim.rankings_loaded);
    assert_eq!(sim.rankings.len(), 2);
    assert_eq!(sim.rankings[&-1], vec![entry(0, "Ann", 3), entry(1, "Bob", 3)]);
    assert_eq!(sim.rankings[&0], vec![entry(1, "Bob", 3100), entry(0, "Ann", 3042)]);
    let empty = RoomSimulationData::default();
    assert!(empty.rankings.is_empty());
    assert_eq!(empty.map_version, "local-dev");
}

#[test]
fn ranking_queries_for_default_room() {
    let mut players = HashMap::new();
    players.insert(0, Player::new(0, "Player_0".to_string()));
    let sim = RoomSimulationData::default_for_players(&players);
    assert_eq!(player_ranking(&sim, &players, 0, -1), 1);
    assert_eq!(player_rank_value(&sim, &players, 0, -1), 1);
    assert_eq!(rank_player_name(&sim, &players, -1, 1), "Player_0");
    assert_eq!(rank_value(&sim, -1, 1), 1);
    assert_eq!(rank_player_name(&sim, &players, -1, 101), "");
    assert_eq!(rank_value(&sim, -1, 101), 0);
    assert_eq!(rank_value(&sim, -1, 0), 0);
    assert_eq!(player_ranking(&sim, &players, 99, -1), 0);
    assert_eq!(player_rank_value(&sim, &players, 99, -1), 0);
    assert_eq!(player_ranking(&sim, &players, 0, 42), 0);
    assert_eq!(rank_player_name(&sim, &players, 42, 1), "");
}

#[test]
fn ranking_queries_with_configured_rankings() {
    let mut players = HashMap::new();
    players.insert(1, Player::new(1, "Bob".to_string()));
    let mut sim = RoomSimulationData::default_for_players(&players);
    sim.rankings.insert(5, vec![entry(7, "", 50), entry(1, "", 40), entry(1, "again", 30)]);
    assert_eq!(player_ranking(&sim, &players, 1, 5), 2);
    assert_eq!(player_rank_value(&sim, &players, 1, 5), 40);
    assert_eq!(rank_player_name(&sim, &players, 5, 1), "");
    assert_eq!(rank_player_name(&sim, &players, 5, 2), "Bob");
    assert_eq!(rank_player_name(&sim, &players, 5, 3), "again");
    assert_eq!(rank_player_name(&sim, &players, 5, 4), "");
    sim.rankings_loaded = false;
    assert_eq!(player_ranking(&sim, &players, 1, 5), -1);
    assert_eq!(player_rank_value(&sim, &players, 1, 5), -1);
    assert_eq!(rank_value(&sim, 5, 1), 50);
}

#[test]
fn sort_rankings_sorts_each_ranking() {
    let mut sim = RoomSimulationData::default();
    sim.rankings.insert(1, vec![entry(1, "a", 1), entry(2, "b", 2)]);
    sim.rankings.insert(2, vec![entry(5, "x", 0), entry(4, "y", 0)]);
    sim.sort_rankings();
    assert_eq!(sim.rankings[&1], vec![entry(2, "b", 2), entry(1, "a", 1)]);
    assert_eq!(sim.rankings[&2], vec![entry(4, "y", 0), entry(5, "x", 0)]);
    assert_eq!(sim.rankings.len(), 2);
}

#[test]
fn config_overrides_reach_players_and_simulation() {
    let player_config = PlayerConfig {
        index: 1,
        name: "Bob".to_string(),
        items: HashMap::new(),
        map_level: Some(9),
        map_exp: Some(50),
        played_count: Some(4),
        script_archive: None,
        common_archive: None,
        read_archive: None,
        cfg_archive: None,
        platform: Some(PlayerPlatformConfig {
            guid: Some(42),
            plat_level: Some(88),
            vip_level: Some(7),
            map_vip_level: Some(6),
            vip_types: Some(HashMap::from([(4, 3)])),
            is_author: Some(0),
            is_collected: Some(0),
            is_backflow: Some(1),
        }),
        activity: Some(PlayerActivityConfig {
            day_rounds: Some(11),
            since_last_game: Some(-1),
            lottery_counts: Some(HashMap::from([(5, 12)])),
        }),
        achievements: Some(PlayerAchievementConfig {
            point: Some(222),
            done: Some(HashMap::from([("ACH".to_string(), 1)])),
        }),
        tasks: Some(PlayerTaskConfig {
            progress: Some(HashMap::from([(7, PlayerTaskProgress { total: 99, current: 44, done: 1 })])),
        }),
        sign_in: Some(PlayerSignInConfig { total: Some(30), cont_max: Some(20), cont_cur: Some(8) }),
        community: Some(PlayerCommunityConfig {
            has_topic: Some(0),
            is_manager: Some(1),
            topic_count: Some(9),
            comment_count: Some(99),
            happy_count: Some(77),
            best_count: Some(6),
            appraise_count: Some(55),
            is_pinned: Some(0),
            pet_adv_time: Some(123456),
        }),
        guild: Some(PlayerGuildConfig { level: Some(5) }),
    };
    let room_config = AutoRoomConfig {
        script_dir: "D:/dummy".to_string(),
        mode_id: 0,
        map_version: Some("2.5.1".to_string()),
        env_type: Some(2),
        prebook_count: Some(456),
        rankings_loaded: Some(false),
        rankings: Some(HashMap::from([(0, vec![entry(1, "Bob", 999)])])),
        players: vec![player_config],
    };

    let players = build_players_from_config(&room_config.players);
    let simulation = build_room_simulation_from_config(Some(&room_config), &players);
    let player = players.get(&1).unwrap();

    assert_eq!(simulation.map_version, "2.5.1");
    assert_eq!(simulation.env_type, 2);
    assert_eq!(simulation.prebook_count, 456);
    assert!(!simulation.rankings_loaded);
    assert_eq!(simulation.rankings.get(&0).unwrap()[0].value, 999);
    assert_eq!(simulation.rankings.len(), 1);
    assert_eq!(player.platform.guid, 42);
    assert_eq!(player.platform.plat_level, 88);
    assert_eq!(player.platform.vip_types.get(&4), Some(&3));
    assert_eq!(player.activity.lottery_count(5), 12);
    assert_eq!(player.achievements.done.get("ACH"), Some(&1));
    assert_eq!(player.tasks.get(7).current, 44);
    assert_eq!(player.sign_in.total, 30);
    assert_eq!(player.community.pet_adv_time, 123456);
    assert_eq!(player.guild.level, 5);
    assert_eq!(player.map_level, 9);
    assert_eq!(player.map_exp, 50);
    assert_eq!(player.played_count, 4);
    assert_eq!(player_ranking(&simulation, &players, 1, 0), -1);
    assert_eq!(rank_player_name(&simulation, &players, 0, 1), "Bob");
    assert_eq!(rank_value(&simulation, 0, 1), 999);
}

#[test]
fn players_from_configs() {
    let none = build_players_from_config(&[]);
    assert_eq!(none.len(), 1);
    assert_eq!(none[&0].name, "Player_0");
    assert_eq!(none[&0].played_count, 0);

    let mut first = bare_config(2, "");
    first.map_level = Some(4);
    let mut second = bare_config(2, "Second");
    second.script_archive = Some("save".to_string());
    second.common_archive = Some(HashMap::from([("k".to_string(), "v".to_string())]));
    second.items = HashMap::from([("gold".to_string(), 10)]);
    let players = build_players_from_config(&[first, bare_config(5, ""), second]);
    assert_eq!(players.len(), 2);
    assert_eq!(players[&2].name, "Second");
    assert_eq!(players[&2].map_level, 1);
    assert_eq!(players[&2].script_archive.as_deref(), Some("save"));
    assert_eq!(players[&2].common_archive.get("k").map(|s| s.as_str()), Some("v"));
    assert_eq!(players[&2].items.get("gold"), Some(&10));
    assert_eq!(players[&5].name, "Player_5");
    assert_eq!(players[&5].platform.guid, 1_000_000_000_005);
}

#[test]
fn simulation_without_room_config_is_default() {
    let players = two_players();
    let sim = build_room_simulation_from_config(None, &players);
    assert_eq!(sim.map_version, "local-dev");
    assert_eq!(sim.rankings[&0], vec![entry(1, "Bob", 3100), entry(0, "Ann", 3042)]);
    let partial = AutoRoomConfig {
        script_dir: "s".to_string(),
        mode_id: 1,
        map_version: None,
        env_type: None,
        prebook_count: Some(3),
        rankings_loaded: None,
        rankings: None,
        players: default_players(),
    };
    let sim = build_room_simulation_from_config(Some(&partial), &players);
    assert_eq!(sim.prebook_count, 3);
    assert_eq!(sim.env_type, -1);
    assert!(sim.rankings_loaded);
    assert_eq!(sim.rankings[&-1], vec![entry(0, "Ann", 3), entry(1, "Bob", 3)]);
}

#[test]
fn app_config_defaults_and_command_line() {
    let config = AppConfig::default();
    assert_eq!(config.host, "127.0.0.1");
    assert_eq!(config.port, 5000);
    assert!(config.auto_open_browser);
    assert_eq!(config.archive_dir, "./archives");
    assert!(config.auto_room.is_none());
    assert_eq!(default_host(), "127.0.0.1");
    assert_eq!(default_port(), 5000);
    assert!(default_true());
    assert_eq!(default_archive_dir(), "./archives");
    let players = default_players();
    assert_eq!(players.len(), 1);
    assert_eq!(players[0].name, "Player_0");

    let cli = Cli { host: "127.0.0.1".into(), port: 5000, script_dir: None, config: "config.json".into(), console_notwrte: false };
    let mut file = AppConfig::default();
    file.host = "0.0.0.0".into();
    file.port = 6000;
    let kept = file.clone().with_cli_overrides(&cli);
    assert_eq!(kept.host, "0.0.0.0");
    assert_eq!(kept.port, 6000);
    assert!(kept.auto_room.is_none());

    let cli = Cli { host: "10.0.0.1".into(), port: 7000, script_dir: Some("D:/s".into()), config: "c.json".into(), console_notwrte: true };
    let over = file.with_cli_overrides(&cli);
    assert_eq!(over.host, "10.0.0.1");
    assert_eq!(over.port, 7000);
    let room = over.auto_room.unwrap();
    assert_eq!(room.script_dir, "D:/s");
    assert_eq!(room.mode_id, 0);
    assert_eq!(room.players.len(), 1);
    assert_eq!(room.players[0].index, 0);
}

#[test]
fn built_simulation_lays_config_over_defaults() {
    let players = two_players();
    let defaults = RoomSimulationData::default_for_players(&players);
    let none = build_room_simulation_from_config(None, &players);
    assert_eq!(none.map_version, defaults.map_version);
    assert_eq!(none.env_type, defaults.env_type);
    assert_eq!(none.prebook_count, defaults.prebook_count);
    assert_eq!(none.rankings_loaded, defaults.rankings_loaded);
    assert_eq!(none.rankings, defaults.rankings);

    let raw = vec![entry(3, "c", 5), entry(1, "a", 9), entry(2, "b", 5)];
    let mut sorted = raw.clone();
    sort_ranking_entries(&mut sorted);
    let config = AutoRoomConfig {
        script_dir: "s".to_string(),
        mode_id: 0,
        map_version: Some("2.0".to_string()),
        env_type: None,
        prebook_count: None,
        rankings_loaded: Some(false),
        rankings: Some(HashMap::from([(7, raw)])),
        players: default_players(),
    };
    let built = build_room_simulation_from_config(Some(&config), &players);
    assert_eq!(built.map_version, "2.0");
    assert_eq!(built.env_type, defaults.env_type);
    assert_eq!(built.prebook_count, defaults.prebook_count);
    assert!(!built.rankings_loaded);
    assert_eq!(built.rankings.len(), 1);
    assert_eq!(built.rankings[&7], sorted);
    assert_eq!(sorted, vec![entry(1, "a", 9), entry(2, "b", 5), entry(3, "c", 5)]);
}
