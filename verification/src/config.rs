//! Start-up configuration: command-line options, the configuration file's contents, and
//! how a room's players and simulated platform data are built from them.
use std::collections::HashMap;
use vstd::prelude::*;
use vstd::string::*;
use crate::player::{
    default_community, default_platform_for, default_player_name, is_new_player, Player,
    PlayerAchievementData, PlayerActivityData, PlayerCommunityData, PlayerGuildData,
    PlayerPlatformData, PlayerSignInData, PlayerTaskData, PlayerTaskProgress,
};
use crate::simulation::{
    entry_views, has_derived_rankings, is_default_for_players, lemma_derived_ranking_unique,
    lemma_sorted_lines, metric_fits, ranking_sorted_from, rankings_sorted_from, rankings_view,
    sorted_lines, RankingEntry, RankingMetric,
    RoomSimulationData,
};
use crate::text::str_eq;

verus! {

broadcast use vstd::std_specs::hash::group_hash_axioms;

/// Command-line options.
#[derive(Debug)]
pub struct Cli {
    pub host: String,
    pub port: u16,
    pub script_dir: Option<String>,
    pub config: String,
    pub console_notwrte: bool,
}

/// A room to create at start-up.
#[derive(Debug, Clone)]
pub struct AutoRoomConfig {
    pub script_dir: String,
    pub mode_id: i32,
    pub map_version: Option<String>,
    pub env_type: Option<i32>,
    pub prebook_count: Option<i32>,
    pub rankings_loaded: Option<bool>,
    pub rankings: Option<HashMap<i32, Vec<RankingEntry>>>,
    pub players: Vec<PlayerConfig>,
}

/// A configured player; what is left out keeps the simulator's default.
#[derive(Debug, Clone)]
pub struct PlayerConfig {
    pub index: i32,
    pub name: String,
    pub items: HashMap<String, i32>,
    pub map_level: Option<i32>,
    pub map_exp: Option<i32>,
    pub played_count: Option<i32>,
    pub script_archive: Option<String>,
    pub common_archive: Option<HashMap<String, String>>,
    pub read_archive: Option<HashMap<String, String>>,
    pub cfg_archive: Option<HashMap<String, String>>,
    pub platform: Option<PlayerPlatformConfig>,
    pub activity: Option<PlayerActivityConfig>,
    pub achievements: Option<PlayerAchievementConfig>,
    pub tasks: Option<PlayerTaskConfig>,
    pub sign_in: Option<PlayerSignInConfig>,
    pub community: Option<PlayerCommunityConfig>,
    pub guild: Option<PlayerGuildConfig>,
}

/// Configured platform profile.
#[derive(Debug, Clone)]
pub struct PlayerPlatformConfig {
    pub guid: Option<i64>,
    pub plat_level: Option<i32>,
    pub vip_level: Option<i32>,
    pub map_vip_level: Option<i32>,
    pub vip_types: Option<HashMap<i32, i32>>,
    pub is_author: Option<i32>,
    pub is_collected: Option<i32>,
    pub is_backflow: Option<i32>,
}

impl Default for PlayerPlatformConfig {
    fn default() -> (res: Self)
        ensures
            res.guid is None && res.plat_level is None && res.vip_level is None
                && res.map_vip_level is None && res.vip_types is None && res.is_author is None
                && res.is_collected is None && res.is_backflow is None,
    {
        PlayerPlatformConfig {
            guid: None,
            plat_level: None,
            vip_level: None,
            map_vip_level: None,
            vip_types: None,
            is_author: None,
            is_collected: None,
            is_backflow: None,
        }
    }
}

/// Configured activity figures.
#[derive(Debug, Clone)]
pub struct PlayerActivityConfig {
    pub day_rounds: Option<i32>,
    pub since_last_game: Option<i32>,
    pub lottery_counts: Option<HashMap<i32, i32>>,
}

impl Default for PlayerActivityConfig {
    fn default() -> (res: Self)
        ensures
            res.day_rounds is None && res.since_last_game is None && res.lottery_counts is None,
    {
        PlayerActivityConfig { day_rounds: None, since_last_game: None, lottery_counts: None }
    }
}

/// Configured achievement figures.
#[derive(Debug, Clone)]
pub struct PlayerAchievementConfig {
    pub point: Option<i32>,
    pub done: Option<HashMap<String, i32>>,
}

impl Default for PlayerAchievementConfig {
    fn default() -> (res: Self)
        ensures
            res.point is None && res.done is None,
    {
        PlayerAchievementConfig { point: None, done: None }
    }
}

/// Configured task progress.
#[derive(Debug, Clone)]
pub struct PlayerTaskConfig {
    pub progress: Option<HashMap<i32, PlayerTaskProgress>>,
}

impl Default for PlayerTaskConfig {
    fn default() -> (res: Self)
        ensures
            res.progress is None,
    {
        PlayerTaskConfig { progress: None }
    }
}

/// Configured sign-in figures.
#[derive(Debug, Clone)]
pub struct PlayerSignInConfig {
    pub total: Option<i32>,
    pub cont_max: Option<i32>,
    pub cont_cur: Option<i32>,
}

impl Default for PlayerSignInConfig {
    fn default() -> (res: Self)
        ensures
            res == (PlayerSignInConfig { total: None, cont_max: None, cont_cur: None }),
    {
        PlayerSignInConfig { total: None, cont_max: None, cont_cur: None }
    }
}

/// Configured community figures.
#[derive(Debug, Clone)]
pub struct PlayerCommunityConfig {
    pub has_topic: Option<i32>,
    pub is_manager: Option<i32>,
    pub topic_count: Option<i32>,
    pub comment_count: Option<i32>,
    pub happy_count: Option<i32>,
    pub best_count: Option<i32>,
    pub appraise_count: Option<i32>,
    pub is_pinned: Option<i32>,
    pub pet_adv_time: Option<i64>,
}

impl Default for PlayerCommunityConfig {
    fn default() -> (res: Self)
        ensures
            res == (PlayerCommunityConfig {
                has_topic: None,
                is_manager: None,
                topic_count: None,
                comment_count: None,
                happy_count: None,
                best_count: None,
                appraise_count: None,
                is_pinned: None,
                pet_adv_time: None,
            }),
    {
        PlayerCommunityConfig {
            has_topic: None,
            is_manager: None,
            topic_count: None,
            comment_count: None,
            happy_count: None,
            best_count: None,
            appraise_count: None,
            is_pinned: None,
            pet_adv_time: None,
        }
    }
}

/// Configured guild figures.
#[derive(Debug, Clone)]
pub struct PlayerGuildConfig {
    pub level: Option<i32>,
}

impl Default for PlayerGuildConfig {
    fn default() -> (res: Self)
        ensures
            res == (PlayerGuildConfig { level: None }),
    {
        PlayerGuildConfig { level: None }
    }
}

/// The configured value, or `cur` when none is configured.
pub open spec fn or_keep<T>(o: Option<T>, cur: T) -> T {
    match o {
        Some(v) => v,
        None => cur,
    }
}

/// The view of a configured map, or `cur` when none is configured.
pub open spec fn map_or_keep<K, V>(o: Option<HashMap<K, V>>, cur: Map<K, V>) -> Map<K, V> {
    match o {
        Some(m) => m@,
        None => cur,
    }
}

/// Whether `c` describes the one default player: slot 0, named `Player_0`, nothing else
/// configured.
pub open spec fn is_default_player_config(c: PlayerConfig) -> bool {
    &&& c.index == 0
    &&& c.name@ == "Player_0"@
    &&& c.items@ == Map::<String, i32>::empty()
    &&& c.map_level is None
    &&& c.map_exp is None
    &&& c.played_count is None
    &&& c.script_archive is None
    &&& c.common_archive is None
    &&& c.read_archive is None
    &&& c.cfg_archive is None
    &&& c.platform is None
    &&& c.activity is None
    &&& c.achievements is None
    &&& c.tasks is None
    &&& c.sign_in is None
    &&& c.community is None
    &&& c.guild is None
}

fn default_player_config() -> (res: PlayerConfig)
    ensures
        is_default_player_config(res),
{
    PlayerConfig {
        index: 0,
        name: String::from_str("Player_0"),
        items: HashMap::new(),
        map_level: None,
        map_exp: None,
        played_count: None,
        script_archive: None,
        common_archive: None,
        read_archive: None,
        cfg_archive: None,
        platform: None,
        activity: None,
        achievements: None,
        tasks: None,
        sign_in: None,
        community: None,
        guild: None,
    }
}

/// The players of a configured room that names none: one default player.
pub fn default_players() -> (res: Vec<PlayerConfig>)
    ensures
        res@.len() == 1,
        is_default_player_config(res@[0]),
{
    let mut v: Vec<PlayerConfig> = Vec::new();
    v.push(default_player_config());
    v
}

/// The default listening address.
pub fn default_host() -> (res: String)
    ensures
        res@ == "127.0.0.1"@,
{
    String::from_str("127.0.0.1")
}

/// The default listening port.
pub fn default_port() -> (res: u16)
    ensures
        res == 5000,
{
    5000
}

/// The default of a flag that is on unless configured off.
pub fn default_true() -> (res: bool)
    ensures
        res,
{
    true
}

/// The default directory of saved archives.
pub fn default_archive_dir() -> (res: String)
    ensures
        res@ == "./archives"@,
{
    String::from_str("./archives")
}

/// The simulator's configuration.
#[derive(Debug, Clone)]
pub struct AppConfig {
    pub host: String,
    pub port: u16,
    pub auto_open_browser: bool,
    pub archive_dir: String,
    pub auto_room: Option<AutoRoomConfig>,
}

impl Default for AppConfig {
    fn default() -> (res: Self)
        ensures
            res.host@ == "127.0.0.1"@,
            res.port == 5000,
            res.auto_open_browser,
            res.archive_dir@ == "./archives"@,
            res.auto_room is None,
    {
        AppConfig {
            host: default_host(),
            port: default_port(),
            auto_open_browser: true,
            archive_dir: default_archive_dir(),
            auto_room: None,
        }
    }
}

/// Whether `r` is the room that a script directory given on the command line starts:
/// mode 0, nothing else configured, one default player.
pub open spec fn is_command_line_room(r: AutoRoomConfig, script_dir: Seq<char>) -> bool {
    &&& r.script_dir@ == script_dir
    &&& r.mode_id == 0
    &&& r.map_version is None
    &&& r.env_type is None
    &&& r.prebook_count is None
    &&& r.rankings_loaded is None
    &&& r.rankings is None
    &&& r.players@.len() == 1
    &&& is_default_player_config(r.players@[0])
}

/// Whether `res` is `config` with the command line's options laid over it: a host other
/// than `127.0.0.1` and a port other than 5000 replace the configured ones, and a script
/// directory replaces the configured room with one for that directory.
pub open spec fn overridden_by_cli(res: AppConfig, config: AppConfig, cli: Cli) -> bool {
    &&& res.host@ == (if cli.host@ != "127.0.0.1"@ {
        cli.host@
    } else {
        config.host@
    })
    &&& res.port == (if cli.port != 5000 {
        cli.port
    } else {
        config.port
    })
    &&& res.auto_open_browser == config.auto_open_browser
    &&& res.archive_dir == config.archive_dir
    &&& match cli.script_dir {
        Some(sd) => res.auto_room is Some && is_command_line_room(res.auto_room->Some_0, sd@),
        None => res.auto_room == config.auto_room,
    }
}

impl AppConfig {
    /// The configuration with the command line's options laid over it: a host other than
    /// `127.0.0.1` and a port other than 5000 replace the configured ones, and a script
    /// directory replaces the configured room with one for that directory.
    pub fn with_cli_overrides(self, cli: &Cli) -> (res: Self)
        ensures
            overridden_by_cli(res, self, *cli),
    {
        let mut config = self;
        if !str_eq(cli.host.as_str(), "127.0.0.1") {
            config.host = cli.host.clone();
        }
        if cli.port != 5000 {
            config.port = cli.port;
        }
        if let Some(sd) = &cli.script_dir {
            config.auto_room = Some(
                AutoRoomConfig {
                    script_dir: sd.clone(),
                    mode_id: 0,
                    map_version: None,
                    env_type: None,
                    prebook_count: None,
                    rankings_loaded: None,
                    rankings: None,
                    players: default_players(),
                },
            );
        }
        config
    }
}

/// Whether `new` is `old` with the configured platform figures laid over it.
pub open spec fn platform_applied(
    new: PlayerPlatformData,
    old: PlayerPlatformData,
    c: PlayerPlatformConfig,
) -> bool {
    &&& new.guid == or_keep(c.guid, old.guid)
    &&& new.plat_level == or_keep(c.plat_level, old.plat_level)
    &&& new.vip_level == or_keep(c.vip_level, old.vip_level)
    &&& new.map_vip_level == or_keep(c.map_vip_level, old.map_vip_level)
    &&& new.vip_types@ == map_or_keep(c.vip_types, old.vip_types@)
    &&& new.is_author == or_keep(c.is_author, old.is_author)
    &&& new.is_collected == or_keep(c.is_collected, old.is_collected)
    &&& new.is_backflow == or_keep(c.is_backflow, old.is_backflow)
}

/// Lays the configured platform figures over a player's profile.
pub fn apply_platform_config(data: &mut PlayerPlatformData, config: &PlayerPlatformConfig)
    ensures
        platform_applied(*final(data), *old(data), *config),
{
    if let Some(v) = config.guid {
        data.guid = v;
    }
    if let Some(v) = config.plat_level {
        data.plat_level = v;
    }
    if let Some(v) = config.vip_level {
        data.vip_level = v;
    }
    if let Some(v) = config.map_vip_level {
        data.map_vip_level = v;
    }
    if let Some(v) = &config.vip_types {
        data.vip_types = v.clone();
    }
    if let Some(v) = config.is_author {
        data.is_author = v;
    }
    if let Some(v) = config.is_collected {
        data.is_collected = v;
    }
    if let Some(v) = config.is_backflow {
        data.is_backflow = v;
    }
}

/// Whether `new` is `old` with the configured activity figures laid over it.
pub open spec fn activity_applied(
    new: PlayerActivityData,
    old: PlayerActivityData,
    c: PlayerActivityConfig,
) -> bool {
    &&& new.day_rounds == or_keep(c.day_rounds, old.day_rounds)
    &&& new.since_last_game == or_keep(c.since_last_game, old.since_last_game)
    &&& new.lottery_counts@ == map_or_keep(c.lottery_counts, old.lottery_counts@)
}

/// Lays the configured activity figures over a player's.
pub fn apply_activity_config(data: &mut PlayerActivityData, config: &PlayerActivityConfig)
    ensures
        activity_applied(*final(data), *old(data), *config),
{
    if let Some(v) = config.day_rounds {
        data.day_rounds = v;
    }
    if let Some(v) = config.since_last_game {
        data.since_last_game = v;
    }
    if let Some(v) = &config.lottery_counts {
        data.lottery_counts = v.clone();
    }
}

/// Whether `new` is `old` with the configured achievement figures laid over it.
pub open spec fn achievement_applied(
    new: PlayerAchievementData,
    old: PlayerAchievementData,
    c: PlayerAchievementConfig,
) -> bool {
    &&& new.point == or_keep(c.point, old.point)
    &&& new.done@ == map_or_keep(c.done, old.done@)
}

/// Lays the configured achievement figures over a player's.
pub fn apply_achievement_config(data: &mut PlayerAchievementData, config: &PlayerAchievementConfig)
    ensures
        achievement_applied(*final(data), *old(data), *config),
{
    if let Some(v) = config.point {
        data.point = v;
    }
    if let Some(v) = &config.done {
        data.done = v.clone();
    }
}

/// Replaces a player's task progress by the configured one, when there is one.
pub fn apply_task_config(data: &mut PlayerTaskData, config: &PlayerTaskConfig)
    ensures
        final(data).progress@ == map_or_keep(config.progress, old(data).progress@),
{
    if let Some(v) = &config.progress {
        data.progress = v.clone();
    }
}

/// Whether `new` is `old` with the configured sign-in figures laid over it.
pub open spec fn sign_in_applied(
    new: PlayerSignInData,
    old: PlayerSignInData,
    c: PlayerSignInConfig,
) -> bool {
    &&& new.total == or_keep(c.total, old.total)
    &&& new.cont_max == or_keep(c.cont_max, old.cont_max)
    &&& new.cont_cur == or_keep(c.cont_cur, old.cont_cur)
}

/// Lays the configured sign-in figures over a player's.
pub fn apply_sign_in_config(data: &mut PlayerSignInData, config: &PlayerSignInConfig)
    ensures
        sign_in_applied(*final(data), *old(data), *config),
{
    if let Some(v) = config.total {
        data.total = v;
    }
    if let Some(v) = config.cont_max {
        data.cont_max = v;
    }
    if let Some(v) = config.cont_cur {
        data.cont_cur = v;
    }
}

/// `old` with the configured community figures laid over it.
pub open spec fn community_applied(
    old: PlayerCommunityData,
    c: PlayerCommunityConfig,
) -> PlayerCommunityData {
    PlayerCommunityData {
        has_topic: or_keep(c.has_topic, old.has_topic),
        is_manager: or_keep(c.is_manager, old.is_manager),
        topic_count: or_keep(c.topic_count, old.topic_count),
        comment_count: or_keep(c.comment_count, old.comment_count),
        happy_count: or_keep(c.happy_count, old.happy_count),
        best_count: or_keep(c.best_count, old.best_count),
        appraise_count: or_keep(c.appraise_count, old.appraise_count),
        is_pinned: or_keep(c.is_pinned, old.is_pinned),
        pet_adv_time: or_keep(c.pet_adv_time, old.pet_adv_time),
    }
}

/// Lays the configured community figures over a player's.
pub fn apply_community_config(data: &mut PlayerCommunityData, config: &PlayerCommunityConfig)
    ensures
        *final(data) == community_applied(*old(data), *config),
{
    if let Some(v) = config.has_topic {
        data.has_topic = v;
    }
    if let Some(v) = config.is_manager {
        data.is_manager = v;
    }
    if let Some(v) = config.topic_count {
        data.topic_count = v;
    }
    if let Some(v) = config.comment_count {
        data.comment_count = v;
    }
    if let Some(v) = config.happy_count {
        data.happy_count = v;
    }
    if let Some(v) = config.best_count {
        data.best_count = v;
    }
    if let Some(v) = config.appraise_count {
        data.appraise_count = v;
    }
    if let Some(v) = config.is_pinned {
        data.is_pinned = v;
    }
    if let Some(v) = config.pet_adv_time {
        data.pet_adv_time = v;
    }
}

/// Lays the configured guild level over a player's.
pub fn apply_guild_config(data: &mut PlayerGuildData, config: &PlayerGuildConfig)
    ensures
        final(data).level == or_keep(config.level, old(data).level),
{
    if let Some(v) = config.level {
        data.level = v;
    }
}

/// Platform profile of the player in slot `index` after configuration `c`.
pub open spec fn platform_configured(
    d: PlayerPlatformData,
    index: i32,
    c: Option<PlayerPlatformConfig>,
) -> bool {
    match c {
        None => default_platform_for(d, index),
        Some(pc) => {
            &&& d.guid == or_keep(pc.guid, (1_000_000_000_000 + index) as i64)
            &&& d.plat_level == or_keep(pc.plat_level, 30)
            &&& d.vip_level == or_keep(pc.vip_level, 1)
            &&& d.map_vip_level == or_keep(pc.map_vip_level, 1)
            &&& d.vip_types@ == map_or_keep(
                pc.vip_types,
                map![6i32 => if index == 0 { 1i32 } else { 0i32 }],
            )
            &&& d.is_author == or_keep(pc.is_author, if index == 0 { 1i32 } else { 0i32 })
            &&& d.is_collected == or_keep(pc.is_collected, 1)
            &&& d.is_backflow == or_keep(pc.is_backflow, 0)
        },
    }
}

/// Activity figures after configuration `c`.
pub open spec fn activity_configured(d: PlayerActivityData, c: Option<PlayerActivityConfig>) -> bool {
    match c {
        None => d.day_rounds == 3 && d.since_last_game == 3600 && d.lottery_counts@ == Map::<
            i32,
            i32,
        >::empty(),
        Some(ac) => {
            &&& d.day_rounds == or_keep(ac.day_rounds, 3)
            &&& d.since_last_game == or_keep(ac.since_last_game, 3600)
            &&& d.lottery_counts@ == map_or_keep(ac.lottery_counts, Map::<i32, i32>::empty())
        },
    }
}

/// Achievement figures after configuration `c`.
pub open spec fn achievements_configured(
    d: PlayerAchievementData,
    c: Option<PlayerAchievementConfig>,
) -> bool {
    match c {
        None => d.point == 120 && d.done@ == Map::<String, i32>::empty(),
        Some(ac) => d.point == or_keep(ac.point, 120) && d.done@ == map_or_keep(
            ac.done,
            Map::<String, i32>::empty(),
        ),
    }
}

/// Task progress after configuration `c`.
pub open spec fn tasks_configured(d: PlayerTaskData, c: Option<PlayerTaskConfig>) -> bool {
    match c {
        None => d.progress@ == Map::<i32, PlayerTaskProgress>::empty(),
        Some(tc) => d.progress@ == map_or_keep(tc.progress, Map::<i32, PlayerTaskProgress>::empty()),
    }
}

/// Sign-in figures after configuration `c`.
pub open spec fn sign_in_configured(c: Option<PlayerSignInConfig>) -> PlayerSignInData {
    match c {
        None => PlayerSignInData { total: 7, cont_max: 5, cont_cur: 2 },
        Some(sc) => PlayerSignInData {
            total: or_keep(sc.total, 7),
            cont_max: or_keep(sc.cont_max, 5),
            cont_cur: or_keep(sc.cont_cur, 2),
        },
    }
}

/// Community figures after configuration `c`.
pub open spec fn community_configured(c: Option<PlayerCommunityConfig>) -> PlayerCommunityData {
    match c {
        None => default_community(),
        Some(cc) => community_applied(default_community(), cc),
    }
}

/// Guild figures after configuration `c`.
pub open spec fn guild_configured(c: Option<PlayerGuildConfig>) -> PlayerGuildData {
    match c {
        None => PlayerGuildData { level: 1 },
        Some(gc) => PlayerGuildData { level: or_keep(gc.level, 1) },
    }
}

/// Whether `p` is the player that configuration `c` describes: a new player of slot
/// `c.index` (see `is_new_player`) with every configured figure laid over it.
pub open spec fn player_from_config(p: Player, c: PlayerConfig) -> bool {
    &&& p.index == c.index
    &&& p.name@ == (if c.name@.len() == 0 {
        default_player_name(c.index)
    } else {
        c.name@
    })
    &&& p.map_level == or_keep(c.map_level, 1)
    &&& p.map_exp == or_keep(c.map_exp, 0)
    &&& p.played_count == or_keep(c.played_count, 0)
    &&& p.test_play_time == 0
    &&& p.is_connected
    &&& p.items@ == c.items@
    &&& match c.script_archive {
        Some(a) => p.script_archive is Some && p.script_archive->Some_0@ == a@,
        None => p.script_archive is None,
    }
    &&& p.common_archive@ == map_or_keep(c.common_archive, Map::<String, String>::empty())
    &&& p.read_archive@ == map_or_keep(c.read_archive, Map::<String, String>::empty())
    &&& p.cfg_archive@ == map_or_keep(c.cfg_archive, Map::<String, String>::empty())
    &&& platform_configured(p.platform, c.index, c.platform)
    &&& activity_configured(p.activity, c.activity)
    &&& achievements_configured(p.achievements, c.achievements)
    &&& tasks_configured(p.tasks, c.tasks)
    &&& p.sign_in == sign_in_configured(c.sign_in)
    &&& p.community == community_configured(c.community)
    &&& p.guild == guild_configured(c.guild)
}

/// Lays the configured platform, activity, achievement, task, sign-in, community and
/// guild figures over a player; nothing else of the player changes.
pub fn apply_player_simulation_config(player: &mut Player, config: &PlayerConfig)
    ensures
        *final(player) == (Player {
            platform: final(player).platform,
            activity: final(player).activity,
            achievements: final(player).achievements,
            tasks: final(player).tasks,
            sign_in: final(player).sign_in,
            community: final(player).community,
            guild: final(player).guild,
            ..*old(player)
        }),
        match config.platform {
            Some(c) => platform_applied(final(player).platform, old(player).platform, c),
            None => final(player).platform == old(player).platform,
        },
        match config.activity {
            Some(c) => activity_applied(final(player).activity, old(player).activity, c),
            None => final(player).activity == old(player).activity,
        },
        match config.achievements {
            Some(c) => achievement_applied(final(player).achievements, old(player).achievements, c),
            None => final(player).achievements == old(player).achievements,
        },
        match config.tasks {
            Some(c) => final(player).tasks.progress@ == map_or_keep(
                c.progress,
                old(player).tasks.progress@,
            ),
            None => final(player).tasks == old(player).tasks,
        },
        match config.sign_in {
            Some(c) => sign_in_applied(final(player).sign_in, old(player).sign_in, c),
            None => final(player).sign_in == old(player).sign_in,
        },
        final(player).community == match config.community {
            Some(c) => community_applied(old(player).community, c),
            None => old(player).community,
        },
        final(player).guild.level == or_keep(
            match config.guild {
                Some(c) => c.level,
                None => None,
            },
            old(player).guild.level,
        ),
{
    if let Some(v) = &config.platform {
        apply_platform_config(&mut player.platform, v);
    }
    if let Some(v) = &config.activity {
        apply_activity_config(&mut player.activity, v);
    }
    if let Some(v) = &config.achievements {
        apply_achievement_config(&mut player.achievements, v);
    }
    if let Some(v) = &config.tasks {
        apply_task_config(&mut player.tasks, v);
    }
    if let Some(v) = &config.sign_in {
        apply_sign_in_config(&mut player.sign_in, v);
    }
    if let Some(v) = &config.community {
        apply_community_config(&mut player.community, v);
    }
    if let Some(v) = &config.guild {
        apply_guild_config(&mut player.guild, v);
    }
}

/// The player that a configuration describes.
fn player_from(pc: &PlayerConfig) -> (p: Player)
    ensures
        player_from_config(p, *pc),
{
    let mut p = Player::new(pc.index, pc.name.clone());
    if !pc.items.is_empty() {
        p.items = pc.items.clone();
    } else {
        assert(pc.items@ =~= Map::<String, i32>::empty());
    }
    if let Some(v) = pc.map_level {
        p.map_level = v;
    }
    if let Some(v) = pc.map_exp {
        p.map_exp = v;
    }
    if let Some(v) = pc.played_count {
        p.played_count = v;
    }
    if let Some(v) = &pc.script_archive {
        p.script_archive = Some(v.clone());
    }
    if let Some(v) = &pc.common_archive {
        p.common_archive = v.clone();
    }
    if let Some(v) = &pc.read_archive {
        p.read_archive = v.clone();
    }
    if let Some(v) = &pc.cfg_archive {
        p.cfg_archive = v.clone();
    }
    apply_player_simulation_config(&mut p, pc);
    p
}

/// What a player's configuration leaves out keeps the simulator's default: a
/// configuration that gives only a slot and a name describes a new player.
pub proof fn lemma_unconfigured_player_is_new(p: Player, c: PlayerConfig)
    requires
        player_from_config(p, c),
        c.items@ == Map::<String, i32>::empty(),
        c.map_level is None,
        c.map_exp is None,
        c.played_count is None,
        c.script_archive is None,
        c.common_archive is None,
        c.read_archive is None,
        c.cfg_archive is None,
        c.platform is None,
        c.activity is None,
        c.achievements is None,
        c.tasks is None,
        c.sign_in is None,
        c.community is None,
        c.guild is None,
    ensures
        is_new_player(p, c.index, c.name@),
{
}

/// The command line's defaults leave the configuration as it is.
pub proof fn lemma_default_cli_keeps_config(config: AppConfig, res: AppConfig, cli: Cli)
    requires
        cli.host@ == "127.0.0.1"@,
        cli.port == 5000,
        cli.script_dir is None,
        overridden_by_cli(res, config, cli),
    ensures
        res.host@ == config.host@,
        res.port == config.port,
        res.auto_open_browser == config.auto_open_browser,
        res.archive_dir == config.archive_dir,
        res.auto_room == config.auto_room,
{
}

/// The indices of the configurations `configs[..n]`.
pub open spec fn config_indices(configs: Seq<PlayerConfig>, n: int) -> Set<i32> {
    configs.take(n).map_values(|c: PlayerConfig| c.index).to_set()
}

/// Whether `configs[j]` is the last of `configs[..n]` for slot `k`.
pub open spec fn last_config_for(configs: Seq<PlayerConfig>, n: int, k: i32, j: int) -> bool {
    &&& 0 <= j < n
    &&& configs[j].index == k
    &&& forall|l: int| j < l < n ==> (#[trigger] configs[l]).index != k
}

/// Whether `players` holds, for each slot named in `configs[..n]`, the player that the
/// last configuration of that slot describes, and nothing else.
pub open spec fn built_from(players: Map<i32, Player>, configs: Seq<PlayerConfig>, n: int) -> bool {
    &&& players.dom() == config_indices(configs, n)
    &&& forall|k: i32|
        #[trigger] players.contains_key(k) ==> exists|j: int|
            last_config_for(configs, n, k, j) && player_from_config(players[k], #[trigger] configs[j])
}

/// The players of a room, by slot, built from their configurations; a later
/// configuration of a slot replaces an earlier one. With no configuration the room has
/// one new player, `Player_0` in slot 0.
pub fn build_players_from_config(configs: &[PlayerConfig]) -> (res: HashMap<i32, Player>)
    ensures
        configs@.len() == 0 ==> res@.dom() == set![0i32] && is_new_player(
            res@[0i32],
            0,
            "Player_0"@,
        ),
        configs@.len() > 0 ==> built_from(res@, configs@, configs@.len() as int),
{
    let mut players: HashMap<i32, Player> = HashMap::new();
    if configs.len() == 0 {
        let mut c = default_player_config();
        c.played_count = Some(0);
        let p = player_from(&c);
        players.insert(0, p);
        assert(players@.dom() =~= set![0i32]);
        return players;
    }
    let mut i: usize = 0;
    assert(config_indices(configs@, 0) =~= Set::<i32>::empty());
    while i < configs.len()
        invariant
            i <= configs@.len(),
            built_from(players@, configs@, i as int),
        decreases configs@.len() - i,
    {
        let pc = &configs[i];
        let p = player_from(pc);
        let ghost before = players@;
        let k = pc.index;
        players.insert(k, p);
        assert(configs@.take(i + 1) =~= configs@.take(i as int).push(configs@[i as int]));
        assert(configs@.take(i + 1).map_values(|c: PlayerConfig| c.index) =~= configs@.take(
            i as int,
        ).map_values(|c: PlayerConfig| c.index).push(k));
        proof {
            configs@.take(i as int).map_values(|c: PlayerConfig| c.index).lemma_push_to_set_commute(
                k,
            );
        }
        assert(config_indices(configs@, i + 1) =~= config_indices(configs@, i as int).insert(k));
        assert forall|k2: i32| #[trigger] players@.contains_key(k2) implies exists|j: int|
            last_config_for(configs@, i + 1, k2, j) && player_from_config(
                players@[k2],
                #[trigger] configs@[j],
            ) by {
            if k2 == k {
                assert(last_config_for(configs@, i + 1, k2, i as int));
            } else {
                let j = choose|j: int|
                    last_config_for(configs@, i as int, k2, j) && player_from_config(
                        before[k2],
                        #[trigger] configs@[j],
                    );
                assert(last_config_for(configs@, i + 1, k2, j));
            }
        }
        assert(players@.dom() =~= config_indices(configs@, i + 1));
        i = i + 1;
    }
    players
}

/// The configuration behind an optional reference to it.
pub open spec fn config_of(config: Option<&AutoRoomConfig>) -> Option<AutoRoomConfig> {
    match config {
        Some(c) => Some(*c),
        None => None,
    }
}

/// Whether `res` is the room data built for `players` from `config`: the defaults where
/// there is no configuration; else the configured version, environment type, prebook
/// count and loaded flag over the defaults, and the configured rankings, sorted, in place
/// of the derived ones.
pub open spec fn simulation_built(
    res: RoomSimulationData,
    config: Option<AutoRoomConfig>,
    players: Map<i32, Player>,
) -> bool {
    match config {
        None => is_default_for_players(res, players),
        Some(c) => {
            &&& res.map_version@ == (match c.map_version {
                Some(v) => v@,
                None => "local-dev"@,
            })
            &&& res.env_type == or_keep(c.env_type, -1i32)
            &&& res.prebook_count == or_keep(c.prebook_count, 128i32)
            &&& res.rankings_loaded == or_keep(c.rankings_loaded, true)
            &&& match c.rankings {
                Some(r) => rankings_sorted_from(res.rankings@, r@),
                None => has_derived_rankings(res.rankings@, players),
            }
        },
    }
}

/// The room data built from a configuration is the default room data for the same players
/// with what the configuration sets laid over it: with no configuration it is the default
/// data; the version, environment type, prebook count and loaded flag are the configured
/// ones where set and the defaults otherwise; the rankings are the configured rankings,
/// each sorted, where set, and the default rankings otherwise.
pub proof fn lemma_built_simulation_over_defaults(
    res: RoomSimulationData,
    config: Option<AutoRoomConfig>,
    players: Map<i32, Player>,
    defaults: RoomSimulationData,
)
    requires
        simulation_built(res, config, players),
        is_default_for_players(defaults, players),
    ensures
        res.map_version@ == (match config {
            Some(c) => match c.map_version {
                Some(v) => v@,
                None => defaults.map_version@,
            },
            None => defaults.map_version@,
        }),
        res.env_type == (match config {
            Some(c) => or_keep(c.env_type, defaults.env_type),
            None => defaults.env_type,
        }),
        res.prebook_count == (match config {
            Some(c) => or_keep(c.prebook_count, defaults.prebook_count),
            None => defaults.prebook_count,
        }),
        res.rankings_loaded == (match config {
            Some(c) => or_keep(c.rankings_loaded, defaults.rankings_loaded),
            None => defaults.rankings_loaded,
        }),
        rankings_view(res.rankings@) == (match config {
            Some(c) => match c.rankings {
                Some(r) => Map::new(
                    |k: i32| r@.contains_key(k),
                    |k: i32| sorted_lines(entry_views(r@[k]@)),
                ),
                None => rankings_view(defaults.rankings@),
            },
            None => rankings_view(defaults.rankings@),
        }),
{
    let derived = match config {
        Some(c) => c.rankings is None,
        None => true,
    };
    if derived {
        assert(has_derived_rankings(res.rankings@, players));
        lemma_derived_ranking_unique(
            entry_views(res.rankings@[-1i32]@),
            entry_views(defaults.rankings@[-1i32]@),
            players,
            RankingMetric::MapLevel,
        );
        lemma_derived_ranking_unique(
            entry_views(res.rankings@[0i32]@),
            entry_views(defaults.rankings@[0i32]@),
            players,
            RankingMetric::LevelScore,
        );
        assert(rankings_view(res.rankings@) =~= rankings_view(defaults.rankings@));
    } else {
        let c = config->0;
        let r = c.rankings->0;
        assert forall|k: i32| #[trigger] r@.contains_key(k) implies entry_views(res.rankings@[k]@)
            == sorted_lines(entry_views(r@[k]@)) by {
            assert(res.rankings@.contains_key(k));
            assert(ranking_sorted_from(res.rankings@, r@, k));
            lemma_sorted_lines(entry_views(r@[k]@), entry_views(res.rankings@[k]@));
        }
        assert(rankings_view(res.rankings@) =~= Map::new(
            |k: i32| r@.contains_key(k),
            |k: i32| sorted_lines(entry_views(r@[k]@)),
        ));
    }
}

/// The simulated platform data of a configured room: the defaults for its players with
/// the configured version, environment type, prebook count and loaded flag laid over
/// them; configured rankings replace the derived ones and are sorted.
pub fn build_room_simulation_from_config(
    config: Option<&AutoRoomConfig>,
    players: &HashMap<i32, Player>,
) -> (res: RoomSimulationData)
    requires
        metric_fits(players@, RankingMetric::LevelScore),
    ensures
        simulation_built(res, config_of(config), players@),
{
    let mut data = RoomSimulationData::default_for_players(players);
    if let Some(config) = config {
        if let Some(v) = &config.map_version {
            data.map_version = v.clone();
        }
        if let Some(v) = config.env_type {
            data.env_type = v;
        }
        if let Some(v) = config.prebook_count {
            data.prebook_count = v;
        }
        if let Some(v) = config.rankings_loaded {
            data.rankings_loaded = v;
        }
        if let Some(v) = &config.rankings {
            data.rankings = v.clone();
            data.sort_rankings();
        }
    }
    data
}

} // verus!
