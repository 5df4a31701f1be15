//! A player of a simulated room and the platform data that scripts can read about it.
use std::collections::HashMap;
use vstd::prelude::*;
use vstd::string::*;
use crate::command::trunc_div;
use crate::text::{dec_int, push_decimal_i64};

verus! {

broadcast use vstd::std_specs::hash::group_hash_axioms;

/// The map level of a player whose saved data gives none.
pub fn default_one() -> (res: i32)
    ensures
        res == 1,
{
    1
}

/// Platform profile of a player.
#[derive(Debug, Clone)]
pub struct PlayerPlatformData {
    pub guid: i64,
    pub plat_level: i32,
    pub vip_level: i32,
    pub map_vip_level: i32,
    pub vip_types: HashMap<i32, i32>,
    pub is_author: i32,
    pub is_collected: i32,
    pub is_backflow: i32,
}

/// The platform profile that the simulator gives the player in slot `index`: the slot-0
/// player is the map's author and holds developer VIP (type 6).
pub open spec fn default_platform_for(d: PlayerPlatformData, index: i32) -> bool {
    &&& d.guid == 1_000_000_000_000 + index
    &&& d.plat_level == 30
    &&& d.vip_level == 1
    &&& d.map_vip_level == 1
    &&& d.vip_types@ == map![6i32 => if index == 0 { 1i32 } else { 0i32 }]
    &&& d.is_author == (if index == 0 { 1i32 } else { 0i32 })
    &&& d.is_collected == 1
    &&& d.is_backflow == 0
}

impl PlayerPlatformData {
    /// The default platform profile of the player in slot `index`.
    pub fn default_for_index(index: i32) -> (res: Self)
        ensures
            default_platform_for(res, index),
    {
        let mut vip_types: HashMap<i32, i32> = HashMap::new();
        vip_types.insert(
            6,
            if index == 0 {
                1
            } else {
                0
            },
        );
        let res = PlayerPlatformData {
            guid: 1_000_000_000_000i64 + index as i64,
            plat_level: 30,
            vip_level: 1,
            map_vip_level: 1,
            vip_types,
            is_author: if index == 0 {
                1
            } else {
                0
            },
            is_collected: 1,
            is_backflow: 0,
        };
        assert(res.vip_types@ =~= map![6i32 => if index == 0 { 1i32 } else { 0i32 }]);
        res
    }
}

impl Default for PlayerPlatformData {
    fn default() -> (res: Self)
        ensures
            default_platform_for(res, 0),
    {
        Self::default_for_index(0)
    }
}

/// Activity figures of a player.
#[derive(Debug, Clone)]
pub struct PlayerActivityData {
    pub day_rounds: i32,
    pub since_last_game: i32,
    pub lottery_counts: HashMap<i32, i32>,
}

impl Default for PlayerActivityData {
    fn default() -> (res: Self)
        ensures
            res.day_rounds == 3,
            res.since_last_game == 3600,
            res.lottery_counts@ == Map::<i32, i32>::empty(),
    {
        PlayerActivityData { day_rounds: 3, since_last_game: 3600, lottery_counts: HashMap::new() }
    }
}

impl PlayerActivityData {
    /// The lottery count of the activity `cfg_index`; one where none is recorded.
    pub fn lottery_count(&self, cfg_index: i32) -> (res: i32)
        ensures
            res == (if self.lottery_counts@.contains_key(cfg_index) {
                self.lottery_counts@[cfg_index]
            } else {
                1i32
            }),
    {
        match self.lottery_counts.get(&cfg_index) {
            Some(v) => *v,
            None => 1,
        }
    }
}

/// Achievement figures of a player.
#[derive(Debug, Clone)]
pub struct PlayerAchievementData {
    pub point: i32,
    pub done: HashMap<String, i32>,
}

impl Default for PlayerAchievementData {
    fn default() -> (res: Self)
        ensures
            res.point == 120,
            res.done@ == Map::<String, i32>::empty(),
    {
        PlayerAchievementData { point: 120, done: HashMap::new() }
    }
}

/// Progress on one task.
#[derive(Debug, Clone)]
pub struct PlayerTaskProgress {
    pub total: i32,
    pub current: i32,
    pub done: i32,
}

impl Default for PlayerTaskProgress {
    fn default() -> (res: Self)
        ensures
            res == (PlayerTaskProgress { total: 10, current: 3, done: 0 }),
    {
        PlayerTaskProgress { total: 10, current: 3, done: 0 }
    }
}

/// Task progress of a player, by task id.
#[derive(Debug, Clone)]
pub struct PlayerTaskData {
    pub progress: HashMap<i32, PlayerTaskProgress>,
}

impl Default for PlayerTaskData {
    fn default() -> (res: Self)
        ensures
            res.progress@ == Map::<i32, PlayerTaskProgress>::empty(),
    {
        PlayerTaskData { progress: HashMap::new() }
    }
}

impl PlayerTaskData {
    /// The progress on task `task_id`; the default progress where none is recorded.
    pub fn get(&self, task_id: i32) -> (res: PlayerTaskProgress)
        ensures
            res == (if self.progress@.contains_key(task_id) {
                self.progress@[task_id]
            } else {
                PlayerTaskProgress { total: 10, current: 3, done: 0 }
            }),
    {
        match self.progress.get(&task_id) {
            Some(p) => PlayerTaskProgress { total: p.total, current: p.current, done: p.done },
            None => PlayerTaskProgress::default(),
        }
    }
}

/// Sign-in figures of a player.
#[derive(Debug, Clone)]
pub struct PlayerSignInData {
    pub total: i32,
    pub cont_max: i32,
    pub cont_cur: i32,
}

impl Default for PlayerSignInData {
    fn default() -> (res: Self)
        ensures
            res == (PlayerSignInData { total: 7, cont_max: 5, cont_cur: 2 }),
    {
        PlayerSignInData { total: 7, cont_max: 5, cont_cur: 2 }
    }
}

/// Community figures of a player.
#[derive(Debug, Clone)]
pub struct PlayerCommunityData {
    pub has_topic: i32,
    pub is_manager: i32,
    pub topic_count: i32,
    pub comment_count: i32,
    pub happy_count: i32,
    pub best_count: i32,
    pub appraise_count: i32,
    pub is_pinned: i32,
    pub pet_adv_time: i64,
}

/// The community figures a new player starts with.
pub open spec fn default_community() -> PlayerCommunityData {
    PlayerCommunityData {
        has_topic: 1,
        is_manager: 0,
        topic_count: 2,
        comment_count: 5,
        happy_count: 20,
        best_count: 1,
        appraise_count: 10,
        is_pinned: 1,
        pet_adv_time: -1i64,
    }
}

impl Default for PlayerCommunityData {
    fn default() -> (res: Self)
        ensures
            res == default_community(),
    {
        PlayerCommunityData {
            has_topic: 1,
            is_manager: 0,
            topic_count: 2,
            comment_count: 5,
            happy_count: 20,
            best_count: 1,
            appraise_count: 10,
            is_pinned: 1,
            pet_adv_time: -1,
        }
    }
}

/// Guild figures of a player.
#[derive(Debug, Clone)]
pub struct PlayerGuildData {
    pub level: i32,
}

impl Default for PlayerGuildData {
    fn default() -> (res: Self)
        ensures
            res == (PlayerGuildData { level: 1 }),
    {
        PlayerGuildData { level: 1 }
    }
}

/// A player of a simulated room. The time of joining is kept in nanoseconds since the
/// Unix epoch.
#[derive(Debug, Clone)]
pub struct Player {
    pub index: i32,
    pub name: String,
    pub map_level: i32,
    pub map_exp: i32,
    pub played_count: i32,
    pub test_play_time: i32,
    pub joined_at_nanos: u128,
    pub is_connected: bool,
    pub items: HashMap<String, i32>,
    pub script_archive: Option<String>,
    pub common_archive: HashMap<String, String>,
    pub read_archive: HashMap<String, String>,
    pub cfg_archive: HashMap<String, String>,
    pub platform: PlayerPlatformData,
    pub activity: PlayerActivityData,
    pub achievements: PlayerAchievementData,
    pub tasks: PlayerTaskData,
    pub sign_in: PlayerSignInData,
    pub community: PlayerCommunityData,
    pub guild: PlayerGuildData,
}

/// The name given to a player of slot `index` that has none: `Player_<index>`.
pub open spec fn default_player_name(index: i32) -> Seq<char> {
    "Player_"@ + dec_int(index as int)
}

/// A player as `Player::new` makes it: named `name` (or by its slot when `name` is empty),
/// connected, at map level 1, with nothing recorded, and the default profile of its slot.
pub open spec fn is_new_player(p: Player, index: i32, name: Seq<char>) -> bool {
    &&& p.index == index
    &&& p.name@ == (if name.len() == 0 {
        default_player_name(index)
    } else {
        name
    })
    &&& p.map_level == 1
    &&& p.map_exp == 0
    &&& p.played_count == 0
    &&& p.test_play_time == 0
    &&& p.is_connected
    &&& p.items@ == Map::<String, i32>::empty()
    &&& p.script_archive is None
    &&& p.common_archive@ == Map::<String, String>::empty()
    &&& p.read_archive@ == Map::<String, String>::empty()
    &&& p.cfg_archive@ == Map::<String, String>::empty()
    &&& default_platform_for(p.platform, index)
    &&& p.activity.day_rounds == 3
    &&& p.activity.since_last_game == 3600
    &&& p.activity.lottery_counts@ == Map::<i32, i32>::empty()
    &&& p.achievements.point == 120
    &&& p.achievements.done@ == Map::<String, i32>::empty()
    &&& p.tasks.progress@ == Map::<i32, PlayerTaskProgress>::empty()
    &&& p.sign_in == (PlayerSignInData { total: 7, cont_max: 5, cont_cur: 2 })
    &&& p.community == default_community()
    &&& p.guild == (PlayerGuildData { level: 1 })
}

/// Nanoseconds since the Unix epoch by the system clock (std `SystemTime::now`); a clock
/// set before the epoch reads as zero. Nothing is stated of the value: it is the time.
#[verifier::external_body]
fn clock_nanos() -> u128 {
    std::time::SystemTime::now().duration_since(std::time::UNIX_EPOCH).unwrap_or_default().as_nanos()
}

/// Whole seconds from `joined` to `now` (both in nanoseconds), truncated toward zero and
/// saturated to the range of `i32`.
pub open spec fn played_seconds_spec(joined: int, now: int) -> i32 {
    let d = trunc_div(now - joined, 1_000_000_000);
    if d > i32::MAX {
        i32::MAX
    } else if d < i32::MIN {
        i32::MIN
    } else {
        d as i32
    }
}

/// Whole seconds from `joined` to `now`, both given in nanoseconds since the epoch.
pub fn played_seconds(joined: u128, now: u128) -> (res: i32)
    ensures
        res == played_seconds_spec(joined as int, now as int),
{
    if now >= joined {
        let d: u128 = (now - joined) / 1_000_000_000;
        if d > 2147483647 {
            i32::MAX
        } else {
            d as i32
        }
    } else {
        let d: u128 = (joined - now) / 1_000_000_000;
        if d > 2147483648 {
            i32::MIN
        } else {
            (-(d as i64)) as i32
        }
    }
}

impl Player {
    /// A new connected player in slot `index`; an empty `name` becomes `Player_<index>`.
    pub fn new(index: i32, name: String) -> (res: Self)
        ensures
            is_new_player(res, index, name@),
    {
        let name = if name.as_str().is_empty() {
            let mut n = String::from_str("Player_");
            push_decimal_i64(&mut n, index as i64);
            n
        } else {
            name
        };
        Player {
            index,
            name,
            map_level: 1,
            map_exp: 0,
            played_count: 0,
            test_play_time: 0,
            joined_at_nanos: clock_nanos(),
            is_connected: true,
            items: HashMap::new(),
            script_archive: None,
            common_archive: HashMap::new(),
            read_archive: HashMap::new(),
            cfg_archive: HashMap::new(),
            platform: PlayerPlatformData::default_for_index(index),
            activity: PlayerActivityData::default(),
            achievements: PlayerAchievementData::default(),
            tasks: PlayerTaskData::default(),
            sign_in: PlayerSignInData::default(),
            community: PlayerCommunityData::default(),
            guild: PlayerGuildData::default(),
        }
    }

    /// Whole seconds since the player joined, by the system clock.
    pub fn played_time(&self) -> (res: i32)
        ensures
            exists|now: u128| res == played_seconds_spec(self.joined_at_nanos as int, now as int),
    {
        let now = clock_nanos();
        played_seconds(self.joined_at_nanos, now)
    }
}

} // verus!
