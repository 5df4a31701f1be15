//! What the script API answers about the players and the room.
use std::collections::HashMap;
use vstd::prelude::*;
use vstd::utf8::{encode_utf8, is_char_boundary};
use vstd::std_specs::hash::spec_keys_iter;
use vstd::std_specs::iter::IteratorSpec;
use crate::console::ERR_OK;
use crate::player::{played_seconds_spec, Player, PlayerTaskProgress};
use crate::text::push_char;

verus! {

broadcast use vstd::std_specs::hash::group_hash_axioms;

/// A figure of a player that a script can read.
#[derive(Debug, Clone, Copy, PartialEq, Eq, Structural)]
pub enum PlayerFigure {
    MapLevel,
    MapExp,
    TestPlayTime,
    PlayedCount,
    Guid,
    PlatLevel,
    VipLevel,
    MapVipLevel,
    IsAuthor,
    IsCollected,
    IsBackflow,
    DayRounds,
    SinceLastGame,
    AchievePoint,
    SignInTotal,
    SignInContMax,
    SignInContCur,
    HasTopic,
    IsManager,
    TopicCount,
    CommentCount,
    HappyCount,
    BestCount,
    AppraiseCount,
    IsPinned,
    PetAdvTime,
    GuildLevel,
}

/// The value of a figure of player `p`.
pub open spec fn figure_of(p: Player, f: PlayerFigure) -> i64 {
    match f {
        PlayerFigure::MapLevel => p.map_level as i64,
        PlayerFigure::MapExp => p.map_exp as i64,
        PlayerFigure::TestPlayTime => p.test_play_time as i64,
        PlayerFigure::PlayedCount => p.played_count as i64,
        PlayerFigure::Guid => p.platform.guid,
        PlayerFigure::PlatLevel => p.platform.plat_level as i64,
        PlayerFigure::VipLevel => p.platform.vip_level as i64,
        PlayerFigure::MapVipLevel => p.platform.map_vip_level as i64,
        PlayerFigure::IsAuthor => p.platform.is_author as i64,
        PlayerFigure::IsCollected => p.platform.is_collected as i64,
        PlayerFigure::IsBackflow => p.platform.is_backflow as i64,
        PlayerFigure::DayRounds => p.activity.day_rounds as i64,
        PlayerFigure::SinceLastGame => p.activity.since_last_game as i64,
        PlayerFigure::AchievePoint => p.achievements.point as i64,
        PlayerFigure::SignInTotal => p.sign_in.total as i64,
        PlayerFigure::SignInContMax => p.sign_in.cont_max as i64,
        PlayerFigure::SignInContCur => p.sign_in.cont_cur as i64,
        PlayerFigure::HasTopic => p.community.has_topic as i64,
        PlayerFigure::IsManager => p.community.is_manager as i64,
        PlayerFigure::TopicCount => p.community.topic_count as i64,
        PlayerFigure::CommentCount => p.community.comment_count as i64,
        PlayerFigure::HappyCount => p.community.happy_count as i64,
        PlayerFigure::BestCount => p.community.best_count as i64,
        PlayerFigure::AppraiseCount => p.community.appraise_count as i64,
        PlayerFigure::IsPinned => p.community.is_pinned as i64,
        PlayerFigure::PetAdvTime => p.community.pet_adv_time,
        PlayerFigure::GuildLevel => p.guild.level as i64,
    }
}

/// Each figure a script reads of a player is the player's own field of that name: the map
/// experience is `map_exp`, the played count `played_count`, and so on.
pub proof fn lemma_figures_read_their_fields(p: Player)
    ensures
        figure_of(p, PlayerFigure::MapLevel) == p.map_level,
        figure_of(p, PlayerFigure::MapExp) == p.map_exp,
        figure_of(p, PlayerFigure::TestPlayTime) == p.test_play_time,
        figure_of(p, PlayerFigure::PlayedCount) == p.played_count,
        figure_of(p, PlayerFigure::Guid) == p.platform.guid,
        figure_of(p, PlayerFigure::PlatLevel) == p.platform.plat_level,
        figure_of(p, PlayerFigure::VipLevel) == p.platform.vip_level,
        figure_of(p, PlayerFigure::MapVipLevel) == p.platform.map_vip_level,
        figure_of(p, PlayerFigure::IsAuthor) == p.platform.is_author,
        figure_of(p, PlayerFigure::IsCollected) == p.platform.is_collected,
        figure_of(p, PlayerFigure::IsBackflow) == p.platform.is_backflow,
        figure_of(p, PlayerFigure::DayRounds) == p.activity.day_rounds,
        figure_of(p, PlayerFigure::SinceLastGame) == p.activity.since_last_game,
        figure_of(p, PlayerFigure::AchievePoint) == p.achievements.point,
        figure_of(p, PlayerFigure::SignInTotal) == p.sign_in.total,
        figure_of(p, PlayerFigure::SignInContMax) == p.sign_in.cont_max,
        figure_of(p, PlayerFigure::SignInContCur) == p.sign_in.cont_cur,
        figure_of(p, PlayerFigure::HasTopic) == p.community.has_topic,
        figure_of(p, PlayerFigure::IsManager) == p.community.is_manager,
        figure_of(p, PlayerFigure::TopicCount) == p.community.topic_count,
        figure_of(p, PlayerFigure::CommentCount) == p.community.comment_count,
        figure_of(p, PlayerFigure::HappyCount) == p.community.happy_count,
        figure_of(p, PlayerFigure::BestCount) == p.community.best_count,
        figure_of(p, PlayerFigure::AppraiseCount) == p.community.appraise_count,
        figure_of(p, PlayerFigure::IsPinned) == p.community.is_pinned,
        figure_of(p, PlayerFigure::PetAdvTime) == p.community.pet_adv_time,
        figure_of(p, PlayerFigure::GuildLevel) == p.guild.level,
{
}

/// The figure `f` of the player in slot `idx`, or 0 when there is no such player
/// (`MsGetPlayerMapLevel`, `MsGetPlayerGuid`, `MsGetPlayerGuildLevel` and the like).
pub fn player_figure(players: &HashMap<i32, Player>, idx: i32, f: PlayerFigure) -> (res: i64)
    ensures
        res == (if players@.contains_key(idx) {
            figure_of(players@[idx], f)
        } else {
            0i64
        }),
{
    let p = match players.get(&idx) {
        Some(p) => p,
        None => {
            return 0;
        },
    };
    match f {
        PlayerFigure::MapLevel => p.map_level as i64,
        PlayerFigure::MapExp => p.map_exp as i64,
        PlayerFigure::TestPlayTime => p.test_play_time as i64,
        PlayerFigure::PlayedCount => p.played_count as i64,
        PlayerFigure::Guid => p.platform.guid,
        PlayerFigure::PlatLevel => p.platform.plat_level as i64,
        PlayerFigure::VipLevel => p.platform.vip_level as i64,
        PlayerFigure::MapVipLevel => p.platform.map_vip_level as i64,
        PlayerFigure::IsAuthor => p.platform.is_author as i64,
        PlayerFigure::IsCollected => p.platform.is_collected as i64,
        PlayerFigure::IsBackflow => p.platform.is_backflow as i64,
        PlayerFigure::DayRounds => p.activity.day_rounds as i64,
        PlayerFigure::SinceLastGame => p.activity.since_last_game as i64,
        PlayerFigure::AchievePoint => p.achievements.point as i64,
        PlayerFigure::SignInTotal => p.sign_in.total as i64,
        PlayerFigure::SignInContMax => p.sign_in.cont_max as i64,
        PlayerFigure::SignInContCur => p.sign_in.cont_cur as i64,
        PlayerFigure::HasTopic => p.community.has_topic as i64,
        PlayerFigure::IsManager => p.community.is_manager as i64,
        PlayerFigure::TopicCount => p.community.topic_count as i64,
        PlayerFigure::CommentCount => p.community.comment_count as i64,
        PlayerFigure::HappyCount => p.community.happy_count as i64,
        PlayerFigure::BestCount => p.community.best_count as i64,
        PlayerFigure::AppraiseCount => p.community.appraise_count as i64,
        PlayerFigure::IsPinned => p.community.is_pinned as i64,
        PlayerFigure::PetAdvTime => p.community.pet_adv_time,
        PlayerFigure::GuildLevel => p.guild.level as i64,
    }
}

/// `MsGetPlayerName`: the name of the player in slot `idx`, or empty.
pub fn player_name(players: &HashMap<i32, Player>, idx: i32) -> (res: String)
    ensures
        res@ == (if players@.contains_key(idx) {
            players@[idx].name@
        } else {
            Seq::<char>::empty()
        }),
{
    match players.get(&idx) {
        Some(p) => p.name.clone(),
        None => String::new(),
    }
}

/// `MsGetPlatVipType`: the level of VIP type `vip_type` of the player in slot `idx`; 0
/// when there is no such player or it has no such VIP type.
pub fn player_vip_type(players: &HashMap<i32, Player>, idx: i32, vip_type: i32) -> (res: i32)
    ensures
        res == (if players@.contains_key(idx) && players@[idx].platform.vip_types@.contains_key(
            vip_type,
        ) {
            players@[idx].platform.vip_types@[vip_type]
        } else {
            0i32
        }),
{
    match players.get(&idx) {
        Some(p) => match p.platform.vip_types.get(&vip_type) {
            Some(v) => *v,
            None => 0,
        },
        None => 0,
    }
}

/// `MsGetPlayerLotteryCount`: the lottery count of activity `cfg_index` of the player in
/// slot `idx` (see `PlayerActivityData::lottery_count`), or 0 when there is no such player.
pub fn player_lottery_count(players: &HashMap<i32, Player>, idx: i32, cfg_index: i32) -> (res: i32)
    ensures
        res == (if !players@.contains_key(idx) {
            0i32
        } else if players@[idx].activity.lottery_counts@.contains_key(cfg_index) {
            players@[idx].activity.lottery_counts@[cfg_index]
        } else {
            1i32
        }),
{
    match players.get(&idx) {
        Some(p) => p.activity.lottery_count(cfg_index),
        None => 0,
    }
}

/// A figure of a player's progress on a task.
#[derive(Debug, Clone, Copy, PartialEq, Eq, Structural)]
pub enum TaskFigure {
    Total,
    Current,
    Done,
}

/// The value of a task figure.
pub open spec fn task_figure_of(t: PlayerTaskProgress, f: TaskFigure) -> i32 {
    match f {
        TaskFigure::Total => t.total,
        TaskFigure::Current => t.current,
        TaskFigure::Done => t.done,
    }
}

/// `MsGetPlayerTaskTotalProgress`, `MsGetPlayerTaskCurProgress`, `MsGetPlayerTaskDone`:
/// a figure of the player's progress on task `task_id` (the default progress where none
/// is recorded), or 0 when there is no such player.
pub fn player_task_figure(
    players: &HashMap<i32, Player>,
    idx: i32,
    task_id: i32,
    f: TaskFigure,
) -> (res: i32)
    ensures
        res == (if !players@.contains_key(idx) {
            0i32
        } else if players@[idx].tasks.progress@.contains_key(task_id) {
            task_figure_of(players@[idx].tasks.progress@[task_id], f)
        } else {
            task_figure_of(PlayerTaskProgress { total: 10, current: 3, done: 0 }, f)
        }),
{
    match players.get(&idx) {
        Some(p) => {
            let t = p.tasks.get(task_id);
            match f {
                TaskFigure::Total => t.total,
                TaskFigure::Current => t.current,
                TaskFigure::Done => t.done,
            }
        },
        None => 0,
    }
}

/// `MsGetRoomGameTime`: seconds since the room finished loading at `loaded_ts`; 0 before
/// it has loaded (a load time of 0).
pub fn room_game_time(loaded_ts: i64, now: i64) -> (res: i64)
    requires
        loaded_ts != 0 ==> i64::MIN <= now - loaded_ts <= i64::MAX,
    ensures
        res == (if loaded_ts == 0 {
            0
        } else {
            now - loaded_ts
        }),
{
    if loaded_ts == 0 {
        0
    } else {
        now - loaded_ts
    }
}

/// Whether the player in slot `k` is connected.
pub open spec fn connected_in(players: Map<i32, Player>) -> spec_fn(i32) -> bool {
    |k: i32| players[k].is_connected
}

/// `MsGetRoomPlayerCount`: how many players of the room are connected.
pub fn connected_player_count(players: &HashMap<i32, Player>) -> (res: i32)
    requires
        players@.dom().len() <= i32::MAX,
    ensures
        exists|ks: Seq<i32>|
            {
                &&& ks.no_duplicates()
                &&& ks.to_set() == players@.dom()
                &&& res == ks.filter(connected_in(players@)).len()
            },
{
    let ghost full = spec_keys_iter(players).remaining().unref();
    let ghost mut ks: Seq<i32> = seq![];
    let mut count: i32 = 0;
    for k in it: players.keys()
        invariant
            it.seq().unref() == full,
            ks.len() == it.index(),
            ks == full.take(ks.len() as int),
            full.to_set() == players@.dom(),
            full.no_duplicates(),
            full.len() == players@.dom().len(),
            players@.dom().len() <= i32::MAX,
            count == ks.filter(connected_in(players@)).len(),
            count <= ks.len(),
    {
        reveal_with_fuel(Seq::<_>::filter, 1);
        assert(full[ks.len() as int] == *k);
        assert(full.to_set().contains(*k));
        let p = players.get(k).unwrap();
        let ghost before = ks;
        proof {
            ks = ks.push(*k);
        }
        assert(ks.drop_last() =~= before);
        if p.is_connected {
            count = count + 1;
        }
        assert(ks =~= full.take(ks.len() as int));
    }
    assert(ks.len() == full.len());
    assert(ks =~= full);
    count
}

/// The error number of a request about a player that is not in the room.
pub const ERR_PLAYER_NOT_EXIST: i32 = 3;

/// Whether `m` has a key with the text `key`.
pub open spec fn has_text_key<V>(m: Map<String, V>, key: Seq<char>) -> bool {
    exists|k: String| #[trigger] m.contains_key(k) && k@ == key
}

/// Whether `m` has a key with the text `key`, and every key with that text holds `v` (a
/// map keyed by strings holds at most one such key).
pub open spec fn text_reads<V>(m: Map<String, V>, key: Seq<char>, v: V) -> bool {
    &&& has_text_key(m, key)
    &&& forall|k: String| #[trigger] m.contains_key(k) && k@ == key ==> m[k] == v
}

/// Whether `m` has a key with the text `key`, and every key with that text holds a string
/// with the text `text`.
pub open spec fn text_reads_text(m: Map<String, String>, key: Seq<char>, text: Seq<char>) -> bool {
    &&& has_text_key(m, key)
    &&& forall|k: String| #[trigger] m.contains_key(k) && k@ == key ==> m[k]@ == text
}

/// The value under a key with the text `key`.
pub open spec fn text_value<V>(m: Map<String, V>, key: Seq<char>) -> V {
    m[choose|k: String| #[trigger] m.contains_key(k) && k@ == key]
}

/// Whether `after` is `before` with `value` stored under the text of `key`: the key of
/// `before` with that text keeps its place and takes the value, or, where there is none,
/// `key` is added with it; every other key keeps its value.
pub open spec fn stored_at_text<V>(
    before: Map<String, V>,
    after: Map<String, V>,
    key: String,
    value: V,
) -> bool {
    &&& after.dom() == (if has_text_key(before, key@) {
        before.dom()
    } else {
        before.dom().insert(key)
    })
    &&& forall|k: String| #[trigger]
        after.contains_key(k) ==> after[k] == (if k@ == key@ {
            value
        } else {
            before[k]
        })
}

/// The value under the key with the text `key` (`HashMap::get` with a `&str`): the value
/// of the key whose text is `key`, or nothing when no key has that text.
#[verifier::external_body]
pub(crate) fn get_by_text<'a, V>(m: &'a HashMap<String, V>, key: &str) -> (res: Option<&'a V>)
    ensures
        match res {
            Some(v) => text_reads(m@, key@, *v),
            None => !has_text_key(m@, key@),
        },
{
    m.get(key)
}

/// Stores `v` under the text of `key` (`HashMap::insert`): the key with that text, where
/// there is one, keeps its place and takes the value; otherwise `key` is added with it.
#[verifier::external_body]
pub(crate) fn insert_by_text<V>(m: &mut HashMap<String, V>, key: String, v: V)
    ensures
        stored_at_text(old(m)@, final(m)@, key, v),
{
    m.insert(key, v);
}

/// A text reads one value at most, and that value is `text_value`.
pub proof fn lemma_text_reads_value<V>(m: Map<String, V>, key: Seq<char>, v: V, w: V)
    requires
        text_reads(m, key, v),
    ensures
        text_value(m, key) == v,
        text_reads(m, key, w) ==> w == v,
{
    let k = choose|k: String| #[trigger] m.contains_key(k) && k@ == key;
    assert(m.contains_key(k) && k@ == key);
}

/// After `value` is stored under the text of `key`, that text reads `value`, and every
/// other text reads what it read before.
pub proof fn lemma_stored_text_reads<V>(
    before: Map<String, V>,
    after: Map<String, V>,
    key: String,
    value: V,
    other: Seq<char>,
    v: V,
)
    requires
        stored_at_text(before, after, key, value),
        other != key@,
    ensures
        text_reads(after, key@, value),
        has_text_key(after, other) == has_text_key(before, other),
        text_reads(after, other, v) == text_reads(before, other, v),
{
    if !has_text_key(before, key@) {
        assert(after.contains_key(key));
    } else {
        let k = choose|k: String| #[trigger] before.contains_key(k) && k@ == key@;
        assert(after.contains_key(k));
    }
    if has_text_key(after, other) {
        let k = choose|k: String| #[trigger] after.contains_key(k) && k@ == other;
        assert(before.contains_key(k));
    }
    if has_text_key(before, other) {
        let k = choose|k: String| #[trigger] before.contains_key(k) && k@ == other;
        assert(after.contains_key(k));
    }
    if text_reads(after, other, v) {
        assert forall|k: String| #[trigger] before.contains_key(k) && k@ == other implies before[k]
            == v by {
            assert(after.contains_key(k));
        }
    }
    if text_reads(before, other, v) {
        assert forall|k: String| #[trigger] after.contains_key(k) && k@ == other implies after[k]
            == v by {
            if k != key {
                assert(before.contains_key(k));
            }
        }
    }
}

/// `MsGetPlayerItem`: how many of item `key` the player in slot `idx` holds; 0 when it
/// holds none or there is no such player.
pub fn player_item(players: &HashMap<i32, Player>, idx: i32, key: &str) -> (res: i32)
    ensures
        players@.contains_key(idx) && has_text_key(players@[idx].items@, key@) ==> text_reads(
            players@[idx].items@,
            key@,
            res,
        ),
        !(players@.contains_key(idx) && has_text_key(players@[idx].items@, key@)) ==> res == 0,
{
    match players.get(&idx) {
        Some(p) => match get_by_text(&p.items, key) {
            Some(v) => *v,
            None => 0,
        },
        None => 0,
    }
}

/// `MsGetPlayerAchieveDone`: the state of achievement `ach_id` of the player in slot
/// `idx`; 0 when it has none or there is no such player.
pub fn player_achieve_done(players: &HashMap<i32, Player>, idx: i32, ach_id: &str) -> (res: i32)
    ensures
        players@.contains_key(idx) && has_text_key(players@[idx].achievements.done@, ach_id@)
            ==> text_reads(players@[idx].achievements.done@, ach_id@, res),
        !(players@.contains_key(idx) && has_text_key(players@[idx].achievements.done@, ach_id@))
            ==> res == 0,
{
    match players.get(&idx) {
        Some(p) => match get_by_text(&p.achievements.done, ach_id) {
            Some(v) => *v,
            None => 0,
        },
        None => 0,
    }
}

/// One of a player's three key-value archives.
#[derive(Debug, Clone, Copy, PartialEq, Eq, Structural)]
pub enum ArchiveKind {
    /// The common archive (`MsGetCommonArchive`, `MsSetCommonArchive`).
    Common,
    /// The read archive (`MsGetReadArchive`, `MsSetReadArchive`).
    Read,
    /// The configuration archive (`MsGetCfgArchive`).
    Cfg,
}

/// The archive of kind `kind` of player `p`.
pub open spec fn archive_of(p: Player, kind: ArchiveKind) -> Map<String, String> {
    match kind {
        ArchiveKind::Common => p.common_archive@,
        ArchiveKind::Read => p.read_archive@,
        ArchiveKind::Cfg => p.cfg_archive@,
    }
}

/// The text stored under `key` in an archive of the player in slot `idx`; empty when
/// nothing is stored there or there is no such player.
pub fn player_archive_value(
    players: &HashMap<i32, Player>,
    idx: i32,
    kind: ArchiveKind,
    key: &str,
) -> (res: String)
    ensures
        players@.contains_key(idx) && has_text_key(archive_of(players@[idx], kind), key@)
            ==> text_reads_text(archive_of(players@[idx], kind), key@, res@),
        !(players@.contains_key(idx) && has_text_key(archive_of(players@[idx], kind), key@))
            ==> res@ == Seq::<char>::empty(),
{
    match players.get(&idx) {
        Some(p) => {
            let archive = match kind {
                ArchiveKind::Common => &p.common_archive,
                ArchiveKind::Read => &p.read_archive,
                ArchiveKind::Cfg => &p.cfg_archive,
            };
            proof {
                assert(archive@ == archive_of(players@[idx], kind));
            }
            match get_by_text(archive, key) {
                Some(v) => {
                    let text = v.clone();
                    text
                },
                None => String::new(),
            }
        },
        None => String::new(),
    }
}

/// `MsGetScriptArchive`: the script archive of the player in slot `idx`; empty when it
/// has none or there is no such player.
pub fn player_script_archive(players: &HashMap<i32, Player>, idx: i32) -> (res: String)
    ensures
        res@ == (if players@.contains_key(idx) && players@[idx].script_archive is Some {
            players@[idx].script_archive->Some_0@
        } else {
            Seq::<char>::empty()
        }),
{
    match players.get(&idx) {
        Some(p) => match &p.script_archive {
            Some(a) => a.clone(),
            None => String::new(),
        },
        None => String::new(),
    }
}

/// Whether `after` is `before` with `value` stored under the text of `key` in its read
/// archive (`read`) or its common archive: a key already there with that text keeps its
/// place and takes the value, else `key` is added; nothing else of the player changes.
pub open spec fn archive_set(before: Player, after: Player, read: bool, key: String, value: String) -> bool {
    let kind = if read {
        ArchiveKind::Read
    } else {
        ArchiveKind::Common
    };
    let other = if read {
        ArchiveKind::Common
    } else {
        ArchiveKind::Read
    };
    &&& archive_of(after, other) == archive_of(before, other)
    &&& stored_at_text(archive_of(before, kind), archive_of(after, kind), key, value)
    &&& after == Player { common_archive: after.common_archive, read_archive: after.read_archive, ..before }
}

/// After `value` is stored under `key` in the common or read archive, reading `key` there
/// gives `value`, every other key of that archive reads as before, and the other archives
/// are untouched.
pub proof fn lemma_archive_reads_what_was_set(
    before: Player,
    after: Player,
    read: bool,
    key: String,
    value: String,
    other: Seq<char>,
    text: Seq<char>,
)
    requires
        archive_set(before, after, read, key, value),
        other != key@,
    ensures
        ({
            let kind = if read {
                ArchiveKind::Read
            } else {
                ArchiveKind::Common
            };
            &&& text_reads_text(archive_of(after, kind), key@, value@)
            &&& text_reads_text(archive_of(after, kind), other, text) == text_reads_text(
                archive_of(before, kind),
                other,
                text,
            )
            &&& archive_of(after, ArchiveKind::Cfg) == archive_of(before, ArchiveKind::Cfg)
        }),
{
    let kind = if read {
        ArchiveKind::Read
    } else {
        ArchiveKind::Common
    };
    let b = archive_of(before, kind);
    let a = archive_of(after, kind);
    lemma_stored_text_reads(b, a, key, value, other, value);
    if text_reads_text(a, other, text) {
        assert forall|k: String| #[trigger] b.contains_key(k) && k@ == other implies b[k]@ == text by {
            assert(a.contains_key(k));
        }
    }
    if text_reads_text(b, other, text) {
        assert forall|k: String| #[trigger] a.contains_key(k) && k@ == other implies a[k]@ == text by {
            if k != key {
                assert(b.contains_key(k));
            }
        }
    }
}

/// `MsSetCommonArchive` and `MsSetReadArchive`: stores `value` under `key` in the common or
/// read archive of the player in slot `idx`. The answer is `ERR_OK`, or
/// `ERR_PLAYER_NOT_EXIST` (with nothing changed) when there is no such player; nothing
/// else of the room changes.
pub fn set_player_archive(
    players: &mut HashMap<i32, Player>,
    idx: i32,
    read: bool,
    key: String,
    value: String,
) -> (res: i32)
    ensures
        !old(players)@.contains_key(idx) ==> res == ERR_PLAYER_NOT_EXIST && final(players)@ == old(
            players,
        )@,
        old(players)@.contains_key(idx) ==> res == ERR_OK,
        old(players)@.contains_key(idx) ==> final(players)@ == old(players)@.insert(
            idx,
            final(players)@[idx],
        ),
        old(players)@.contains_key(idx) ==> archive_set(
            old(players)@[idx],
            final(players)@[idx],
            read,
            key,
            value,
        ),
{
    let removed = players.remove(&idx);
    match removed {
        None => ERR_PLAYER_NOT_EXIST,
        Some(mut p) => {
            let ghost before = p;
            let ghost key0 = key;
            let ghost value0 = value;
            if read {
                insert_by_text(&mut p.read_archive, key, value);
                proof {
                    assert(p == Player { read_archive: p.read_archive, ..before });
                }
            } else {
                insert_by_text(&mut p.common_archive, key, value);
                proof {
                    assert(p == Player { common_archive: p.common_archive, ..before });
                }
            }
            proof {
                assert(before == old(players)@[idx]);
                assert(archive_set(before, p, read, key0, value0));
            }
            players.insert(idx, p);
            assert(players@ =~= old(players)@.insert(idx, p));
            ERR_OK
        },
    }
}

/// How storing a player's script archive ended (`MsSaveScriptArchive`).
#[derive(Debug, Clone, Copy, PartialEq, Eq, Structural)]
pub enum ScriptArchiveOutcome {
    /// The archive was stored (`ERR_OK`).
    Saved,
    /// There is no player in the slot (`ERR_PLAYER_NOT_EXIST`).
    PlayerNotExist,
    /// The archive's UTF-8 text is longer than the limit (`ERR_SCRIPT_ARCHIVE_TOO_LONG`).
    TooLong,
}

/// `MsSaveScriptArchive`: stores `data` as the script archive of the player in slot `idx`,
/// where its UTF-8 text takes at most `max_len` bytes. Nothing changes unless the answer is
/// `Saved`, and then only that player's script archive.
pub fn save_script_archive(
    players: &mut HashMap<i32, Player>,
    idx: i32,
    data: String,
    max_len: usize,
) -> (res: ScriptArchiveOutcome)
    ensures
        res == (if !old(players)@.contains_key(idx) {
            ScriptArchiveOutcome::PlayerNotExist
        } else if encode_utf8(data@).len() > max_len {
            ScriptArchiveOutcome::TooLong
        } else {
            ScriptArchiveOutcome::Saved
        }),
        res == ScriptArchiveOutcome::Saved ==> final(players)@ == old(players)@.insert(
            idx,
            Player { script_archive: Some(data), ..old(players)@[idx] },
        ),
        res != ScriptArchiveOutcome::Saved ==> final(players)@ == old(players)@,
{
    if !players.contains_key(&idx) {
        return ScriptArchiveOutcome::PlayerNotExist;
    }
    if data.as_str().as_bytes().len() > max_len {
        return ScriptArchiveOutcome::TooLong;
    }
    let removed = players.remove(&idx);
    match removed {
        None => ScriptArchiveOutcome::PlayerNotExist,
        Some(mut p) => {
            p.script_archive = Some(data);
            players.insert(idx, p);
            ScriptArchiveOutcome::Saved
        },
    }
}

/// `MsGetPlayedTime`: whole seconds since the player in slot `idx` joined, by the system
/// clock; 0 when there is no such player.
pub fn player_played_time(players: &HashMap<i32, Player>, idx: i32) -> (res: i32)
    ensures
        !players@.contains_key(idx) ==> res == 0,
        players@.contains_key(idx) ==> exists|now: u128|
            res == played_seconds_spec(players@[idx].joined_at_nanos as int, now as int),
{
    match players.get(&idx) {
        Some(p) => p.played_time(),
        None => 0,
    }
}

/// The text of the `_rdata` event that `MsSetReadArchive` sends: the key, a tab, the value.
pub fn rdata_text(key: &str, value: &str) -> (res: String)
    ensures
        res@ == key@ + seq!['\t'] + value@,
{
    let mut s = String::from_str(key);
    push_char(&mut s, '\t');
    s.append(value);
    s
}

/// A log message cut to its first `max_len` bytes where it is longer; the cut must fall on
/// a character boundary.
pub fn truncate_log(msg: String, max_len: usize) -> (res: String)
    requires
        encode_utf8(msg@).len() > max_len ==> is_char_boundary(encode_utf8(msg@), max_len as int),
    ensures
        encode_utf8(res@) == (if encode_utf8(msg@).len() > max_len {
            encode_utf8(msg@).take(max_len as int)
        } else {
            encode_utf8(msg@)
        }),
{
    if msg.as_str().as_bytes().len() > max_len {
        let (head, _) = msg.as_str().split_at(max_len);
        let out = head.to_owned();
        assert(encode_utf8(msg@).take(max_len as int) =~= encode_utf8(msg@).subrange(0, max_len as int));
        out
    } else {
        msg
    }
}

/// What `MsSendMlEvent` answers, given `validation`, the room's answer to the event's name
/// and value: that answer where it is an error; else `ERR_PLAYER_NOT_EXIST` for a player
/// slot (`idx >= 0`) with no player; else `ERR_OK`, and the event goes out.
pub fn ml_event_answer(validation: i32, players: &HashMap<i32, Player>, idx: i32) -> (res: i32)
    ensures
        res == (if validation != ERR_OK {
            validation
        } else if idx >= 0 && !players@.contains_key(idx) {
            ERR_PLAYER_NOT_EXIST
        } else {
            ERR_OK
        }),
{
    if validation != ERR_OK {
        validation
    } else if idx >= 0 && !players.contains_key(&idx) {
        ERR_PLAYER_NOT_EXIST
    } else {
        ERR_OK
    }
}

} // verus!
