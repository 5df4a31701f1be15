//! The control panel's console: what a command answers once the rooms have carried it
//! out, the echo line it logs, and which log lines the console shows.
use vstd::prelude::*;
use vstd::string::*;
use vstd::multiset::Multiset;
use crate::command::{strings_view, trim_start, CommandView, ConsoleCommand};
use crate::simulation::{
    lemma_name_less_asymmetric, lemma_name_less_transitive, name_less, names_less,
};
use crate::text::{
    chars_of, dec_int, is_space, is_space_char, push_char, push_decimal_i64, str_eq,
};

verus! {

broadcast use {
    vstd::seq_lib::group_to_multiset_ensures,
    vstd::multiset::group_multiset_axioms,
};

/// The error number of a request that succeeded.
pub const ERR_OK: i32 = 0;

/// `s` without its trailing whitespace.
pub open spec fn trim_end(s: Seq<char>) -> Seq<char>
    decreases s.len(),
{
    if s.len() > 0 && is_space(s.last()) {
        trim_end(s.drop_last())
    } else {
        s
    }
}

/// `s` without leading or trailing whitespace (`str::trim`).
pub open spec fn trim_spec(s: Seq<char>) -> Seq<char> {
    trim_end(trim_start(s))
}

/// Removes leading and trailing whitespace.
pub fn trim_spaces(s: &str) -> (res: String)
    ensures
        res@ == trim_spec(s@),
{
    let cs = chars_of(s);
    let n = cs.len();
    let mut start: usize = 0;
    assert(cs@.skip(0) =~= cs@);
    while start < n && is_space_char(cs[start])
        invariant
            start <= n,
            n == cs@.len(),
            trim_start(cs@) == trim_start(cs@.skip(start as int)),
        decreases n - start,
    {
        assert(cs@.skip(start as int).drop_first() =~= cs@.skip(start + 1));
        start = start + 1;
    }
    let ghost t = cs@.skip(start as int);
    assert(trim_start(cs@) == t);
    let mut end: usize = n;
    assert(t.take((end - start) as int) =~= t);
    while end > start && is_space_char(cs[end - 1])
        invariant
            start <= end <= n,
            n == cs@.len(),
            t == cs@.skip(start as int),
            trim_end(t) == trim_end(t.take(end - start)),
        decreases end,
    {
        assert(t.take(end - start).drop_last() =~= t.take(end - start - 1));
        end = end - 1;
    }
    assert(trim_end(t) == t.take(end - start));
    let mut out = String::new();
    let mut i: usize = start;
    while i < end
        invariant
            start <= i <= end,
            end <= n,
            n == cs@.len(),
            t == cs@.skip(start as int),
            out@ == t.take(i - start),
        decreases end - i,
    {
        push_char(&mut out, cs[i]);
        assert(t.take(i + 1 - start) =~= t.take(i - start).push(cs@[i as int]));
        i = i + 1;
    }
    out
}

/// The line a console command leaves in the log: `$ <command> -> <reply>`.
pub open spec fn echo_line(command: Seq<char>, reply: Seq<char>) -> Seq<char> {
    "$ "@ + command + " -> "@ + reply
}

/// The log line of a console command and its reply.
pub fn command_echo(command: &str, reply: &str) -> (res: String)
    ensures
        res@ == echo_line(command@, reply@),
{
    let mut s = String::from_str("$ ");
    s.append(command);
    s.append(" -> ");
    s.append(reply);
    s
}

/// Whether no name of `s` sorts before a name ahead of it.
pub open spec fn names_sorted(s: Seq<Seq<char>>) -> bool {
    forall|i: int, j: int| 0 <= i < j < s.len() ==> !name_less(#[trigger] s[j], #[trigger] s[i])
}

/// Sorts strings in the order of `name_less`.
pub fn sort_names(v: &mut Vec<String>)
    ensures
        names_sorted(strings_view(final(v)@)),
        strings_view(final(v)@).to_multiset() == strings_view(old(v)@).to_multiset(),
{
    let ghost orig = strings_view(v@);
    let mut src: Vec<String> = Vec::new();
    std::mem::swap(v, &mut src);
    assert(strings_view(v@) =~= Seq::<Seq<char>>::empty());
    assert(strings_view(v@).to_multiset() =~= Multiset::<Seq<char>>::empty());
    while src.len() > 0
        invariant
            names_sorted(strings_view(v@)),
            strings_view(v@).to_multiset().add(strings_view(src@).to_multiset())
                == orig.to_multiset(),
        decreases src.len(),
    {
        let ghost src_before = src@;
        let e = src.pop().unwrap();
        assert(strings_view(src_before) =~= strings_view(src@).push(e@));
        let mut p: usize = 0;
        while p < v.len() && !names_less(&e, &v[p])
            invariant
                p <= v@.len(),
                forall|j: int| 0 <= j < p ==> !name_less(e@, #[trigger] v@[j]@),
            decreases v@.len() - p,
        {
            p = p + 1;
        }
        let ghost before = v@;
        let ghost vb = strings_view(before);
        v.insert(p, e);
        assert(strings_view(v@) =~= vb.insert(p as int, e@));
        assert forall|i: int, j: int|
            0 <= i < j < v@.len() implies !name_less(
            #[trigger] strings_view(v@)[j],
            #[trigger] strings_view(v@)[i],
        ) by {
            let w = strings_view(v@);
            if j < p {
                assert(w[i] == vb[i] && w[j] == vb[j]);
            } else if j == p {
                assert(w[i] == before[i]@);
            } else if i == p {
                let k = j - 1;
                assert(w[j] == vb[k]);
                assert(name_less(e@, vb[p as int]));
                lemma_name_less_asymmetric(e@, vb[p as int]);
                if k > p {
                    assert(!name_less(vb[k], vb[p as int]));
                    if name_less(vb[k], e@) {
                        lemma_name_less_transitive(vb[k], e@, vb[p as int]);
                    }
                }
            } else if i < p {
                assert(w[i] == vb[i] && w[j] == vb[j - 1]);
            } else {
                assert(w[i] == vb[i - 1] && w[j] == vb[j - 1]);
            }
        }
        assert(strings_view(v@).to_multiset() =~= vb.to_multiset().insert(e@));
        assert(strings_view(src_before).to_multiset() =~= strings_view(src@).to_multiset().insert(
            e@,
        ));
        assert(strings_view(v@).to_multiset().add(strings_view(src@).to_multiset())
            =~= vb.to_multiset().add(strings_view(src_before).to_multiset()));
    }
    assert(strings_view(src@) =~= Seq::<Seq<char>>::empty());
    assert(strings_view(src@).to_multiset() =~= Multiset::<Seq<char>>::empty());
    assert(strings_view(v@).to_multiset() =~= strings_view(v@).to_multiset().add(
        Multiset::<Seq<char>>::empty(),
    ));
}

/// Parts written out with `sep` between them.
pub open spec fn join_with(parts: Seq<Seq<char>>, sep: Seq<char>) -> Seq<char>
    decreases parts.len(),
{
    if parts.len() == 0 {
        seq![]
    } else if parts.len() == 1 {
        parts[0]
    } else {
        join_with(parts.drop_last(), sep) + sep + parts.last()
    }
}

fn join_strings(parts: &Vec<String>, sep: &str) -> (res: String)
    ensures
        res@ == join_with(strings_view(parts@), sep@),
{
    let ghost sv = strings_view(parts@);
    let mut res = String::new();
    let mut i: usize = 0;
    assert(sv.take(0) =~= Seq::<Seq<char>>::empty());
    while i < parts.len()
        invariant
            i <= parts@.len(),
            sv == strings_view(parts@),
            res@ == join_with(sv.take(i as int), sep@),
        decreases parts@.len() - i,
    {
        let ghost part = sv.take(i + 1);
        assert(part.drop_last() =~= sv.take(i as int));
        assert(part.last() == parts@[i as int]@);
        if i > 0 {
            res.append(sep);
        } else {
            assert(part =~= seq![parts@[i as int]@]);
        }
        res.append(parts[i].as_str());
        assert(res@ =~= join_with(part, sep@));
        i = i + 1;
    }
    assert(sv.take(parts@.len() as int) =~= sv);
    res
}

/// What the rooms have done with a console command, as the console learns it.
pub enum CommandOutcome {
    /// The command was carried out (or needed nothing from the rooms).
    Done,
    /// The rooms as `id(status)` (for `rooms`).
    Rooms { rooms: Vec<String> },
    /// The script directory of `create` was not found.
    NoSuchDirectory,
    /// The room that the command names was not found.
    NoSuchRoom,
    /// A room was made: the new room of `create`, or the room that `restart` started.
    NewRoom { room_id: String },
    /// The room answered the request with this error number (`leave`, `exit`, `event`).
    Answered { errnu: i32 },
}

/// Whether `outcome` is one that `cmd` can have.
pub open spec fn outcome_fits(cmd: CommandView, outcome: CommandOutcome) -> bool {
    match cmd {
        CommandView::ListRooms => outcome is Rooms,
        CommandView::Create { .. } => outcome is NoSuchDirectory || outcome is NewRoom,
        CommandView::Restart { .. } => outcome is NoSuchRoom || outcome is NewRoom,
        CommandView::Select { .. } | CommandView::Stop { .. } | CommandView::Destroy { .. }
        | CommandView::Join { .. } => outcome is NoSuchRoom || outcome is Done,
        CommandView::Leave { .. } | CommandView::Exit { .. } | CommandView::Event { .. } =>
            outcome is NoSuchRoom || outcome is Answered,
        _ => outcome is Done,
    }
}

/// A room name in sorted order, then written out: `房间: a, b`, or `暂无房间` for none.
pub open spec fn rooms_reply_spec(rooms: Seq<Seq<char>>, sorted: Seq<Seq<char>>) -> Seq<char> {
    if rooms.len() == 0 {
        "暂无房间"@
    } else {
        "房间: "@ + join_with(sorted, ", "@)
    }
}

/// The console's answer to a command with the given outcome (`Ok` for success, `Err` for
/// an error). For `rooms`, `sorted` stands for the listed rooms in sorted order.
pub open spec fn reply_spec(cmd: CommandView, outcome: CommandOutcome, sorted: Seq<Seq<char>>) -> Result<
    Seq<char>,
    Seq<char>,
> {
    match cmd {
        CommandView::Nothing => Ok(seq![]),
        CommandView::ListRooms => Ok(rooms_reply_spec(strings_view(outcome->rooms@), sorted)),
        CommandView::Clear => Ok("日志已清空"@),
        CommandView::Create { script_dir } => match outcome {
            CommandOutcome::NewRoom { room_id } => Ok("已创建房间 "@ + room_id@),
            _ => Err("脚本目录不存在: "@ + script_dir),
        },
        CommandView::Restart { room_id } => match outcome {
            CommandOutcome::NewRoom { room_id: new_id } => Ok(
                "已重启房间 "@ + room_id + " -> "@ + new_id@,
            ),
            _ => Err("房间不存在: "@ + room_id),
        },
        CommandView::Select { room_id } => if outcome is Done {
            Ok("已选择房间 "@ + room_id)
        } else {
            Err("房间不存在: "@ + room_id)
        },
        CommandView::Stop { room_id } => if outcome is Done {
            Ok("已停止房间 "@ + room_id)
        } else {
            Err("房间不存在: "@ + room_id)
        },
        CommandView::Destroy { room_id } => if outcome is Done {
            Ok("已删除房间 "@ + room_id)
        } else {
            Err("房间不存在: "@ + room_id)
        },
        CommandView::Join { room_id, player_index, .. } => if outcome is Done {
            Ok("玩家 "@ + dec_int(player_index as int) + " 已加入 "@ + room_id)
        } else {
            Err("房间不存在: "@ + room_id)
        },
        CommandView::Leave { room_id, player_index } => match outcome {
            CommandOutcome::Answered { errnu } => if errnu != 0 {
                Err("玩家离线失败: errnu="@ + dec_int(errnu as int))
            } else {
                Ok("玩家 "@ + dec_int(player_index as int) + " 已离线"@)
            },
            _ => Err("房间不存在: "@ + room_id),
        },
        CommandView::Exit { room_id, player_index } => match outcome {
            CommandOutcome::Answered { errnu } => if errnu != 0 {
                Err("玩家退出失败: errnu="@ + dec_int(errnu as int))
            } else {
                Ok("玩家 "@ + dec_int(player_index as int) + " 已退出"@)
            },
            _ => Err("房间不存在: "@ + room_id),
        },
        CommandView::Event { room_id, event_name, .. } => match outcome {
            CommandOutcome::Answered { errnu } => if errnu != 0 {
                Err("发送事件失败: errnu="@ + dec_int(errnu as int))
            } else {
                Ok("已发送事件 "@ + event_name + " 到 "@ + room_id)
            },
            _ => Err("房间不存在: "@ + room_id),
        },
    }
}

fn text2(a: &str, b: &str) -> (res: String)
    ensures
        res@ == a@ + b@,
{
    let mut s = String::from_str(a);
    s.append(b);
    s
}

fn text_num(a: &str, n: i32, b: &str) -> (res: String)
    ensures
        res@ == a@ + dec_int(n as int) + b@,
{
    let mut s = String::from_str(a);
    push_decimal_i64(&mut s, n as i64);
    s.append(b);
    s
}

/// The console's answer to a command, once the rooms have carried it out.
pub fn command_reply(cmd: &ConsoleCommand, outcome: CommandOutcome) -> (res: Result<String, String>)
    requires
        outcome_fits(cmd@, outcome),
    ensures
        exists|sorted: Seq<Seq<char>>|
            #![trigger reply_spec(cmd@, outcome, sorted)]
            {
                &&& (cmd@ is ListRooms ==> names_sorted(sorted) && sorted.to_multiset()
                    == strings_view(outcome->rooms@).to_multiset())
                &&& match res {
                    Ok(m) => reply_spec(cmd@, outcome, sorted) == Ok::<Seq<char>, Seq<char>>(m@),
                    Err(m) => reply_spec(cmd@, outcome, sorted) == Err::<Seq<char>, Seq<char>>(
                        m@,
                    ),
                }
            },
{
    proof {
        reveal_strlit("");
    }
    let ghost mut witness: Seq<Seq<char>> = seq![];
    let res = match cmd {
        ConsoleCommand::Nothing => Ok(String::new()),
        ConsoleCommand::ListRooms => {
            match outcome {
                CommandOutcome::Rooms { rooms } => {
                    if rooms.len() == 0 {
                        assert(strings_view(rooms@) =~= witness);
                        Ok(String::from_str("暂无房间"))
                    } else {
                        let mut sorted = rooms;
                        sort_names(&mut sorted);
                        let joined = join_strings(&sorted, ", ");
                        proof {
                            witness = strings_view(sorted@);
                        }
                        Ok(text2("房间: ", joined.as_str()))
                    }
                },
                _ => Ok(String::new()),
            }
        },
        ConsoleCommand::Clear => Ok(String::from_str("日志已清空")),
        ConsoleCommand::Create { script_dir } => match outcome {
            CommandOutcome::NewRoom { room_id } => Ok(text2("已创建房间 ", room_id.as_str())),
            _ => Err(text2("脚本目录不存在: ", script_dir.as_str())),
        },
        ConsoleCommand::Restart { room_id } => match outcome {
            CommandOutcome::NewRoom { room_id: new_id } => {
                let mut s = text2("已重启房间 ", room_id.as_str());
                s.append(" -> ");
                s.append(new_id.as_str());
                Ok(s)
            },
            _ => Err(text2("房间不存在: ", room_id.as_str())),
        },
        ConsoleCommand::Select { room_id } => match outcome {
            CommandOutcome::Done => Ok(text2("已选择房间 ", room_id.as_str())),
            _ => Err(text2("房间不存在: ", room_id.as_str())),
        },
        ConsoleCommand::Stop { room_id } => match outcome {
            CommandOutcome::Done => Ok(text2("已停止房间 ", room_id.as_str())),
            _ => Err(text2("房间不存在: ", room_id.as_str())),
        },
        ConsoleCommand::Destroy { room_id } => match outcome {
            CommandOutcome::Done => Ok(text2("已删除房间 ", room_id.as_str())),
            _ => Err(text2("房间不存在: ", room_id.as_str())),
        },
        ConsoleCommand::Join { room_id, player_index, .. } => match outcome {
            CommandOutcome::Done => {
                let mut s = text_num("玩家 ", *player_index, " 已加入 ");
                s.append(room_id.as_str());
                Ok(s)
            },
            _ => Err(text2("房间不存在: ", room_id.as_str())),
        },
        ConsoleCommand::Leave { room_id, player_index } => match outcome {
            CommandOutcome::Answered { errnu } => if errnu != ERR_OK {
                Err(text_num("玩家离线失败: errnu=", errnu, ""))
            } else {
                Ok(text_num("玩家 ", *player_index, " 已离线"))
            },
            _ => Err(text2("房间不存在: ", room_id.as_str())),
        },
        ConsoleCommand::Exit { room_id, player_index } => match outcome {
            CommandOutcome::Answered { errnu } => if errnu != ERR_OK {
                Err(text_num("玩家退出失败: errnu=", errnu, ""))
            } else {
                Ok(text_num("玩家 ", *player_index, " 已退出"))
            },
            _ => Err(text2("房间不存在: ", room_id.as_str())),
        },
        ConsoleCommand::Event { room_id, event_name, .. } => match outcome {
            CommandOutcome::Answered { errnu } => if errnu != ERR_OK {
                Err(text_num("发送事件失败: errnu=", errnu, ""))
            } else {
                let mut s = text2("已发送事件 ", event_name.as_str());
                s.append(" 到 ");
                s.append(room_id.as_str());
                Ok(s)
            },
            _ => Err(text2("房间不存在: ", room_id.as_str())),
        },
    };
    assert({
        &&& (cmd@ is ListRooms ==> names_sorted(witness) && witness.to_multiset() == strings_view(
            outcome->rooms@,
        ).to_multiset())
        &&& match res {
            Ok(m) => reply_spec(cmd@, outcome, witness) == Ok::<Seq<char>, Seq<char>>(m@),
            Err(m) => reply_spec(cmd@, outcome, witness) == Err::<Seq<char>, Seq<char>>(m@),
        }
    });
    res
}

/// The console keeps at most this many log lines and outbound events.
pub const MAX_LOGS: usize = 10000;

/// Drops the oldest items so that at most `max` remain.
pub fn keep_latest<T>(items: &mut Vec<T>, max: usize)
    ensures
        final(items)@ == (if old(items)@.len() > max {
            old(items)@.skip(old(items)@.len() - max)
        } else {
            old(items)@
        }),
{
    let n = items.len();
    if n > max {
        let tail = items.split_off(n - max);
        *items = tail;
        assert(final(items)@ =~= old(items)@.skip(n - max));
    }
}

/// What `str::to_lowercase` gives for `s`: its lowercase equivalent by the Unicode
/// `Lowercase` property.
pub uninterp spec fn lowercase(s: Seq<char>) -> Seq<char>;

/// The lowercase equivalent of a string (`str::to_lowercase`); the contract names it.
#[verifier::external_body]
fn to_lowercase(s: &str) -> (res: String)
    ensures
        res@ == lowercase(s@),
{
    s.to_lowercase()
}

/// Whether `needle` occurs in `hay`.
pub open spec fn contains_text(hay: Seq<char>, needle: Seq<char>) -> bool {
    exists|i: int|
        0 <= i && i + needle.len() <= hay.len() && #[trigger] hay.subrange(i, i + needle.len())
            == needle
}

fn occurs_at(hay: &Vec<char>, needle: &Vec<char>, i: usize) -> (res: bool)
    requires
        i + needle@.len() <= hay@.len(),
    ensures
        res == (hay@.subrange(i as int, i + needle@.len()) == needle@),
{
    let mut j: usize = 0;
    assert(hay@.len() == hay.len());
    while j < needle.len()
        invariant
            j <= needle@.len(),
            hay@.len() == hay.len(),
            i + needle@.len() <= hay@.len(),
            forall|k: int| 0 <= k < j ==> hay@[i + k] == needle@[k],
        decreases needle@.len() - j,
    {
        if hay[i + j] != needle[j] {
            assert(hay@.subrange(i as int, i + needle@.len())[j as int] != needle@[j as int]);
            return false;
        }
        j = j + 1;
    }
    assert(hay@.subrange(i as int, i + needle@.len()) =~= needle@);
    true
}

fn text_contains(hay: &Vec<char>, needle: &Vec<char>) -> (res: bool)
    ensures
        res == contains_text(hay@, needle@),
{
    if needle.len() > hay.len() {
        return false;
    }
    let last = hay.len() - needle.len();
    let mut i: usize = 0;
    loop
        invariant
            i <= last,
            last + needle@.len() == hay@.len(),
            forall|k: int| 0 <= k < i ==> #[trigger] hay@.subrange(k, k + needle@.len()) != needle@,
        decreases last - i,
    {
        if occurs_at(hay, needle, i) {
            return true;
        }
        if i == last {
            return false;
        }
        i = i + 1;
    }
}

/// Whether the console shows a log line: its level is the chosen one (or none is chosen),
/// its room is the chosen one (or none is chosen), and its message holds the search text,
/// ignoring case (or nothing is searched for).
pub open spec fn log_shown(
    level: Seq<char>,
    room_id: Seq<char>,
    message: Seq<char>,
    level_filter: Seq<char>,
    room_filter: Seq<char>,
    search: Seq<char>,
) -> bool {
    &&& (level_filter.len() == 0 || level == level_filter)
    &&& (room_filter.len() == 0 || room_id == room_filter)
    &&& (search.len() == 0 || contains_text(lowercase(message), lowercase(search)))
}

/// Each filter on its own hides lines: a line whose level is not the chosen level, or whose
/// room is not the chosen room, or whose message (ignoring case) lacks the search text, is
/// not shown, whatever the other filters say; with no filter chosen every line is shown,
/// and a line that passes all three filters is shown.
pub proof fn lemma_log_filters_each_hide(
    level: Seq<char>,
    room_id: Seq<char>,
    message: Seq<char>,
    level_filter: Seq<char>,
    room_filter: Seq<char>,
    search: Seq<char>,
)
    ensures
        level_filter.len() > 0 && level != level_filter ==> !log_shown(
            level,
            room_id,
            message,
            level_filter,
            room_filter,
            search,
        ),
        room_filter.len() > 0 && room_id != room_filter ==> !log_shown(
            level,
            room_id,
            message,
            level_filter,
            room_filter,
            search,
        ),
        search.len() > 0 && !contains_text(lowercase(message), lowercase(search)) ==> !log_shown(
            level,
            room_id,
            message,
            level_filter,
            room_filter,
            search,
        ),
        (level_filter.len() == 0 || level == level_filter) && (room_filter.len() == 0 || room_id
            == room_filter) && (search.len() == 0 || contains_text(lowercase(message), lowercase(search)))
            ==> log_shown(level, room_id, message, level_filter, room_filter, search),
        level_filter.len() == 0 && room_filter.len() == 0 && search.len() == 0 ==> log_shown(
            level,
            room_id,
            message,
            level_filter,
            room_filter,
            search,
        ),
{
}

/// Tests a log line against the console's level, room and search filters.
pub fn log_matches_filters(
    level: &str,
    room_id: &str,
    message: &str,
    level_filter: &str,
    room_filter: &str,
    search: &str,
) -> (res: bool)
    ensures
        res == log_shown(level@, room_id@, message@, level_filter@, room_filter@, search@),
{
    if !level_filter.is_empty() && !str_eq(level, level_filter) {
        return false;
    }
    if !room_filter.is_empty() && !str_eq(room_id, room_filter) {
        return false;
    }
    if !search.is_empty() {
        let m = to_lowercase(message);
        let q = to_lowercase(search);
        let hay = chars_of(m.as_str());
        let needle = chars_of(q.as_str());
        return text_contains(&hay, &needle);
    }
    true
}

} // verus!
