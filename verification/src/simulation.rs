//! Room-wide simulated platform data: map version, environment, and rankings.
use std::collections::HashMap;
use vstd::prelude::*;
use vstd::multiset::Multiset;
use vstd::string::*;
use vstd::std_specs::hash::spec_keys_iter;
use vstd::std_specs::iter::IteratorSpec;
use crate::player::Player;
use crate::text::chars_of;

verus! {

broadcast use {
    vstd::std_specs::hash::group_hash_axioms,
    vstd::seq_lib::group_to_multiset_ensures,
    vstd::multiset::group_multiset_axioms,
};

/// One line of a ranking.
#[derive(Debug, Clone, PartialEq, Eq)]
pub struct RankingEntry {
    pub player_index: i32,
    pub player_name: String,
    pub value: i32,
}

/// The player index of a configured ranking line that gives none: no player.
pub fn default_unbound_player_index() -> (res: i32)
    ensures
        res == -1,
{
    -1
}

/// What a ranking line holds, as plain values.
pub struct EntryView {
    pub player_index: i32,
    pub player_name: Seq<char>,
    pub value: i32,
}

impl View for RankingEntry {
    type V = EntryView;

    open spec fn view(&self) -> EntryView {
        EntryView {
            player_index: self.player_index,
            player_name: self.player_name@,
            value: self.value,
        }
    }
}

/// The lines of a ranking as plain values.
pub open spec fn entry_views(s: Seq<RankingEntry>) -> Seq<EntryView> {
    s.map_values(|e: RankingEntry| e@)
}

/// Lexicographic order on names, character by character (for UTF-8 text this is the
/// byte order by which `String` compares).
pub open spec fn name_less(a: Seq<char>, b: Seq<char>) -> bool
    decreases a.len(),
{
    if a.len() == 0 {
        b.len() > 0
    } else if b.len() == 0 {
        false
    } else if a[0] != b[0] {
        a[0] < b[0]
    } else {
        name_less(a.drop_first(), b.drop_first())
    }
}

/// Whether `a` is ranked above `b`: a higher value first, then the lower player index,
/// then the smaller name.
pub open spec fn ranks_before(a: EntryView, b: EntryView) -> bool {
    ||| a.value > b.value
    ||| a.value == b.value && a.player_index < b.player_index
    ||| a.value == b.value && a.player_index == b.player_index && name_less(
        a.player_name,
        b.player_name,
    )
}

/// Whether no line of `s` ranks above a line before it.
pub open spec fn is_ranked(s: Seq<EntryView>) -> bool {
    forall|i: int, j: int| 0 <= i < j < s.len() ==> !ranks_before(#[trigger] s[j], #[trigger] s[i])
}

pub proof fn lemma_name_less_transitive(a: Seq<char>, b: Seq<char>, c: Seq<char>)
    requires
        name_less(a, b),
        name_less(b, c),
    ensures
        name_less(a, c),
    decreases a.len(),
{
    if a.len() > 0 && b.len() > 0 && c.len() > 0 && a[0] == b[0] && b[0] == c[0] {
        lemma_name_less_transitive(a.drop_first(), b.drop_first(), c.drop_first());
    }
}

pub proof fn lemma_name_less_asymmetric(a: Seq<char>, b: Seq<char>)
    ensures
        !(name_less(a, b) && name_less(b, a)),
    decreases a.len(),
{
    if a.len() > 0 && b.len() > 0 && a[0] == b[0] {
        lemma_name_less_asymmetric(a.drop_first(), b.drop_first());
    }
}

/// Names that are neither less than the other are the same name.
pub proof fn lemma_name_less_total(a: Seq<char>, b: Seq<char>)
    ensures
        name_less(a, b) || name_less(b, a) || a == b,
    decreases a.len(),
{
    if a.len() > 0 && b.len() > 0 && a[0] == b[0] {
        lemma_name_less_total(a.drop_first(), b.drop_first());
        if a.drop_first() == b.drop_first() {
            assert(a =~= seq![a[0]] + a.drop_first());
            assert(b =~= seq![b[0]] + b.drop_first());
        }
    } else if a.len() == 0 && b.len() == 0 {
        assert(a =~= b);
    }
}

pub proof fn lemma_ranks_before_transitive(a: EntryView, b: EntryView, c: EntryView)
    requires
        ranks_before(a, b),
        ranks_before(b, c),
    ensures
        ranks_before(a, c),
{
    if a.value == b.value && b.value == c.value && a.player_index == b.player_index
        && b.player_index == c.player_index {
        lemma_name_less_transitive(a.player_name, b.player_name, c.player_name);
    }
}

pub proof fn lemma_ranks_before_asymmetric(a: EntryView, b: EntryView)
    ensures
        !(ranks_before(a, b) && ranks_before(b, a)),
{
    lemma_name_less_asymmetric(a.player_name, b.player_name);
}

/// Of two different lines, one ranks before the other.
pub proof fn lemma_ranks_before_total(a: EntryView, b: EntryView)
    ensures
        ranks_before(a, b) || ranks_before(b, a) || a == b,
{
    lemma_name_less_total(a.player_name, b.player_name);
}

proof fn lemma_multiset_first<A>(s: Seq<A>)
    requires
        s.len() > 0,
    ensures
        s.to_multiset() == s.drop_first().to_multiset().insert(s[0]),
{
    assert(s.remove(0) =~= s.drop_first());
    assert(s.to_multiset().remove(s[0]).insert(s[0]) =~= s.to_multiset()) by {
        assert(s.to_multiset().count(s[0]) > 0) by {
            assert(s.contains(s[0]));
        }
    }
}

/// A ranking is determined by its lines: two ranked sequences that hold the same lines
/// are the same sequence.
pub proof fn lemma_ranked_unique(s1: Seq<EntryView>, s2: Seq<EntryView>)
    requires
        is_ranked(s1),
        is_ranked(s2),
        s1.to_multiset() == s2.to_multiset(),
    ensures
        s1 == s2,
    decreases s1.len(),
{
    assert(s1.to_multiset().len() == s1.len());
    assert(s2.to_multiset().len() == s2.len());
    if s1.len() == 0 {
        assert(s2.len() == 0);
        assert(s1 =~= s2);
    } else {
        assert(s2.len() == s1.len());
        let a = s1[0];
        let b = s2[0];
        if a != b {
            assert(s1.to_multiset().count(b) > 0);
            assert(s1.contains(b));
            let k = choose|k: int| 0 <= k < s1.len() && s1[k] == b;
            assert(s2.to_multiset().count(a) > 0);
            assert(s2.contains(a));
            let m = choose|m: int| 0 <= m < s2.len() && s2[m] == a;
            lemma_ranks_before_total(a, b);
            assert(k > 0 && m > 0);
            assert(!ranks_before(s1[k], s1[0]));
            assert(!ranks_before(s2[m], s2[0]));
        }
        lemma_multiset_first(s1);
        lemma_multiset_first(s2);
        assert(s1.drop_first().to_multiset() =~= s1.to_multiset().remove(a));
        assert(s2.drop_first().to_multiset() =~= s2.to_multiset().remove(b));
        assert forall|i: int, j: int| 0 <= i < j < s1.drop_first().len() implies !ranks_before(
            #[trigger] s1.drop_first()[j],
            #[trigger] s1.drop_first()[i],
        ) by {
            assert(s1.drop_first()[j] == s1[j + 1] && s1.drop_first()[i] == s1[i + 1]);
        }
        assert forall|i: int, j: int| 0 <= i < j < s2.drop_first().len() implies !ranks_before(
            #[trigger] s2.drop_first()[j],
            #[trigger] s2.drop_first()[i],
        ) by {
            assert(s2.drop_first()[j] == s2[j + 1] && s2.drop_first()[i] == s2[i + 1]);
        }
        lemma_ranked_unique(s1.drop_first(), s2.drop_first());
        assert(s1 =~= seq![a] + s1.drop_first());
        assert(s2 =~= seq![b] + s2.drop_first());
    }
}

/// Compares two names in the order of `name_less`.
pub fn names_less(a: &String, b: &String) -> (res: bool)
    ensures
        res == name_less(a@, b@),
{
    let x = chars_of(a.as_str());
    let y = chars_of(b.as_str());
    let mut i: usize = 0;
    assert(x@.skip(0) =~= x@);
    assert(y@.skip(0) =~= y@);
    while i < x.len() && i < y.len() && x[i] == y[i]
        invariant
            i <= x@.len(),
            i <= y@.len(),
            name_less(a@, b@) == name_less(x@.skip(i as int), y@.skip(i as int)),
            x@ == a@,
            y@ == b@,
        decreases x@.len() - i,
    {
        assert(x@.skip(i as int).drop_first() =~= x@.skip(i + 1));
        assert(y@.skip(i as int).drop_first() =~= y@.skip(i + 1));
        i = i + 1;
    }
    if i == x.len() {
        i < y.len()
    } else if i == y.len() {
        false
    } else {
        x[i] < y[i]
    }
}

fn entry_ranks_before(a: &RankingEntry, b: &RankingEntry) -> (res: bool)
    ensures
        res == ranks_before(a@, b@),
{
    if a.value != b.value {
        a.value > b.value
    } else if a.player_index != b.player_index {
        a.player_index < b.player_index
    } else {
        names_less(&a.player_name, &b.player_name)
    }
}

/// Sorts ranking lines: higher values first, ties broken by player index and then by
/// name. The lines are kept, only reordered.
pub fn sort_ranking_entries(entries: &mut Vec<RankingEntry>)
    ensures
        is_ranked(entry_views(final(entries)@)),
        entry_views(final(entries)@).to_multiset() == entry_views(old(entries)@).to_multiset(),
        entry_views(final(entries)@) == sorted_lines(entry_views(old(entries)@)),
{
    let ghost orig = entry_views(entries@);
    let mut src: Vec<RankingEntry> = Vec::new();
    std::mem::swap(entries, &mut src);
    assert(entry_views(entries@) =~= Seq::<EntryView>::empty());
    assert(entry_views(entries@).to_multiset() =~= Multiset::<EntryView>::empty());
    while src.len() > 0
        invariant
            is_ranked(entry_views(entries@)),
            entry_views(entries@).to_multiset().add(entry_views(src@).to_multiset())
                == orig.to_multiset(),
        decreases src.len(),
    {
        let ghost src_before = src@;
        let e = src.pop().unwrap();
        assert(entry_views(src_before) =~= entry_views(src@).push(e@));
        let mut p: usize = 0;
        while p < entries.len() && !entry_ranks_before(&e, &entries[p])
            invariant
                p <= entries@.len(),
                forall|j: int| 0 <= j < p ==> !ranks_before(e@, #[trigger] entries@[j]@),
            decreases entries@.len() - p,
        {
            p = p + 1;
        }
        let ghost before = entries@;
        let ghost vb = entry_views(before);
        entries.insert(p, e);
        assert(entry_views(entries@) =~= vb.insert(p as int, e@));
        assert forall|i: int, j: int|
            0 <= i < j < entries@.len() implies !ranks_before(
            #[trigger] entry_views(entries@)[j],
            #[trigger] entry_views(entries@)[i],
        ) by {
            let v = entry_views(entries@);
            if j < p {
                assert(v[i] == vb[i] && v[j] == vb[j]);
            } else if j == p {
                assert(v[i] == before[i]@);
            } else if i == p {
                let k = j - 1;
                assert(v[j] == vb[k]);
                assert(ranks_before(e@, vb[p as int]));
                lemma_ranks_before_asymmetric(e@, vb[p as int]);
                if k > p {
                    assert(!ranks_before(vb[k], vb[p as int]));
                    if ranks_before(vb[k], e@) {
                        lemma_ranks_before_transitive(vb[k], e@, vb[p as int]);
                    }
                }
            } else if i < p {
                assert(v[i] == vb[i] && v[j] == vb[j - 1]);
            } else {
                assert(v[i] == vb[i - 1] && v[j] == vb[j - 1]);
            }
        }
        assert(entry_views(entries@).to_multiset() =~= entry_views(before).to_multiset().insert(e@));
        assert(entry_views(src_before).to_multiset() =~= entry_views(src@).to_multiset().insert(e@));
        assert(entry_views(entries@).to_multiset().add(entry_views(src@).to_multiset())
            =~= entry_views(before).to_multiset().add(entry_views(src_before).to_multiset()));
    }
    assert(entry_views(src@) =~= Seq::<EntryView>::empty());
    assert(entry_views(src@).to_multiset() =~= Multiset::<EntryView>::empty());
    assert(entry_views(entries@).to_multiset() =~= entry_views(entries@).to_multiset().add(
        Multiset::<EntryView>::empty(),
    ));
    proof {
        lemma_sorted_lines(orig, entry_views(entries@));
    }
}

/// The map version reported when none is configured.
pub const DEFAULT_MAP_VERSION: &'static str = "local-dev";

/// The environment type reported when none is configured.
pub const DEFAULT_ENV_TYPE: i32 = -1;

/// The prebook count reported when none is configured.
pub const DEFAULT_PREBOOK_COUNT: i32 = 128;

/// Platform data of a simulated room, shared by all its players.
#[derive(Debug, Clone)]
pub struct RoomSimulationData {
    pub map_version: String,
    pub env_type: i32,
    pub prebook_count: i32,
    pub rankings_loaded: bool,
    pub rankings: HashMap<i32, Vec<RankingEntry>>,
}

/// Whether ranking `k` of `m` is ranked and holds the same lines as ranking `k` of `old`.
pub open spec fn ranking_sorted_from(
    m: Map<i32, Vec<RankingEntry>>,
    old: Map<i32, Vec<RankingEntry>>,
    k: i32,
) -> bool {
    is_ranked(entry_views(m[k]@)) && entry_views(m[k]@).to_multiset() == entry_views(
        old[k]@,
    ).to_multiset()
}

/// Whether every ranking of `m` is ranked and holds the same lines as in `old`.
pub open spec fn rankings_sorted_from(
    m: Map<i32, Vec<RankingEntry>>,
    old: Map<i32, Vec<RankingEntry>>,
) -> bool {
    &&& m.dom() == old.dom()
    &&& forall|k: i32| #[trigger] m.contains_key(k) ==> ranking_sorted_from(m, old, k)
}

/// The lines of `s` in ranked order (the one arrangement of them that is ranked).
pub open spec fn sorted_lines(s: Seq<EntryView>) -> Seq<EntryView> {
    choose|t: Seq<EntryView>| is_ranked(t) && t.to_multiset() == s.to_multiset()
}

/// A ranked arrangement of the lines of `s` is `sorted_lines(s)`.
pub proof fn lemma_sorted_lines(s: Seq<EntryView>, t: Seq<EntryView>)
    requires
        is_ranked(t),
        t.to_multiset() == s.to_multiset(),
    ensures
        sorted_lines(s) == t,
{
    let u = sorted_lines(s);
    assert(is_ranked(u) && u.to_multiset() == s.to_multiset());
    lemma_ranked_unique(u, t);
}

/// The rankings of `m` by their lines.
pub open spec fn rankings_view(m: Map<i32, Vec<RankingEntry>>) -> Map<i32, Seq<EntryView>> {
    Map::new(|k: i32| m.contains_key(k), |k: i32| entry_views(m[k]@))
}

/// The two rankings the simulator derives from its players.
pub enum RankingMetric {
    /// The map level (ranking `-1`).
    MapLevel,
    /// `1000 * map level + map experience + played count` (ranking `0`).
    LevelScore,
}

/// A figure counted as zero when negative.
pub open spec fn nonneg(x: i32) -> int {
    if x < 0 {
        0
    } else {
        x as int
    }
}

/// The value of a player in a derived ranking.
pub open spec fn metric_value(p: Player, metric: RankingMetric) -> int {
    match metric {
        RankingMetric::MapLevel => nonneg(p.map_level),
        RankingMetric::LevelScore => nonneg(p.map_level) * 1000 + nonneg(p.map_exp) + nonneg(
            p.played_count,
        ),
    }
}

/// The ranking line of a player.
pub open spec fn player_line(p: Player, metric: RankingMetric) -> EntryView {
    EntryView { player_index: p.index, player_name: p.name@, value: metric_value(p, metric) as i32 }
}

/// Whether every player's figure for `metric` fits an `i32`.
pub open spec fn metric_fits(players: Map<i32, Player>, metric: RankingMetric) -> bool {
    forall|k: i32| #[trigger] players.contains_key(k) ==> metric_value(players[k], metric) <= i32::MAX
}

/// Whether `lines` ranks every player of `players` once by `metric`.
pub open spec fn ranks_players(
    lines: Seq<EntryView>,
    players: Map<i32, Player>,
    metric: RankingMetric,
) -> bool {
    &&& is_ranked(lines)
    &&& exists|ks: Seq<i32>|
        {
            &&& ks.no_duplicates()
            &&& ks.to_set() == players.dom()
            &&& lines.to_multiset() == ks.map_values(line_of(players, metric)).to_multiset()
        }
}

/// The ranking line of the player in slot `k`.
pub open spec fn line_of(players: Map<i32, Player>, metric: RankingMetric) -> spec_fn(i32) -> EntryView {
    |k: i32| player_line(players[k], metric)
}

/// Listing the same keys in another order lists the same lines.
proof fn lemma_same_keys_same_lines(ks1: Seq<i32>, ks2: Seq<i32>, f: spec_fn(i32) -> EntryView)
    requires
        ks1.no_duplicates(),
        ks2.no_duplicates(),
        ks1.to_set() == ks2.to_set(),
    ensures
        ks1.map_values(f).to_multiset() == ks2.map_values(f).to_multiset(),
    decreases ks1.len(),
{
    if ks1.len() == 0 {
        if ks2.len() > 0 {
            assert(ks2.to_set().contains(ks2[0]));
        }
        assert(ks1.map_values(f) =~= ks2.map_values(f));
    } else {
        let k = ks1[0];
        assert(ks1.to_set().contains(k));
        let j = choose|j: int| 0 <= j < ks2.len() && ks2[j] == k;
        let r1 = ks1.drop_first();
        let r2 = ks2.remove(j);
        assert forall|x: i32| r1.to_set().contains(x) <==> r2.to_set().contains(x) by {
            if r1.to_set().contains(x) {
                let a = choose|a: int| 0 <= a < r1.len() && r1[a] == x;
                assert(ks1[a + 1] == x);
                assert(ks1.to_set().contains(x));
                let b = choose|b: int| 0 <= b < ks2.len() && ks2[b] == x;
                assert(x != k);
                if b < j {
                    assert(r2[b] == x);
                } else {
                    assert(b != j);
                    assert(r2[b - 1] == x);
                }
            }
            if r2.to_set().contains(x) {
                let b = choose|b: int| 0 <= b < r2.len() && r2[b] == x;
                let b2 = if b < j {
                    b
                } else {
                    b + 1
                };
                assert(ks2[b2] == x);
                assert(ks2.to_set().contains(x));
                let a = choose|a: int| 0 <= a < ks1.len() && ks1[a] == x;
                assert(a != 0);
                assert(r1[a - 1] == x);
            }
        }
        assert(r1.to_set() =~= r2.to_set());
        assert(r1.no_duplicates()) by {
            assert forall|a: int, b: int| 0 <= a < r1.len() && 0 <= b < r1.len() && a != b implies r1[a]
                != r1[b] by {
                assert(r1[a] == ks1[a + 1] && r1[b] == ks1[b + 1]);
            }
        }
        assert(r2.no_duplicates()) by {
            assert forall|a: int, b: int| 0 <= a < r2.len() && 0 <= b < r2.len() && a != b implies r2[a]
                != r2[b] by {
                let a2 = if a < j {
                    a
                } else {
                    a + 1
                };
                let b2 = if b < j {
                    b
                } else {
                    b + 1
                };
                assert(r2[a] == ks2[a2] && r2[b] == ks2[b2]);
            }
        }
        lemma_same_keys_same_lines(r1, r2, f);
        let m1 = ks1.map_values(f);
        let m2 = ks2.map_values(f);
        assert(m1.drop_first() =~= r1.map_values(f));
        assert(m2.remove(j) =~= r2.map_values(f));
        lemma_multiset_first(m1);
        assert(m2.to_multiset().count(m2[j]) > 0) by {
            assert(m2.contains(m2[j]));
        }
        assert(m2.to_multiset() =~= m2.remove(j).to_multiset().insert(f(k)));
    }
}

/// A derived ranking does not depend on the order in which the players were listed:
/// any two rankings of the same players by the same metric are the same sequence.
pub proof fn lemma_derived_ranking_unique(
    l1: Seq<EntryView>,
    l2: Seq<EntryView>,
    players: Map<i32, Player>,
    metric: RankingMetric,
)
    requires
        ranks_players(l1, players, metric),
        ranks_players(l2, players, metric),
    ensures
        l1 == l2,
{
    let ks1 = choose|ks: Seq<i32>|
        {
            &&& ks.no_duplicates()
            &&& ks.to_set() == players.dom()
            &&& l1.to_multiset() == ks.map_values(line_of(players, metric)).to_multiset()
        };
    let ks2 = choose|ks: Seq<i32>|
        {
            &&& ks.no_duplicates()
            &&& ks.to_set() == players.dom()
            &&& l2.to_multiset() == ks.map_values(line_of(players, metric)).to_multiset()
        };
    lemma_same_keys_same_lines(ks1, ks2, line_of(players, metric));
    lemma_ranked_unique(l1, l2);
}

fn metric_of(p: &Player, metric: &RankingMetric) -> (res: i32)
    requires
        metric_value(*p, *metric) <= i32::MAX,
    ensures
        res == metric_value(*p, *metric),
{
    let level: i32 = if p.map_level < 0 {
        0
    } else {
        p.map_level
    };
    match metric {
        RankingMetric::MapLevel => level,
        RankingMetric::LevelScore => {
            let exp: i32 = if p.map_exp < 0 {
                0
            } else {
                p.map_exp
            };
            let count: i32 = if p.played_count < 0 {
                0
            } else {
                p.played_count
            };
            level * 1000 + exp + count
        },
    }
}

fn build_player_ranking(players: &HashMap<i32, Player>, metric: RankingMetric) -> (res: Vec<
    RankingEntry,
>)
    requires
        metric_fits(players@, metric),
    ensures
        ranks_players(entry_views(res@), players@, metric),
{
    let mut entries: Vec<RankingEntry> = Vec::new();
    let ghost full = spec_keys_iter(players).remaining().unref();
    let ghost mut ks: Seq<i32> = seq![];
    for k in it: players.keys()
        invariant
            metric_fits(players@, metric),
            it.seq().unref() == full,
            ks.len() == it.index(),
            ks == full.take(ks.len() as int),
            entry_views(entries@) == ks.map_values(line_of(players@, metric)),
            full.to_set() == players@.dom(),
            full.no_duplicates(),
    {
        assert(full[ks.len() as int] == *k);
        assert(full.to_set().contains(*k));
        let p = players.get(k).unwrap();
        assert(*p == players@[*k]);
        let v = metric_of(p, &metric);
        let ghost before = entries@;
        let line = RankingEntry { player_index: p.index, player_name: p.name.clone(), value: v };
        assert(line@ == player_line(players@[*k], metric));
        entries.push(line);
        assert(entry_views(entries@) =~= entry_views(before).push(line@));
        proof {
            ks = ks.push(*k);
        }
        assert(ks =~= full.take(ks.len() as int));
        assert(entry_views(entries@) =~= ks.map_values(line_of(players@, metric)));
    }
    assert(ks.len() == full.len());
    assert(ks =~= full);
    sort_ranking_entries(&mut entries);
    entries
}

/// Whether `d` is what the simulator starts a room with for `players`: the default
/// version, environment and prebook count, rankings loaded, and two rankings derived
/// from the players (`-1` by map level, `0` by level score).
pub open spec fn is_default_for_players(d: RoomSimulationData, players: Map<i32, Player>) -> bool {
    &&& d.map_version@ == "local-dev"@
    &&& d.env_type == -1
    &&& d.prebook_count == 128
    &&& d.rankings_loaded
    &&& has_derived_rankings(d.rankings@, players)
}

/// Whether `rankings` holds exactly the two rankings derived from `players`: `-1` by map
/// level and `0` by level score.
pub open spec fn has_derived_rankings(
    rankings: Map<i32, Vec<RankingEntry>>,
    players: Map<i32, Player>,
) -> bool {
    &&& rankings.dom() == set![-1i32, 0i32]
    &&& ranks_players(entry_views(rankings[-1i32]@), players, RankingMetric::MapLevel)
    &&& ranks_players(entry_views(rankings[0i32]@), players, RankingMetric::LevelScore)
}

impl RoomSimulationData {
    /// The simulated platform data of a new room with `players`.
    pub fn default_for_players(players: &HashMap<i32, Player>) -> (res: Self)
        requires
            metric_fits(players@, RankingMetric::LevelScore),
        ensures
            is_default_for_players(res, players@),
    {
        assert(metric_fits(players@, RankingMetric::MapLevel)) by {
            assert forall|k: i32| #[trigger] players@.contains_key(k) implies metric_value(
                players@[k],
                RankingMetric::MapLevel,
            ) <= i32::MAX by {
                assert(metric_value(players@[k], RankingMetric::LevelScore) <= i32::MAX);
            }
        }
        let mut rankings: HashMap<i32, Vec<RankingEntry>> = HashMap::new();
        rankings.insert(-1, build_player_ranking(players, RankingMetric::MapLevel));
        rankings.insert(0, build_player_ranking(players, RankingMetric::LevelScore));
        assert(rankings@.dom() =~= set![-1i32, 0i32]);
        RoomSimulationData {
            map_version: String::from_str(DEFAULT_MAP_VERSION),
            env_type: DEFAULT_ENV_TYPE,
            prebook_count: DEFAULT_PREBOOK_COUNT,
            rankings_loaded: true,
            rankings,
        }
    }

    /// Sorts every ranking (see `sort_ranking_entries`).
    pub fn sort_rankings(&mut self)
        ensures
            final(self).map_version == old(self).map_version,
            final(self).env_type == old(self).env_type,
            final(self).prebook_count == old(self).prebook_count,
            final(self).rankings_loaded == old(self).rankings_loaded,
            rankings_sorted_from(final(self).rankings@, old(self).rankings@),
    {
        let ghost orig = self.rankings@;
        let mut keys: Vec<i32> = Vec::new();
        let ghost full = spec_keys_iter(&self.rankings).remaining().unref();
        for k in it: self.rankings.keys()
            invariant
                it.seq().unref() == full,
                keys@.len() == it.index(),
                keys@ == full.take(keys@.len() as int),
                full.to_set() == orig.dom(),
                full.no_duplicates(),
        {
            assert(full[keys@.len() as int] == *k);
            keys.push(*k);
            assert(keys@ =~= full.take(keys@.len() as int));
        }
        assert(keys@.len() == full.len());
        assert(keys@ =~= full);
        let mut i: usize = 0;
        while i < keys.len()
            invariant
                i <= keys@.len(),
                keys@.to_set() == orig.dom(),
                keys@.no_duplicates(),
                self.rankings@.dom() == orig.dom(),
                self.map_version == old(self).map_version,
                self.env_type == old(self).env_type,
                self.prebook_count == old(self).prebook_count,
                self.rankings_loaded == old(self).rankings_loaded,
                forall|j: int|
                    0 <= j < i ==> ranking_sorted_from(self.rankings@, orig, #[trigger] keys@[j]),
                forall|j: int|
                    i <= j < keys@.len() ==> self.rankings@[#[trigger] keys@[j]] == orig[keys@[j]],
            decreases keys@.len() - i,
        {
            let k = keys[i];
            assert(keys@.to_set().contains(k));
            let ghost before = self.rankings@;
            let removed = self.rankings.remove(&k);
            let mut v = removed.unwrap();
            assert(v == orig[k]);
            sort_ranking_entries(&mut v);
            self.rankings.insert(k, v);
            assert(self.rankings@ == before.insert(k, v));
            assert(self.rankings@.dom() =~= orig.dom());
            assert forall|j: int| 0 <= j < i + 1 implies ranking_sorted_from(
                self.rankings@,
                orig,
                #[trigger] keys@[j],
            ) by {
                if j < i {
                    assert(keys@[j] != k);
                    assert(self.rankings@[keys@[j]] == before[keys@[j]]);
                }
            }
            assert forall|j: int| i + 1 <= j < keys@.len() implies self.rankings@[#[trigger] keys@[j]]
                == orig[keys@[j]] by {
                assert(keys@[j] != k);
                assert(self.rankings@[keys@[j]] == before[keys@[j]]);
            }
            i = i + 1;
        }
        assert forall|k: i32| #[trigger] self.rankings@.contains_key(k) implies ranking_sorted_from(
            self.rankings@,
            orig,
            k,
        ) by {
            assert(keys@.to_set().contains(k));
            let j = choose|j: int| 0 <= j < keys@.len() && keys@[j] == k;
            assert(ranking_sorted_from(self.rankings@, orig, keys@[j]));
        }
    }
}

/// Whether the first line of `s` that belongs to player `idx` is at the 1-based position
/// `pos`, or, for `pos == 0`, whether no line belongs to it.
pub open spec fn first_line_at(s: Seq<RankingEntry>, idx: i32, pos: int) -> bool {
    if pos == 0 {
        forall|j: int| 0 <= j < s.len() ==> (#[trigger] s[j]).player_index != idx
    } else {
        &&& 1 <= pos <= s.len()
        &&& s[pos - 1].player_index == idx
        &&& forall|j: int| 0 <= j < pos - 1 ==> (#[trigger] s[j]).player_index != idx
    }
}

/// Whether every ranking of `sim` is shorter than `i32::MAX` lines.
pub open spec fn rankings_fit(sim: RoomSimulationData) -> bool {
    forall|n: i32| #[trigger] sim.rankings@.contains_key(n) ==> sim.rankings@[n]@.len() < i32::MAX
}

/// The 1-based position of the first line of player `idx` in `entries`, or 0.
fn first_line_of(entries: &Vec<RankingEntry>, idx: i32) -> (res: usize)
    ensures
        first_line_at(entries@, idx, res as int),
{
    let mut i: usize = 0;
    while i < entries.len()
        invariant
            i <= entries@.len(),
            forall|j: int| 0 <= j < i ==> (#[trigger] entries@[j]).player_index != idx,
        decreases entries@.len() - i,
    {
        if entries[i].player_index == idx {
            return i + 1;
        }
        i = i + 1;
    }
    0
}

/// `MsGetPlayerRanking`: where player `idx` stands in ranking `ranking_num` (1-based).
/// It is -1 while the rankings are not loaded, and 0 for a player that is not in the room
/// or not in the ranking.
pub fn player_ranking(
    sim: &RoomSimulationData,
    players: &HashMap<i32, Player>,
    idx: i32,
    ranking_num: i32,
) -> (res: i32)
    requires
        rankings_fit(*sim),
    ensures
        !sim.rankings_loaded ==> res == -1,
        sim.rankings_loaded && !players@.contains_key(idx) ==> res == 0,
        sim.rankings_loaded && players@.contains_key(idx) && !sim.rankings@.contains_key(
            ranking_num,
        ) ==> res == 0,
        sim.rankings_loaded && players@.contains_key(idx) && sim.rankings@.contains_key(
            ranking_num,
        ) ==> first_line_at(sim.rankings@[ranking_num]@, idx, res as int),
{
    if !sim.rankings_loaded {
        return -1;
    }
    if !players.contains_key(&idx) {
        return 0;
    }
    match sim.rankings.get(&ranking_num) {
        Some(entries) => {
            assert(sim.rankings@.contains_key(ranking_num));
            first_line_of(entries, idx) as i32
        },
        None => 0,
    }
}

/// The value on the first line of player `idx` in `s`, or 0 when it has none.
pub open spec fn first_line_value(s: Seq<RankingEntry>, idx: i32) -> i32 {
    if exists|pos: int| pos > 0 && #[trigger] first_line_at(s, idx, pos) {
        s[(choose|pos: int| pos > 0 && #[trigger] first_line_at(s, idx, pos)) - 1].value
    } else {
        0
    }
}

/// A player's position and its value agree: the value at the position where a player's
/// first line stands is the player's ranking value.
pub proof fn lemma_position_value_agree(s: Seq<RankingEntry>, idx: i32, pos: int)
    requires
        pos > 0,
        first_line_at(s, idx, pos),
    ensures
        first_line_value(s, idx) == s[pos - 1].value,
{
    let p = choose|p: int| p > 0 && #[trigger] first_line_at(s, idx, p);
    if p < pos {
        assert(s[p - 1].player_index == idx);
    } else if p > pos {
        assert(s[pos - 1].player_index == idx);
    }
}

/// `MsGetPlayerRankValue`: the value on the first line of player `idx` in ranking
/// `ranking_num`. It is -1 while the rankings are not loaded, and 0 for a player that is
/// not in the room or not in the ranking.
pub fn player_rank_value(
    sim: &RoomSimulationData,
    players: &HashMap<i32, Player>,
    idx: i32,
    ranking_num: i32,
) -> (res: i32)
    ensures
        !sim.rankings_loaded ==> res == -1,
        sim.rankings_loaded && !players@.contains_key(idx) ==> res == 0,
        sim.rankings_loaded && players@.contains_key(idx) ==> res == (if sim.rankings@.contains_key(
            ranking_num,
        ) {
            first_line_value(sim.rankings@[ranking_num]@, idx)
        } else {
            0i32
        }),
{
    if !sim.rankings_loaded {
        return -1;
    }
    if !players.contains_key(&idx) {
        return 0;
    }
    match sim.rankings.get(&ranking_num) {
        Some(entries) => {
            let pos = first_line_of(entries, idx);
            if pos == 0 {
                proof {
                    if exists|p: int| p > 0 && #[trigger] first_line_at(entries@, idx, p) {
                        let p = choose|p: int| p > 0 && #[trigger] first_line_at(entries@, idx, p);
                        assert(entries@[p - 1].player_index == idx);
                    }
                }
                0
            } else {
                proof {
                    let p = choose|p: int| p > 0 && #[trigger] first_line_at(entries@, idx, p);
                    assert(first_line_at(entries@, idx, pos as int));
                    if p < pos {
                        assert(entries@[p - 1].player_index == idx);
                    } else if p > pos {
                        assert(entries@[pos - 1].player_index == idx);
                    }
                }
                entries[pos - 1].value
            }
        },
        None => 0,
    }
}

/// The name shown at 1-based position `rank` of ranking `ranking_num`: the line's own
/// name, or, for a line without one, the name of the player it belongs to (empty when
/// that player is not in the room). Positions outside `1..=100`, or past the end of the
/// ranking, show an empty name.
pub open spec fn rank_name_spec(
    sim: RoomSimulationData,
    players: Map<i32, Player>,
    ranking_num: i32,
    rank: i32,
) -> Seq<char> {
    if 1 <= rank <= 100 && sim.rankings@.contains_key(ranking_num) && rank <= sim.rankings@[ranking_num]@.len() {
        let e = sim.rankings@[ranking_num]@[rank - 1];
        if e.player_name@.len() == 0 {
            if players.contains_key(e.player_index) {
                players[e.player_index].name@
            } else {
                seq![]
            }
        } else {
            e.player_name@
        }
    } else {
        seq![]
    }
}

/// `MsGetRankPlayerName`: the name at position `rank` of ranking `ranking_num`.
pub fn rank_player_name(
    sim: &RoomSimulationData,
    players: &HashMap<i32, Player>,
    ranking_num: i32,
    rank: i32,
) -> (res: String)
    ensures
        res@ == rank_name_spec(*sim, players@, ranking_num, rank),
{
    if !(1 <= rank && rank <= 100) {
        return String::new();
    }
    match sim.rankings.get(&ranking_num) {
        Some(entries) => {
            let i: usize = (rank - 1) as usize;
            if i < entries.len() {
                let e = &entries[i];
                if e.player_name.as_str().is_empty() {
                    match players.get(&e.player_index) {
                        Some(p) => p.name.clone(),
                        None => String::new(),
                    }
                } else {
                    e.player_name.clone()
                }
            } else {
                String::new()
            }
        },
        None => String::new(),
    }
}

/// `MsGetRankValue`: the value at 1-based position `rank` of ranking `ranking_num`; 0 for
/// positions outside `1..=100` or past the end of the ranking.
pub fn rank_value(sim: &RoomSimulationData, ranking_num: i32, rank: i32) -> (res: i32)
    ensures
        res == (if 1 <= rank <= 100 && sim.rankings@.contains_key(ranking_num) && rank
            <= sim.rankings@[ranking_num]@.len() {
            sim.rankings@[ranking_num]@[rank - 1].value
        } else {
            0i32
        }),
{
    if !(1 <= rank && rank <= 100) {
        return 0;
    }
    match sim.rankings.get(&ranking_num) {
        Some(entries) => {
            let i: usize = (rank - 1) as usize;
            if i < entries.len() {
                entries[i].value
            } else {
                0
            }
        },
        None => 0,
    }
}

impl Default for RoomSimulationData {
    fn default() -> (res: Self)
        ensures
            res.map_version@ == "local-dev"@,
            res.env_type == -1,
            res.prebook_count == 128,
            res.rankings_loaded,
            res.rankings@ == Map::<i32, Vec<RankingEntry>>::empty(),
    {
        RoomSimulationData {
            map_version: String::from_str(DEFAULT_MAP_VERSION),
            env_type: DEFAULT_ENV_TYPE,
            prebook_count: DEFAULT_PREBOOK_COUNT,
            rankings_loaded: true,
            rankings: HashMap::new(),
        }
    }
}

} // verus!
