//! Consuming a player's items on a script's request (`MsConsumeItem`).
use std::collections::BTreeMap;
use std::collections::HashMap;
use vstd::prelude::*;
use crate::player::Player;
use crate::script_api::{
    get_by_text, has_text_key, insert_by_text, lemma_text_reads_value, text_reads, text_value,
};

verus! {

broadcast use vstd::std_specs::hash::group_hash_axioms;

/// How a request to consume items ended.
#[derive(Debug, Clone, Copy, PartialEq, Eq, Structural)]
pub enum ConsumeOutcome {
    /// Every item asked for was taken (`ERR_OK`).
    Consumed,
    /// There is no player in the slot (`ERR_PLAYER_NOT_EXIST`).
    PlayerNotExist,
    /// The request is no JSON object of item counts (`ERR_UNKNOWN`).
    Unknown,
    /// The player holds none of an item asked for (`ERR_ITEM_NOT_FOUND`).
    ItemNotFound,
    /// The player holds fewer of an item than asked for (`ERR_ITEM_NOT_ENOUGH`).
    ItemNotEnough,
}

/// The item counts that the JSON text `text` holds, in the order of their keys, or
/// nothing where `text` is no JSON object whose values are all `i32` numbers.
pub uninterp spec fn parsed_item_counts(text: Seq<char>) -> Option<Seq<(Seq<char>, i32)>>;

/// Whether no two entries of `request` name the same item.
pub open spec fn distinct_items(request: Seq<(Seq<char>, i32)>) -> bool {
    forall|i: int, j: int| 0 <= i < j < request.len() ==> request[i].0 != request[j].0
}

/// Reads a request of item counts from JSON (`serde_json::from_str` into a `BTreeMap`,
/// then its entries in key order).
#[verifier::external_body]
fn parse_item_counts(text: &str) -> (res: Option<Vec<(String, i32)>>)
    ensures
        parsed_item_counts(text@) == res.deep_view(),
        res matches Some(v) ==> distinct_items(v.deep_view()),
{
    serde_json::from_str::<BTreeMap<String, i32>>(text).ok().map(|m| m.into_iter().collect())
}

/// What checking `request` against the items `items` answers: the first entry, in order,
/// whose item the player lacks (`ItemNotFound`) or holds too few of (`ItemNotEnough`)
/// decides; `Consumed` where every entry can be met.
pub open spec fn request_check(items: Map<String, i32>, request: Seq<(Seq<char>, i32)>) -> ConsumeOutcome
    decreases request.len(),
{
    if request.len() == 0 {
        ConsumeOutcome::Consumed
    } else if !has_text_key(items, request[0].0) {
        ConsumeOutcome::ItemNotFound
    } else if text_value(items, request[0].0) < request[0].1 {
        ConsumeOutcome::ItemNotEnough
    } else {
        request_check(items, request.drop_first())
    }
}

/// Whether `request` asks for the item with the text `item`.
pub open spec fn requested(request: Seq<(Seq<char>, i32)>, item: Seq<char>) -> bool {
    exists|i: int| 0 <= i < request.len() && #[trigger] request[i].0 == item
}

/// How many of the item with the text `item` `request` asks for.
pub open spec fn requested_count(request: Seq<(Seq<char>, i32)>, item: Seq<char>) -> i32 {
    request[choose|i: int| 0 <= i < request.len() && #[trigger] request[i].0 == item].1
}

/// Whether taking what `request` asks for from `items` leaves every count within `i32`.
pub open spec fn request_fits(items: Map<String, i32>, request: Seq<(Seq<char>, i32)>) -> bool {
    forall|i: int|
        0 <= i < request.len() && has_text_key(items, #[trigger] request[i].0) ==> i32::MIN
            <= text_value(items, request[i].0) - request[i].1 <= i32::MAX
}

/// Whether `after` is `items` with what `request` asks for taken away: the same items, each
/// one asked for lowered by its count, the others as they were.
pub open spec fn items_consumed(
    items: Map<String, i32>,
    after: Map<String, i32>,
    request: Seq<(Seq<char>, i32)>,
) -> bool {
    &&& after.dom() == items.dom()
    &&& forall|k: String| #[trigger]
        after.contains_key(k) ==> after[k] == (if requested(request, k@) {
            items[k] - requested_count(request, k@)
        } else {
            items[k] as int
        })
}

/// Whether `after` is the room `before` once the player in slot `idx` has given up what
/// `request` asks for: nothing else of that player, and no other player, changes.
pub open spec fn consumed_by(
    before: Map<i32, Player>,
    after: Map<i32, Player>,
    idx: i32,
    request: Seq<(Seq<char>, i32)>,
) -> bool {
    &&& after == before.insert(idx, after[idx])
    &&& after[idx] == Player { items: after[idx].items, ..before[idx] }
    &&& items_consumed(before[idx].items@, after[idx].items@, request)
}

/// What `MsConsumeItem` answers for the player in slot `idx` of `players` on the JSON text
/// `text`.
pub open spec fn consume_outcome(players: Map<i32, Player>, idx: i32, text: Seq<char>) -> ConsumeOutcome {
    if !players.contains_key(idx) {
        ConsumeOutcome::PlayerNotExist
    } else {
        match parsed_item_counts(text) {
            None => ConsumeOutcome::Unknown,
            Some(request) => request_check(players[idx].items@, request),
        }
    }
}

/// Checks `request` against the items of the player in slot `idx`.
fn check_request(items: &HashMap<String, i32>, request: &Vec<(String, i32)>) -> (res: ConsumeOutcome)
    ensures
        res == request_check(items@, request.deep_view()),
{
    let ghost req = request.deep_view();
    let mut i: usize = 0;
    assert(req.skip(0) =~= req);
    while i < request.len()
        invariant
            req == request.deep_view(),
            i <= request.len(),
            request_check(items@, req) == request_check(items@, req.skip(i as int)),
        decreases request.len() - i,
    {
        let key = &request[i].0;
        let count = request[i].1;
        assert(req.skip(i as int)[0] == (key@, count));
        assert(req.skip(i as int).drop_first() =~= req.skip(i + 1));
        match get_by_text(items, key.as_str()) {
            None => {
                return ConsumeOutcome::ItemNotFound;
            },
            Some(current) => {
                proof {
                    lemma_text_reads_value(items@, key@, *current, *current);
                }
                if *current < count {
                    return ConsumeOutcome::ItemNotEnough;
                }
            },
        }
        i = i + 1;
    }
    assert(req.skip(i as int).len() == 0);
    ConsumeOutcome::Consumed
}

/// Where the check of `request` passes, the player holds every item asked for, and at
/// least as many as asked for.
proof fn lemma_check_passes(items: Map<String, i32>, request: Seq<(Seq<char>, i32)>)
    requires
        request_check(items, request) == ConsumeOutcome::Consumed,
    ensures
        forall|j: int|
            0 <= j < request.len() ==> has_text_key(items, #[trigger] request[j].0) && text_value(
                items,
                request[j].0,
            ) >= request[j].1,
    decreases request.len(),
{
    if request.len() > 0 {
        lemma_check_passes(items, request.drop_first());
        assert forall|j: int| 0 <= j < request.len() implies has_text_key(
            items,
            #[trigger] request[j].0,
        ) && text_value(items, request[j].0) >= request[j].1 by {
            if j > 0 {
                assert(request[j] == request.drop_first()[j - 1]);
            }
        }
    }
}

/// In a request that names each item once, the count for the item of entry `j` is the
/// count of that entry.
proof fn lemma_requested_count(request: Seq<(Seq<char>, i32)>, j: int)
    requires
        distinct_items(request),
        0 <= j < request.len(),
    ensures
        requested(request, request[j].0),
        requested_count(request, request[j].0) == request[j].1,
{
    let c = choose|i: int| 0 <= i < request.len() && #[trigger] request[i].0 == request[j].0;
    assert(0 <= c < request.len() && request[c].0 == request[j].0);
    if c < j {
        assert(request[c].0 != request[j].0);
    } else if c > j {
        assert(request[j].0 != request[c].0);
    }
}

/// Takes from `items` what `request` asks for, where the check has passed.
fn take_items(items: &mut HashMap<String, i32>, request: &Vec<(String, i32)>)
    requires
        distinct_items(request.deep_view()),
        request_check(old(items)@, request.deep_view()) == ConsumeOutcome::Consumed,
        request_fits(old(items)@, request.deep_view()),
    ensures
        items_consumed(old(items)@, final(items)@, request.deep_view()),
{
    let ghost req = request.deep_view();
    let ghost before = items@;
    proof {
        lemma_check_passes(before, req);
    }
    let mut i: usize = 0;
    while i < request.len()
        invariant
            req == request.deep_view(),
            i <= request.len(),
            distinct_items(req),
            request_fits(before, req),
            forall|j: int|
                0 <= j < req.len() ==> has_text_key(before, #[trigger] req[j].0) && text_value(
                    before,
                    req[j].0,
                ) >= req[j].1,
            items_consumed(before, items@, req.take(i as int)),
        decreases request.len() - i,
    {
        let key = &request[i].0;
        let count = request[i].1;
        let ghost t = key@;
        assert(req[i as int] == (t, count));
        assert(has_text_key(before, req[i as int].0));
        let ghost done = req.take(i as int);
        let ghost next = req.take(i + 1);
        assert(!requested(done, t)) by {
            if requested(done, t) {
                let j = choose|j: int| 0 <= j < done.len() && #[trigger] done[j].0 == t;
                assert(req[j].0 == req[i as int].0);
            }
        }
        let found = get_by_text(items, key.as_str());
        let current: i32 = match found {
            Some(c) => *c,
            None => {
                proof {
                    let k = choose|k: String| #[trigger] before.contains_key(k) && k@ == t;
                    assert(items@.contains_key(k));
                }
                0
            },
        };
        proof {
            assert(found is Some);
            assert(text_reads(before, t, current)) by {
                assert forall|k: String| #[trigger] before.contains_key(k) && k@ == t implies before[k]
                    == current by {
                    assert(items@.contains_key(k));
                }
                let k = choose|k: String| #[trigger] items@.contains_key(k) && k@ == t;
                assert(before.contains_key(k));
            }
            lemma_text_reads_value(before, t, current, current);
            assert(has_text_key(before, req[i as int].0));
        }
        let remaining = current - count;
        let ghost mid = items@;
        insert_by_text(items, key.clone(), remaining);
        proof {
            assert(has_text_key(mid, t));
            assert(next[i as int] == req[i as int]);
            lemma_requested_count(next, i as int);
            assert(distinct_items(next));
            assert forall|k: String| #[trigger] items@.contains_key(k) implies items@[k] == (if requested(
                next,
                k@,
            ) {
                before[k] - requested_count(next, k@)
            } else {
                before[k] as int
            }) by {
                if k@ == t {
                    assert(before[k] == current);
                } else {
                    assert(requested(next, k@) == requested(done, k@)) by {
                        if requested(next, k@) {
                            let j = choose|j: int| 0 <= j < next.len() && #[trigger] next[j].0 == k@;
                            assert(done[j] == next[j]);
                        }
                        if requested(done, k@) {
                            let j = choose|j: int| 0 <= j < done.len() && #[trigger] done[j].0 == k@;
                            assert(done[j] == next[j]);
                        }
                    }
                    if requested(done, k@) {
                        let j = choose|j: int| 0 <= j < done.len() && #[trigger] done[j].0 == k@;
                        lemma_requested_count(done, j);
                        lemma_requested_count(next, j);
                        assert(done[j] == next[j]);
                    }
                }
            }
        }
        i = i + 1;
    }
    assert(req.take(i as int) =~= req);
}

/// `MsConsumeItem` on a request already read: takes the items of `request` from the player
/// in slot `idx` where that player holds all of them, each at least as many times as asked
/// for. The answer is `PlayerNotExist` where there is no such player, else what checking
/// the request answers; only where that is `Consumed` does anything change, and then only
/// that player's items.
pub fn apply_item_request(players: &mut HashMap<i32, Player>, idx: i32, request: &Vec<(String, i32)>) -> (res: ConsumeOutcome)
    requires
        distinct_items(request.deep_view()),
        old(players)@.contains_key(idx) && request_check(
            old(players)@[idx].items@,
            request.deep_view(),
        ) == ConsumeOutcome::Consumed ==> request_fits(old(players)@[idx].items@, request.deep_view()),
    ensures
        !old(players)@.contains_key(idx) ==> res == ConsumeOutcome::PlayerNotExist,
        old(players)@.contains_key(idx) ==> res == request_check(
            old(players)@[idx].items@,
            request.deep_view(),
        ),
        res != ConsumeOutcome::Consumed ==> final(players)@ == old(players)@,
        res == ConsumeOutcome::Consumed ==> consumed_by(
            old(players)@,
            final(players)@,
            idx,
            request.deep_view(),
        ),
{
    let outcome = match players.get(&idx) {
        None => ConsumeOutcome::PlayerNotExist,
        Some(p) => check_request(&p.items, request),
    };
    if outcome != ConsumeOutcome::Consumed {
        return outcome;
    }
    let removed = players.remove(&idx);
    match removed {
        None => outcome,
        Some(mut p) => {
            let ghost before = p;
            take_items(&mut p.items, request);
            assert(p == Player { items: p.items, ..before });
            players.insert(idx, p);
            assert(players@ =~= old(players)@.insert(idx, p));
            outcome
        },
    }
}

/// `MsConsumeItem`: the player in slot `idx` asks, in the JSON text `iteminfo_json`, for
/// counts of items to be taken. Answers `PlayerNotExist` where there is no such player,
/// `Unknown` where the text is no JSON object of `i32` counts, else what
/// `apply_item_request` answers on the counts read; beside the answer stands the request
/// read (empty in the first two cases). Answers `None`, with nothing changed, where taking
/// an item would leave a count outside `i32`.
pub fn consume_items(players: &mut HashMap<i32, Player>, idx: i32, iteminfo_json: &str) -> (res: Option<(ConsumeOutcome, Vec<(String, i32)>)>)
    ensures
        match res {
            Some((outcome, read)) => outcome == consume_outcome(old(players)@, idx, iteminfo_json@)
                && read.deep_view() == (match parsed_item_counts(iteminfo_json@) {
                Some(request) => if old(players)@.contains_key(idx) {
                    request
                } else {
                    Seq::empty()
                },
                None => Seq::empty(),
            }),
            None => old(players)@.contains_key(idx) && parsed_item_counts(iteminfo_json@) is Some
                && request_check(old(players)@[idx].items@, parsed_item_counts(iteminfo_json@)->0)
                == ConsumeOutcome::Consumed && !request_fits(
                old(players)@[idx].items@,
                parsed_item_counts(iteminfo_json@)->0,
            ),
        },
        res matches Some((outcome, _)) && outcome == ConsumeOutcome::Consumed ==> consumed_by(
            old(players)@,
            final(players)@,
            idx,
            parsed_item_counts(iteminfo_json@)->0,
        ),
        !(res matches Some((outcome, _)) && outcome == ConsumeOutcome::Consumed) ==> final(players)@
            == old(players)@,
{
    let items = match players.get(&idx) {
        None => {
            return Some((ConsumeOutcome::PlayerNotExist, Vec::new()));
        },
        Some(p) => &p.items,
    };
    let request = match parse_item_counts(iteminfo_json) {
        None => {
            return Some((ConsumeOutcome::Unknown, Vec::new()));
        },
        Some(r) => r,
    };
    if check_request(items, &request) == ConsumeOutcome::Consumed && !fits_items(items, &request) {
        return None;
    }
    let outcome = apply_item_request(players, idx, &request);
    Some((outcome, request))
}

/// Whether taking what `request` asks for from `items` leaves every count within `i32`.
fn fits_items(items: &HashMap<String, i32>, request: &Vec<(String, i32)>) -> (res: bool)
    ensures
        res == request_fits(items@, request.deep_view()),
{
    let ghost req = request.deep_view();
    let mut i: usize = 0;
    while i < request.len()
        invariant
            req == request.deep_view(),
            i <= request.len(),
            forall|j: int|
                0 <= j < i && has_text_key(items@, #[trigger] req[j].0) ==> i32::MIN <= text_value(
                    items@,
                    req[j].0,
                ) - req[j].1 <= i32::MAX,
        decreases request.len() - i,
    {
        let key = &request[i].0;
        let count = request[i].1;
        assert(req[i as int] == (key@, count));
        if let Some(current) = get_by_text(items, key.as_str()) {
            proof {
                lemma_text_reads_value(items@, key@, *current, *current);
                assert(has_text_key(items@, req[i as int].0));
            }
            if count < 0 {
                if *current > i32::MAX + count {
                    return false;
                }
            } else if *current < i32::MIN + count {
                return false;
            }
        }
        i = i + 1;
    }
    true
}

} // verus!
