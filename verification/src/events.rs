//! The handlers that a room's script registers for events (`RegisterEvent`,
//! `UnregisterEvent`).
use vstd::prelude::*;
use crate::text::str_eq;

verus! {

/// A handler that a script registered: its id and what the script handed over to be
/// called.
pub struct EventHandler<F> {
    pub id: i32,
    pub func_key: F,
}

/// The handlers of a room, by event name, each list in the order of registration.
pub struct EventHandlers<F> {
    entries: Vec<(String, Vec<EventHandler<F>>)>,
}

/// The handlers that `entries` holds under the name `name` (none where no entry has it).
pub open spec fn list_in<F>(entries: Seq<(String, Vec<EventHandler<F>>)>, name: Seq<char>) -> Seq<EventHandler<F>>
    decreases entries.len(),
{
    if entries.len() == 0 {
        Seq::empty()
    } else if entries.last().0@ == name {
        entries.last().1@
    } else {
        list_in(entries.drop_last(), name)
    }
}

/// Whether no two entries carry the same name.
pub open spec fn names_distinct<F>(entries: Seq<(String, Vec<EventHandler<F>>)>) -> bool {
    forall|i: int, j: int| 0 <= i < j < entries.len() ==> entries[i].0@ != entries[j].0@
}

/// Whether the handler does not have the id `id`.
pub open spec fn other_id<F>(id: i32) -> spec_fn(EventHandler<F>) -> bool {
    |h: EventHandler<F>| h.id != id
}

/// An entry with the name `name` holds what `list_in` finds under it.
proof fn lemma_list_at<F>(entries: Seq<(String, Vec<EventHandler<F>>)>, i: int)
    requires
        names_distinct(entries),
        0 <= i < entries.len(),
    ensures
        list_in(entries, entries[i].0@) == entries[i].1@,
    decreases entries.len(),
{
    if i < entries.len() - 1 {
        assert(entries.drop_last()[i] == entries[i]);
        lemma_list_at(entries.drop_last(), i);
    }
}

/// Where no entry has the name `name`, nothing is found under it.
proof fn lemma_list_absent<F>(entries: Seq<(String, Vec<EventHandler<F>>)>, name: Seq<char>)
    requires
        forall|i: int| 0 <= i < entries.len() ==> entries[i].0@ != name,
    ensures
        list_in(entries, name) == Seq::<EventHandler<F>>::empty(),
    decreases entries.len(),
{
    if entries.len() > 0 {
        assert(entries.last() == entries[entries.len() - 1]);
        lemma_list_absent(entries.drop_last(), name);
    }
}

/// Replacing the handlers of entry `i` changes what is found under its name only.
proof fn lemma_list_update<F>(
    entries: Seq<(String, Vec<EventHandler<F>>)>,
    i: int,
    list: Vec<EventHandler<F>>,
    name: Seq<char>,
)
    requires
        names_distinct(entries),
        0 <= i < entries.len(),
    ensures
        list_in(entries.update(i, (entries[i].0, list)), name) == (if name == entries[i].0@ {
            list@
        } else {
            list_in(entries, name)
        }),
    decreases entries.len(),
{
    let updated = entries.update(i, (entries[i].0, list));
    if i == entries.len() - 1 {
        assert(updated.drop_last() =~= entries.drop_last());
        if name != entries[i].0@ {
            assert(updated.last() == (entries[i].0, list));
        }
    } else {
        assert(updated.drop_last() =~= entries.drop_last().update(i, (entries[i].0, list)));
        assert(entries.drop_last()[i] == entries[i]);
        lemma_list_update(entries.drop_last(), i, list, name);
    }
}

/// Filtering every entry's handlers filters what is found under each name.
proof fn lemma_list_filtered<F>(
    before: Seq<(String, Vec<EventHandler<F>>)>,
    after: Seq<(String, Vec<EventHandler<F>>)>,
    id: i32,
    name: Seq<char>,
)
    requires
        after.len() == before.len(),
        forall|j: int|
            0 <= j < before.len() ==> #[trigger] after[j].0 == before[j].0 && after[j].1@
                == before[j].1@.filter(other_id(id)),
    ensures
        list_in(after, name) == list_in(before, name).filter(other_id(id)),
    decreases before.len(),
{
    if before.len() == 0 {
        reveal(Seq::filter);
    } else {
        let n = before.len() - 1;
        assert(after[n].0 == before[n].0);
        assert forall|j: int| 0 <= j < before.drop_last().len() implies #[trigger] after.drop_last()[j].0
            == before.drop_last()[j].0 && after.drop_last()[j].1@ == before.drop_last()[j].1@.filter(
            other_id(id),
        ) by {
            assert(after.drop_last()[j] == after[j]);
            assert(before.drop_last()[j] == before[j]);
        }
        lemma_list_filtered(before.drop_last(), after.drop_last(), id, name);
    }
}

/// Filtering out an id that no handler has keeps every handler.
proof fn lemma_filter_fresh<F>(s: Seq<EventHandler<F>>, id: i32)
    requires
        forall|k: int| 0 <= k < s.len() ==> #[trigger] s[k].id != id,
    ensures
        s.filter(other_id(id)) == s,
    decreases s.len(),
{
    reveal(Seq::filter);
    if s.len() > 0 {
        assert forall|k: int| 0 <= k < s.drop_last().len() implies #[trigger] s.drop_last()[k].id
            != id by {
            assert(s.drop_last()[k] == s[k]);
        }
        lemma_filter_fresh(s.drop_last(), id);
        assert(s.last() == s[s.len() - 1]);
        assert(s.drop_last().push(s.last()) =~= s);
    }
}

/// Unregistering the id of a handler just registered, an id that no other handler had,
/// gives back the handlers as they were before the registration, for every event.
pub proof fn lemma_unregister_undoes_register<F>(
    before: EventHandlers<F>,
    registered: EventHandlers<F>,
    after: EventHandlers<F>,
    name: Seq<char>,
    handler: EventHandler<F>,
)
    requires
        forall|n: Seq<char>, k: int|
            0 <= k < before.handlers_of(n).len() ==> #[trigger] before.handlers_of(n)[k].id
                != handler.id,
        registered.handlers_of(name) == before.handlers_of(name).push(handler),
        forall|n: Seq<char>| n != name ==> #[trigger] registered.handlers_of(n) == before.handlers_of(n),
        forall|n: Seq<char>| #[trigger]
            after.handlers_of(n) == registered.handlers_of(n).filter(other_id(handler.id)),
    ensures
        forall|n: Seq<char>| #[trigger] after.handlers_of(n) == before.handlers_of(n),
{
    assert forall|n: Seq<char>| #[trigger] after.handlers_of(n) == before.handlers_of(n) by {
        let s = before.handlers_of(n);
        assert forall|k: int| 0 <= k < s.len() implies #[trigger] s[k].id != handler.id by {
            assert(before.handlers_of(n)[k] == s[k]);
        }
        lemma_filter_fresh(s, handler.id);
        if n == name {
            s.lemma_filter_push(handler, other_id(handler.id));
        }
    }
}

/// The index of the entry named `name`, if there is one.
fn find_entry<F>(entries: &Vec<(String, Vec<EventHandler<F>>)>, name: &str) -> (res: Option<usize>)
    ensures
        match res {
            Some(i) => i < entries@.len() && entries@[i as int].0@ == name@,
            None => forall|i: int| 0 <= i < entries@.len() ==> entries@[i].0@ != name@,
        },
{
    let mut i: usize = 0;
    while i < entries.len()
        invariant
            i <= entries@.len(),
            forall|j: int| 0 <= j < i ==> entries@[j].0@ != name@,
        decreases entries@.len() - i,
    {
        if str_eq(entries[i].0.as_str(), name) {
            return Some(i);
        }
        i = i + 1;
    }
    None
}

/// Adds `handler` at the end of the handlers of event `name`.
fn register_in<F>(entries: &mut Vec<(String, Vec<EventHandler<F>>)>, name: String, handler: EventHandler<F>)
    requires
        names_distinct(old(entries)@),
    ensures
        names_distinct(final(entries)@),
        list_in(final(entries)@, name@) == list_in(old(entries)@, name@).push(handler),
        forall|other: Seq<char>|
            other != name@ ==> #[trigger] list_in(final(entries)@, other) == list_in(old(entries)@, other),
{
    let ghost before = entries@;
    match find_entry(entries, name.as_str()) {
        Some(i) => {
            proof {
                lemma_list_at(before, i as int);
            }
            let (entry_name, mut list) = entries.remove(i);
            list.push(handler);
            entries.insert(i, (entry_name, list));
            proof {
                assert(entries@ =~= before.update(i as int, (before[i as int].0, list)));
                assert forall|other: Seq<char>| #[trigger]
                    list_in(entries@, other) == (if other == before[i as int].0@ {
                        list@
                    } else {
                        list_in(before, other)
                    }) by {
                    lemma_list_update(before, i as int, list, other);
                }
            }
        },
        None => {
            let ghost key = name@;
            let list: Vec<EventHandler<F>> = vec![handler];
            entries.push((name, list));
            proof {
                lemma_list_absent(before, key);
                assert(entries@.drop_last() =~= before);
                assert(list@ =~= Seq::<EventHandler<F>>::empty().push(handler));
            }
        },
    }
}

/// Removes the handlers with id `id` from every event.
fn unregister_in<F>(entries: &mut Vec<(String, Vec<EventHandler<F>>)>, id: i32)
    requires
        names_distinct(old(entries)@),
    ensures
        names_distinct(final(entries)@),
        forall|name: Seq<char>| #[trigger]
            list_in(final(entries)@, name) == list_in(old(entries)@, name).filter(other_id(id)),
{
    let ghost before = entries@;
    let mut i: usize = 0;
    while i < entries.len()
        invariant
            entries@.len() == before.len(),
            i <= before.len(),
            names_distinct(before),
            forall|j: int|
                0 <= j < i ==> #[trigger] entries@[j].0 == before[j].0 && entries@[j].1@
                    == before[j].1@.filter(other_id(id)),
            forall|j: int| i <= j < before.len() ==> #[trigger] entries@[j] == before[j],
        decreases before.len() - i,
    {
        let ghost prev = entries@;
        let (entry_name, list) = entries.remove(i);
        let mut kept: Vec<EventHandler<F>> = Vec::new();
        let ghost old_list = list@;
        assert(list@ == before[i as int].1@);
        let mut rest = list;
        assert(kept@ =~= old_list.take(0).filter(other_id(id))) by {
            reveal(Seq::filter);
        }
        while rest.len() > 0
            invariant
                rest@.len() <= old_list.len(),
                rest@ == old_list.skip(old_list.len() - rest@.len()),
                kept@ == old_list.take(old_list.len() - rest@.len()).filter(other_id(id)),
            decreases rest@.len(),
        {
            let ghost taken = old_list.len() - rest@.len();
            let h = rest.remove(0);
            assert(h == old_list[taken]);
            assert(old_list.take(taken + 1) =~= old_list.take(taken).push(h));
            assert(rest@ =~= old_list.skip(taken + 1));
            proof {
                old_list.take(taken).lemma_filter_push(h, other_id(id));
            }
            if h.id != id {
                kept.push(h);
            }
        }
        assert(old_list.take(old_list.len() as int) =~= old_list);
        let ghost entry = (entry_name, kept);
        entries.insert(i, (entry_name, kept));
        assert(entries@ =~= prev.update(i as int, entry));
        assert(kept@ == old_list.filter(other_id(id)));
        assert(entries@[i as int].0 == before[i as int].0);
        assert(entries@[i as int].1@ == before[i as int].1@.filter(other_id(id)));
        i = i + 1;
    }
    proof {
        assert forall|a: int, b: int| 0 <= a < b < entries@.len() implies entries@[a].0@
            != entries@[b].0@ by {
            assert(entries@[a].0 == before[a].0);
            assert(entries@[b].0 == before[b].0);
        }
        assert forall|name: Seq<char>| #[trigger]
            list_in(entries@, name) == list_in(before, name).filter(other_id(id)) by {
            lemma_list_filtered(before, entries@, id, name);
        }
    }
}

impl<F> EventHandlers<F> {
    /// The handlers registered under the event name `name`, in order of registration.
    pub closed spec fn handlers_of(self, name: Seq<char>) -> Seq<EventHandler<F>> {
        list_in(self.entries@, name)
    }

    /// Each event name has one list.
    #[verifier::type_invariant]
    spec fn wf(self) -> bool {
        names_distinct(self.entries@)
    }

    /// A registry with no handlers.
    pub fn new() -> (res: Self)
        ensures
            forall|name: Seq<char>| #[trigger] res.handlers_of(name) == Seq::<EventHandler<F>>::empty(),
    {
        EventHandlers { entries: Vec::new() }
    }

    /// `RegisterEvent`: adds `handler` at the end of the handlers of event `name`.
    pub fn register(&mut self, name: String, handler: EventHandler<F>)
        ensures
            final(self).handlers_of(name@) == old(self).handlers_of(name@).push(handler),
            forall|other: Seq<char>|
                other != name@ ==> #[trigger] final(self).handlers_of(other) == old(self).handlers_of(
                    other,
                ),
    {
        proof {
            use_type_invariant(&*self);
        }
        let mut entries = Vec::new();
        std::mem::swap(&mut entries, &mut self.entries);
        register_in(&mut entries, name, handler);
        self.entries = entries;
    }

    /// `UnregisterEvent`: removes the handlers with id `id` from every event.
    pub fn unregister(&mut self, id: i32)
        ensures
            forall|name: Seq<char>| #[trigger]
                final(self).handlers_of(name) == old(self).handlers_of(name).filter(other_id(id)),
    {
        proof {
            use_type_invariant(&*self);
        }
        let mut entries = Vec::new();
        std::mem::swap(&mut entries, &mut self.entries);
        unregister_in(&mut entries, id);
        self.entries = entries;
    }

    /// The ids of the handlers of event `name`, in order of registration.
    pub fn handler_ids(&self, name: &str) -> (res: Vec<i32>)
        ensures
            res@ == self.handlers_of(name@).map_values(|h: EventHandler<F>| h.id),
    {
        proof {
            use_type_invariant(self);
        }
        let mut out: Vec<i32> = Vec::new();
        match find_entry(&self.entries, name) {
            None => {
                proof {
                    lemma_list_absent(self.entries@, name@);
                }
                assert(out@ =~= self.handlers_of(name@).map_values(|h: EventHandler<F>| h.id));
            },
            Some(i) => {
                proof {
                    lemma_list_at(self.entries@, i as int);
                }
                let list = &self.entries[i].1;
                let mut j: usize = 0;
                while j < list.len()
                    invariant
                        j <= list@.len(),
                        out@ =~= list@.take(j as int).map_values(|h: EventHandler<F>| h.id),
                    decreases list@.len() - j,
                {
                    out.push(list[j].id);
                    assert(list@.take(j + 1) =~= list@.take(j as int).push(list@[j as int]));
                    j = j + 1;
                }
                assert(list@.take(j as int) =~= list@);
            },
        }
        out
    }
}

} // verus!
