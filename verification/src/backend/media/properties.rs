//! Properties that a player publishes on the bus.

use crate::text;
use vstd::prelude::*;

verus! {

/// The value of a property, as far as it is of use here.
pub enum PropValue {
    Text(String),
    Flag(bool),
    /// A list of texts.
    Texts(Vec<String>),
    /// Properties by name. Of several entries with one name the last counts.
    Dict(Vec<(String, PropValue)>),
    /// Anything else.
    Other,
}

/// The properties that a list of entries describes: each entry replaces the
/// earlier ones of its name.
pub open spec fn properties(list: Seq<(String, PropValue)>) -> Map<Seq<char>, PropValue>
    decreases list.len(),
{
    if list.len() == 0 {
        Map::empty()
    } else {
        properties(list.drop_last()).insert(list.last().0@, list.last().1)
    }
}

/// The text that a property holds, if it holds one.
pub open spec fn text_at(props: Map<Seq<char>, PropValue>, key: Seq<char>) -> Option<Seq<char>> {
    if props.dom().contains(key) {
        match props[key] {
            PropValue::Text(t) => Some(t@),
            _ => None,
        }
    } else {
        None
    }
}

/// The property is there and is true.
pub open spec fn flag_at(props: Map<Seq<char>, PropValue>, key: Seq<char>) -> bool {
    props.dom().contains(key) && props[key] == PropValue::Flag(true)
}

/// The entries whose name is among `keys`, in their order.
pub open spec fn among(list: Seq<(String, PropValue)>, keys: Seq<String>) -> Seq<
    (String, PropValue),
>
    decreases list.len(),
{
    if list.len() == 0 {
        Seq::empty()
    } else if named(keys, list.last().0@) {
        among(list.drop_last(), keys).push(list.last())
    } else {
        among(list.drop_last(), keys)
    }
}

/// `key` is among `keys`.
pub open spec fn named(keys: Seq<String>, key: Seq<char>) -> bool {
    exists|i: int| 0 <= i < keys.len() && (#[trigger] keys[i])@ == key
}

/// The entries of a list that may be missing.
pub open spec fn entries(list: Option<Vec<(String, PropValue)>>) -> Seq<(String, PropValue)> {
    match list {
        Some(l) => l@,
        None => Seq::empty(),
    }
}

/// The properties after a change was announced: the current ones, over them
/// those that the announcement carries, and over these the invalidated ones as
/// they were fetched again.
pub open spec fn after_change(
    all: Map<Seq<char>, PropValue>,
    changed: Map<Seq<char>, PropValue>,
    invalidated: Seq<String>,
    refetched: Map<Seq<char>, PropValue>,
) -> Map<Seq<char>, PropValue> {
    all.union_prefer_right(
        changed.union_prefer_right(
            refetched.restrict(Set::new(|key: Seq<char>| named(invalidated, key))),
        ),
    )
}

/// Entries that follow others replace those of the same names, and no others.
pub proof fn later_entries_win(a: Seq<(String, PropValue)>, b: Seq<(String, PropValue)>)
    ensures
        properties(a + b) == properties(a).union_prefer_right(properties(b)),
    decreases b.len(),
{
    if b.len() == 0 {
        assert(a + b =~= a);
        assert(properties(a).union_prefer_right(properties(b)) =~= properties(a));
    } else {
        later_entries_win(a, b.drop_last());
        assert((a + b).drop_last() =~= a + b.drop_last());
        assert((a + b).last() == b.last());
        assert(properties(a + b) =~= properties(a).union_prefer_right(properties(b)));
    }
}

proof fn lemma_among(list: Seq<(String, PropValue)>, keys: Seq<String>)
    ensures
        properties(among(list, keys)) == properties(list).restrict(
            Set::new(|key: Seq<char>| named(keys, key)),
        ),
    decreases list.len(),
{
    let chosen = Set::new(|key: Seq<char>| named(keys, key));
    if list.len() == 0 {
        assert(properties(list).restrict(chosen) =~= Map::empty());
    } else {
        lemma_among(list.drop_last(), keys);
        if named(keys, list.last().0@) {
            let head = among(list.drop_last(), keys);
            assert(head.push(list.last()).drop_last() =~= head);
            assert(head.push(list.last()).last() == list.last());
        }
        assert(properties(among(list, keys)) =~= properties(list).restrict(chosen));
    }
}

/// The value of a property.
pub fn find<'a>(list: &'a Vec<(String, PropValue)>, key: &str) -> (res: Option<&'a PropValue>)
    ensures
        match res {
            Some(v) => properties(list@).dom().contains(key@) && properties(list@)[key@] == *v,
            None => !properties(list@).dom().contains(key@),
        },
{
    let mut i: usize = list.len();
    assert(list@.take(i as int) =~= list@);
    while i > 0
        invariant
            i <= list.len(),
            properties(list@).dom().contains(key@) == properties(
                list@.take(i as int),
            ).dom().contains(key@),
            properties(list@).dom().contains(key@) ==> properties(list@)[key@] == properties(
                list@.take(i as int),
            )[key@],
        decreases i,
    {
        i = i - 1;
        assert(list@.take(i + 1).drop_last() =~= list@.take(i as int));
        if text::same_text(&list[i].0, key) {
            return Some(&list[i].1);
        }
    }
    None
}

/// The text that a property holds.
pub fn get_str(list: &Vec<(String, PropValue)>, key: &str) -> (res: Option<String>)
    ensures
        match res {
            Some(t) => text_at(properties(list@), key@) == Some(t@),
            None => text_at(properties(list@), key@) is None,
        },
{
    match find(list, key) {
        Some(PropValue::Text(t)) => Some(t.clone()),
        _ => None,
    }
}

/// Whether a property is there and is true.
pub fn get_bool(list: &Vec<(String, PropValue)>, key: &str) -> (res: bool)
    ensures
        res == flag_at(properties(list@), key@),
{
    match find(list, key) {
        Some(PropValue::Flag(b)) => *b,
        _ => false,
    }
}

fn has_name(keys: &Vec<String>, key: &str) -> (res: bool)
    ensures
        res == named(keys@, key@),
{
    let mut i: usize = 0;
    while i < keys.len()
        invariant
            i <= keys.len(),
            forall|k: int| 0 <= k < i ==> (#[trigger] keys@[k])@ != key@,
        decreases keys.len() - i,
    {
        if text::same_text(&keys[i], key) {
            return true;
        }
        i = i + 1;
    }
    false
}

/// The properties after a change was announced. `refetched` is there if some
/// were invalidated and could be fetched again.
pub fn merge_changes(
    all: Vec<(String, PropValue)>,
    changed: Vec<(String, PropValue)>,
    invalidated: &Vec<String>,
    refetched: Option<Vec<(String, PropValue)>>,
) -> (res: Vec<(String, PropValue)>)
    ensures
        properties(res@) == after_change(
            properties(all@),
            properties(changed@),
            invalidated@,
            properties(entries(refetched)),
        ),
{
    let ghost fresh = entries(refetched);
    let mut merged: Vec<(String, PropValue)> = changed;
    match refetched {
        Some(list) => {
            let mut rest: Vec<(String, PropValue)> = list;
            let ghost mut done: int = 0;
            assert(fresh.skip(0) =~= fresh);
            assert(fresh.take(0) =~= Seq::empty());
            assert(changed@ + Seq::<(String, PropValue)>::empty() =~= changed@);
            while rest.len() > 0
                invariant
                    0 <= done <= fresh.len(),
                    rest@ == fresh.skip(done),
                    merged@ == changed@ + among(fresh.take(done), invalidated@),
                decreases rest.len(),
            {
                let entry: (String, PropValue) = rest.remove(0);
                assert(fresh.take(done + 1).drop_last() =~= fresh.take(done));
                assert(fresh.skip(done + 1) =~= rest@);
                let ghost part = among(fresh.take(done), invalidated@);
                if has_name(invalidated, &entry.0) {
                    merged.push(entry);
                    assert((changed@ + part).push(entry) =~= changed@ + part.push(entry));
                }
                proof {
                    done = done + 1;
                }
            }
            assert(fresh.take(done) =~= fresh);
        },
        None => {
            assert(changed@ + among(fresh, invalidated@) =~= changed@);
        },
    }
    assert(merged@ == changed@ + among(fresh, invalidated@));
    proof {
        lemma_among(fresh, invalidated@);
        later_entries_win(changed@, among(fresh, invalidated@));
        later_entries_win(all@, merged@);
    }
    let mut res: Vec<(String, PropValue)> = all;
    res.append(&mut merged);
    res
}

/// After a change each property has its newest value: an invalidated one the value
/// that it was fetched with, else a changed one the announced value, and any other
/// the one that it had.
pub proof fn newest_values_win(
    all: Map<Seq<char>, PropValue>,
    changed: Map<Seq<char>, PropValue>,
    invalidated: Seq<String>,
    refetched: Map<Seq<char>, PropValue>,
    key: Seq<char>,
)
    ensures
        ({
            let now = after_change(all, changed, invalidated, refetched);
            let renewed = named(invalidated, key) && refetched.dom().contains(key);
            &&& renewed ==> now.dom().contains(key) && now[key] == refetched[key]
            &&& !renewed && changed.dom().contains(key) ==> now.dom().contains(key) && now[key]
                == changed[key]
            &&& !renewed && !changed.dom().contains(key) ==> now.dom().contains(key)
                == all.dom().contains(key) && (all.dom().contains(key) ==> now[key] == all[key])
        }),
{
}

/// The last entry of a name counts.
pub proof fn last_entries_count(list: Seq<(String, PropValue)>, i: int)
    requires
        0 <= i < list.len(),
        forall|k: int| i < k < list.len() ==> name_of(#[trigger] list[k]) != name_of(list[i]),
    ensures
        properties(list).dom().contains(name_of(list[i])),
        properties(list)[name_of(list[i])] == value_of(list[i]),
    decreases list.len(),
{
    if i < list.len() - 1 {
        let front = list.drop_last();
        assert forall|k: int| i < k < front.len() implies name_of(#[trigger] front[k]) != name_of(
            front[i],
        ) by {
            assert(front[k] == list[k]);
        }
        last_entries_count(front, i);
        assert(name_of(list[list.len() - 1]) != name_of(list[i]));
    }
}

/// The name and the value of an entry.
pub open spec fn name_of(entry: (String, PropValue)) -> Seq<char> {
    entry.0@
}

pub open spec fn value_of(entry: (String, PropValue)) -> PropValue {
    entry.1
}

} // verus!
