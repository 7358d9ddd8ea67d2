//! The map of frames under text keys: entries in ascending key order, one
//! per key.

use crate::frame::entries_view;
use crate::frame::entries_view_at;
use crate::frame::entry_views_upto;
use crate::frame::FrameView;
use crate::frame::RespFrame;
use crate::order::compare_bytes;
use crate::order::compare_keys;
use crate::order::key_order;
use crate::order::key_order_chains;
use crate::order::key_order_mirrors;
use crate::order::same_key_iff_equal;
use crate::order::KeyOrder;
use vstd::prelude::*;
use vstd::string::*;

verus! {

/// Frames under text keys. The entries are kept in ascending key order, one
/// per key.
#[derive(Debug, PartialEq)]
pub struct RespMap(Vec<(String, RespFrame)>);


/// The entries of a map after `key` is set to `value`: an entry under the
/// same key is replaced, otherwise the new entry goes behind the last entry
/// whose key comes before `key`.
pub open spec fn put(
    entries: Seq<(Seq<char>, FrameView)>,
    key: Seq<char>,
    value: FrameView,
) -> Seq<(Seq<char>, FrameView)>
    decreases entries.len(),
{
    if entries.len() == 0 {
        seq![(key, value)]
    } else {
        match key_order(entries.last().0, key) {
            KeyOrder::Before => entries.push((key, value)),
            KeyOrder::Same => entries.drop_last().push((key, value)),
            KeyOrder::After => put(entries.drop_last(), key, value).push(entries.last()),
        }
    }
}

/// Whether each key comes before every key behind it.
pub open spec fn ascending(entries: Seq<(Seq<char>, FrameView)>) -> bool {
    forall|i: int, j: int|
        0 <= i < j < entries.len() ==> key_order(
            (#[trigger] entries[i]).0,
            (#[trigger] entries[j]).0,
        ) == KeyOrder::Before
}

/// Whether every key of `entries` comes before `bound`.
pub open spec fn all_before(entries: Seq<(Seq<char>, FrameView)>, bound: Seq<char>) -> bool {
    forall|i: int|
        0 <= i < entries.len() ==> key_order((#[trigger] entries[i]).0, bound) == KeyOrder::Before
}

/// Where the first entry under `key` stands, searching from `from` on.
pub open spec fn find_key(entries: Seq<(Seq<char>, FrameView)>, key: Seq<char>, from: nat) -> Option<
    nat,
>
    decreases entries.len() - from,
{
    if from >= entries.len() {
        None
    } else if entries[from as int].0 == key {
        Some(from)
    } else {
        find_key(entries, key, from + 1)
    }
}

/// Setting a key that comes before `bound` keeps all keys before `bound`.
pub proof fn put_stays_before(
    entries: Seq<(Seq<char>, FrameView)>,
    key: Seq<char>,
    value: FrameView,
    bound: Seq<char>,
)
    requires
        all_before(entries, bound),
        key_order(key, bound) == KeyOrder::Before,
    ensures
        all_before(put(entries, key, value), bound),
    decreases entries.len(),
{
    if entries.len() > 0 {
        let rest = entries.drop_last();
        assert forall|i: int| 0 <= i < rest.len() implies key_order(
            (#[trigger] rest[i]).0,
            bound,
        ) == KeyOrder::Before by {
            assert(rest[i] == entries[i]);
        }
        if key_order(entries.last().0, key) == KeyOrder::After {
            put_stays_before(rest, key, value, bound);
        }
    }
}

/// Setting a key keeps ascending entries ascending.
pub proof fn put_keeps_ascending(
    entries: Seq<(Seq<char>, FrameView)>,
    key: Seq<char>,
    value: FrameView,
)
    requires
        ascending(entries),
    ensures
        ascending(put(entries, key, value)),
    decreases entries.len(),
{
    if entries.len() > 0 {
        let rest = entries.drop_last();
        let last = entries.last();
        let after = put(entries, key, value);
        assert forall|i: int| 0 <= i < rest.len() implies key_order(
            (#[trigger] rest[i]).0,
            last.0,
        ) == KeyOrder::Before by {
            assert(rest[i] == entries[i]);
        }
        assert(ascending(rest)) by {
            assert forall|i: int, j: int| 0 <= i < j < rest.len() implies key_order(
                (#[trigger] rest[i]).0,
                (#[trigger] rest[j]).0,
            ) == KeyOrder::Before by {
                assert(rest[i] == entries[i]);
                assert(rest[j] == entries[j]);
            }
        }
        match key_order(last.0, key) {
            KeyOrder::Before => {
                assert forall|i: int, j: int| 0 <= i < j < after.len() implies key_order(
                    (#[trigger] after[i]).0,
                    (#[trigger] after[j]).0,
                ) == KeyOrder::Before by {
                    if j == entries.len() {
                        if i < entries.len() - 1 {
                            assert(rest[i] == entries[i]);
                            key_order_chains(entries[i].0, last.0, key);
                        }
                    }
                }
            },
            KeyOrder::Same => {
                same_key_iff_equal(last.0, key);
                assert forall|i: int, j: int| 0 <= i < j < after.len() implies key_order(
                    (#[trigger] after[i]).0,
                    (#[trigger] after[j]).0,
                ) == KeyOrder::Before by {
                    assert(after[i] == rest[i]);
                    if j < rest.len() {
                        assert(after[j] == rest[j]);
                    }
                }
            },
            KeyOrder::After => {
                key_order_mirrors(key, last.0);
                put_keeps_ascending(rest, key, value);
                put_stays_before(rest, key, value, last.0);
                let inner = put(rest, key, value);
                assert forall|i: int, j: int| 0 <= i < j < after.len() implies key_order(
                    (#[trigger] after[i]).0,
                    (#[trigger] after[j]).0,
                ) == KeyOrder::Before by {
                    assert(after[i] == inner[i]);
                    if j < inner.len() {
                        assert(after[j] == inner[j]);
                    }
                }
            },
        }
    }
}

/// What stands at the end of entries with one more entry.
proof fn pushed(entries: Seq<(Seq<char>, FrameView)>, entry: (Seq<char>, FrameView))
    ensures
        entries.push(entry).len() == entries.len() + 1,
        entries.push(entry).last() == entry,
        entries.push(entry).drop_last() == entries,
{
    assert(entries.push(entry).drop_last() =~= entries);
}

/// What setting a key makes of entries whose last key is known to stand
/// before, at or after it.
proof fn put_by_last(entries: Seq<(Seq<char>, FrameView)>, key: Seq<char>, value: FrameView)
    requires
        entries.len() > 0,
    ensures
        key_order(entries.last().0, key) == KeyOrder::Before ==> put(entries, key, value)
            == entries.push((key, value)),
        key_order(entries.last().0, key) == KeyOrder::Same ==> put(entries, key, value)
            == entries.drop_last().push((key, value)),
        key_order(entries.last().0, key) == KeyOrder::After ==> put(entries, key, value) == put(
            entries.drop_last(),
            key,
            value,
        ).push(entries.last()),
{
}

/// **Insertion order does not matter.** Setting two different keys gives
/// the same entries whichever is set first.
pub proof fn put_commutes(
    entries: Seq<(Seq<char>, FrameView)>,
    a: Seq<char>,
    x: FrameView,
    b: Seq<char>,
    y: FrameView,
)
    requires
        ascending(entries),
        a != b,
    ensures
        put(put(entries, a, x), b, y) == put(put(entries, b, y), a, x),
    decreases entries.len(),
{
    same_key_iff_equal(a, b);
    key_order_mirrors(a, b);
    let with_a = put(entries, a, x);
    let with_b = put(entries, b, y);
    if entries.len() == 0 {
        assert(with_a =~= Seq::<(Seq<char>, FrameView)>::empty().push((a, x)));
        assert(with_b =~= Seq::<(Seq<char>, FrameView)>::empty().push((b, y)));
        pushed(Seq::empty(), (a, x));
        pushed(Seq::empty(), (b, y));
        put_by_last(with_a, b, y);
        put_by_last(with_b, a, x);
    } else {
        let last = entries.last();
        let rest = entries.drop_last();
        same_key_iff_equal(last.0, a);
        same_key_iff_equal(last.0, b);
        key_order_mirrors(last.0, a);
        key_order_mirrors(last.0, b);
        key_order_mirrors(a, last.0);
        key_order_mirrors(b, last.0);
        put_by_last(entries, a, x);
        put_by_last(entries, b, y);
        let order_a = key_order(last.0, a);
        let order_b = key_order(last.0, b);
        if order_a == KeyOrder::After && order_b == KeyOrder::After {
            assert(ascending(rest)) by {
                assert forall|i: int, j: int| 0 <= i < j < rest.len() implies key_order(
                    (#[trigger] rest[i]).0,
                    (#[trigger] rest[j]).0,
                ) == KeyOrder::Before by {
                    assert(rest[i] == entries[i]);
                    assert(rest[j] == entries[j]);
                }
            }
            put_commutes(rest, a, x, b, y);
            pushed(put(rest, a, x), last);
            pushed(put(rest, b, y), last);
            put_by_last(with_a, b, y);
            put_by_last(with_b, a, x);
        } else if order_a == KeyOrder::Before && order_b == KeyOrder::Before {
            pushed(entries, (a, x));
            pushed(entries, (b, y));
            put_by_last(with_a, b, y);
            put_by_last(with_b, a, x);
        } else if order_a == KeyOrder::Before && order_b == KeyOrder::Same {
            pushed(entries, (a, x));
            pushed(rest, (b, y));
            put_by_last(with_a, b, y);
            put_by_last(with_b, a, x);
        } else if order_a == KeyOrder::Same && order_b == KeyOrder::Before {
            pushed(entries, (b, y));
            pushed(rest, (a, x));
            put_by_last(with_a, b, y);
            put_by_last(with_b, a, x);
        } else if order_a == KeyOrder::Before && order_b == KeyOrder::After {
            key_order_chains(b, last.0, a);
            pushed(entries, (a, x));
            pushed(put(rest, b, y), last);
            put_by_last(with_a, b, y);
            put_by_last(with_b, a, x);
        } else if order_a == KeyOrder::After && order_b == KeyOrder::Before {
            key_order_chains(a, last.0, b);
            pushed(entries, (b, y));
            pushed(put(rest, a, x), last);
            put_by_last(with_a, b, y);
            put_by_last(with_b, a, x);
        } else if order_a == KeyOrder::Same && order_b == KeyOrder::After {
            pushed(rest, (a, x));
            pushed(put(rest, b, y), last);
            put_by_last(with_a, b, y);
            put_by_last(with_b, a, x);
        } else if order_a == KeyOrder::After && order_b == KeyOrder::Same {
            pushed(rest, (b, y));
            pushed(put(rest, a, x), last);
            put_by_last(with_a, b, y);
            put_by_last(with_b, a, x);
        }
    }
}

/// In ascending entries no key stands twice.
pub proof fn ascending_keys_differ(entries: Seq<(Seq<char>, FrameView)>, i: int, j: int)
    requires
        ascending(entries),
        0 <= i < j < entries.len(),
    ensures
        entries[i].0 != entries[j].0,
{
    same_key_iff_equal(entries[i].0, entries[j].0);
}

/// The view of a run with one more entry at its end.
proof fn entries_view_push(entries: Seq<(String, RespFrame)>, entry: (String, RespFrame))
    ensures
        entries_view(entries.push(entry)) == entries_view(entries).push((entry.0@, entry.1@)),
{
    entries_view_at(entries);
    entries_view_at(entries.push(entry));
    assert(entries_view(entries.push(entry)) =~= entries_view(entries).push((entry.0@, entry.1@)));
}

/// The view of a run without its last entry.
proof fn entries_view_drop_last(entries: Seq<(String, RespFrame)>)
    requires
        entries.len() > 0,
    ensures
        entries_view(entries.drop_last()) == entries_view(entries).drop_last(),
        entries_view(entries).last() == (entries.last().0@, entries.last().1@),
{
    entries_view_at(entries);
    entries_view_at(entries.drop_last());
    assert(entries_view(entries.drop_last()) =~= entries_view(entries).drop_last());
}

/// Sets `key` to `value` in entries held in ascending order. The entries
/// behind the key's place are set aside and put back, so the work is done
/// in place and without recursion.
fn put_entry(entries: &mut Vec<(String, RespFrame)>, key: String, value: RespFrame)
    ensures
        entries_view(final(entries)@) == put(entries_view(old(entries)@), key@, value@),
{
    let ghost goal = put(entries_view(entries@), key@, value@);
    let mut aside: Vec<(String, RespFrame)> = Vec::new();
    let mut placed: bool = false;
    proof {
        entries_view_at(aside@);
        assert(entries_view(aside@).reverse() =~= Seq::<(Seq<char>, FrameView)>::empty());
        assert(put(entries_view(entries@), key@, value@) + entries_view(aside@).reverse() =~= goal);
    }
    while !placed
        invariant
            !placed ==> goal == put(entries_view(entries@), key@, value@) + entries_view(
                aside@,
            ).reverse(),
            placed ==> goal == entries_view(entries@).push((key@, value@)) + entries_view(
                aside@,
            ).reverse(),
        decreases entries@.len() + (if placed { 0int } else { 1int }),
    {
        let ghost held = entries@;
        let ghost apart = aside@;
        match entries.pop() {
            None => {
                proof {
                    entries_view_at(held);
                    assert(entries_view(held) =~= Seq::<(Seq<char>, FrameView)>::empty());
                    assert(put(entries_view(held), key@, value@) =~= entries_view(held).push(
                        (key@, value@),
                    ));
                }
                placed = true;
            },
            Some(last) => {
                proof {
                    entries_view_drop_last(held);
                }
                match compare_keys(&last.0, &key) {
                    KeyOrder::Before => {
                        entries.push(last);
                        proof {
                            assert(entries@ =~= held);
                        }
                        placed = true;
                    },
                    KeyOrder::Same => {
                        placed = true;
                    },
                    KeyOrder::After => {
                        proof {
                            entries_view_push(apart, last);
                            let rest = put(entries_view(entries@), key@, value@);
                            let back = entries_view(apart).reverse();
                            assert(entries_view(apart.push(last)).reverse() =~= seq![
                                (last.0@, last.1@),
                            ] + back);
                            assert(rest.push((last.0@, last.1@)) + back =~= rest + (seq![
                                (last.0@, last.1@),
                            ] + back));
                        }
                        aside.push(last);
                    },
                }
            },
        }
    }
    proof {
        entries_view_push(entries@, (key, value));
    }
    entries.push((key, value));
    while aside.len() > 0
        invariant
            goal == entries_view(entries@) + entries_view(aside@).reverse(),
        decreases aside@.len(),
    {
        let ghost held = entries@;
        let ghost apart = aside@;
        let entry = aside.pop().unwrap();
        proof {
            entries_view_drop_last(apart);
            entries_view_push(held, entry);
            let back = entries_view(aside@).reverse();
            assert(entries_view(apart).reverse() =~= seq![(entry.0@, entry.1@)] + back);
            assert(entries_view(held).push((entry.0@, entry.1@)) + back =~= entries_view(held)
                + (seq![(entry.0@, entry.1@)] + back));
        }
        entries.push(entry);
    }
    proof {
        entries_view_at(aside@);
        assert(entries_view(aside@).reverse() =~= Seq::<(Seq<char>, FrameView)>::empty());
        assert(entries_view(entries@) + entries_view(aside@).reverse() =~= entries_view(entries@));
    }
}

impl RespMap {
    /// The entries, in the order in which they are encoded.
    pub closed spec fn entries(&self) -> Seq<(Seq<char>, FrameView)>
        decreases self,
    {
        entry_views_upto(self.0@, self.0@.len())
    }

    #[verifier::type_invariant]
    closed spec fn ordered(&self) -> bool {
        ascending(entries_view(self.0@))
    }

    pub fn new() -> (made: Self)
        ensures
            made.entries() == Seq::<(Seq<char>, FrameView)>::empty(),
    {
        proof {
            entries_view_at(Seq::<(String, RespFrame)>::empty());
        }
        RespMap(Vec::new())
    }

    /// The frame under `key`, if there is one.
    pub fn get(&self, key: &str) -> (found: Option<&RespFrame>)
        ensures
            match find_key(self.entries(), key@, 0) {
                Some(at) => found is Some && found->Some_0@ == self.entries()[at as int].1,
                None => found is None,
            },
    {
        proof {
            entries_view_at(self.0@);
        }
        let mut i: usize = 0;
        while i < self.0.len()
            invariant
                i <= self.0@.len(),
                entries_view(self.0@).len() == self.0@.len(),
                forall|k: int|
                    0 <= k < self.0@.len() ==> (#[trigger] entries_view(self.0@)[k]) == (
                        self.0@[k].0@,
                        self.0@[k].1@,
                    ),
                find_key(entries_view(self.0@), key@, 0) == find_key(
                    entries_view(self.0@),
                    key@,
                    i as nat,
                ),
            decreases self.0@.len() - i,
        {
            let order = compare_bytes(self.0[i].0.as_str().as_bytes(), key.as_bytes());
            proof {
                same_key_iff_equal(self.0@[i as int].0@, key@);
                assert(entries_view(self.0@)[i as int].0 == self.0@[i as int].0@);
            }
            match order {
                KeyOrder::Same => {
                    return Some(&self.0[i].1);
                },
                _ => {},
            }
            i = i + 1;
        }
        None
    }

    /// The number of entries. The entries of every map ascend by key.
    pub fn len(&self) -> (n: usize)
        ensures
            n == self.entries().len(),
            ascending(self.entries()),
    {
        proof {
            use_type_invariant(self);
            entries_view_at(self.0@);
        }
        self.0.len()
    }

    /// Sets `key` to `value`, replacing what stood under `key`.
    pub fn insert(&mut self, key: String, value: RespFrame)
        ensures
            final(self).entries() == put(old(self).entries(), key@, value@),
            ascending(final(self).entries()),
    {
        proof {
            use_type_invariant(&*self);
            put_keeps_ascending(self.entries(), key@, value@);
            entries_view_at(Seq::<(String, RespFrame)>::empty());
        }
        let mut taken = RespMap(Vec::new());
        core::mem::swap(self, &mut taken);
        let mut entries = taken.0;
        put_entry(&mut entries, key, value);
        *self = RespMap(entries);
    }

    /// A copy of this map, equal to it through and through.
    pub fn duplicate(&self) -> (copy: RespMap)
        ensures
            copy.entries() == self.entries(),
        decreases self.entries(), 1nat,
    {
        proof {
            use_type_invariant(self);
        }
        RespMap(duplicate_entries(&self.0))
    }

    /// The entries as they are held, in ascending key order.
    pub fn as_entries(&self) -> (held: &Vec<(String, RespFrame)>)
        ensures
            entries_view(held@) == self.entries(),
            ascending(self.entries()),
    {
        proof {
            use_type_invariant(self);
        }
        &self.0
    }

    /// The key of the entry at `index`.
    pub fn key_at(&self, index: usize) -> (key: &String)
        requires
            index < self.entries().len(),
        ensures
            key@ == self.entries()[index as int].0,
    {
        proof {
            entries_view_at(self.0@);
        }
        &self.0[index].0
    }

    /// The frame of the entry at `index`.
    pub fn value_at(&self, index: usize) -> (value: &RespFrame)
        requires
            index < self.entries().len(),
        ensures
            value@ == self.entries()[index as int].1,
    {
        proof {
            entries_view_at(self.0@);
        }
        &self.0[index].1
    }
}

/// A copy of a run of keyed frames.
fn duplicate_entries(entries: &Vec<(String, RespFrame)>) -> (copy: Vec<(String, RespFrame)>)
    ensures
        entries_view(copy@) == entries_view(entries@),
    decreases entries_view(entries@), 0nat,
{
    let mut copy: Vec<(String, RespFrame)> = Vec::new();
    proof {
        entries_view_at(entries@);
    }
    let mut i: usize = 0;
    while i < entries.len()
        invariant
            i <= entries.len(),
            copy@.len() == i,
            entries_view(entries@).len() == entries@.len(),
            forall|k: int|
                0 <= k < entries@.len() ==> (#[trigger] entries_view(entries@)[k]) == (
                    entries@[k].0@,
                    entries@[k].1@,
                ),
            forall|k: int|
                0 <= k < i ==> (#[trigger] copy@[k]).0@ == entries@[k].0@ && copy@[k].1@
                    == entries@[k].1@,
        decreases entries.len() - i,
    {
        proof {
            assert(entries_view(entries@)[i as int].1 == entries@[i as int].1@);
        }
        let key = entries[i].0.clone();
        let value = entries[i].1.duplicate();
        copy.push((key, value));
        i = i + 1;
    }
    proof {
        entries_view_at(copy@);
        assert(entries_view(copy@) =~= entries_view(entries@));
    }
    copy
}

impl Clone for RespMap {
    fn clone(&self) -> (copy: Self)
        ensures
            copy.entries() == self.entries(),
    {
        self.duplicate()
    }
}

} // verus!
