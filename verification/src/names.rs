//! Maps from names to values, kept in the order of the names.
use crate::text::{lemma_text_lt_irreflexive, lemma_text_lt_total, lemma_text_lt_transitive, same_text, text_lt, text_precedes};
use crate::text::Duplicate;
use vstd::prelude::*;

verus! {

broadcast use {vstd::seq::group_seq_axioms, vstd::seq_lib::group_seq_properties};

/// Whether the names of `entries` strictly increase.
pub open spec fn names_increase<W>(entries: Seq<(Seq<char>, W)>) -> bool {
    forall|i: int, j: int|
        0 <= i < j < entries.len() ==> text_lt(#[trigger] entries[i].0, #[trigger] entries[j].0)
}

/// What `entries` holds under `name`.
pub open spec fn find<W>(entries: Seq<(Seq<char>, W)>, name: Seq<char>) -> Option<W>
    decreases entries.len(),
{
    if entries.len() == 0 {
        None
    } else if entries[0].0 == name {
        Some(entries[0].1)
    } else {
        find(entries.drop_first(), name)
    }
}

/// `entries` with `value` put under `name`: at its place in the order, in the
/// stead of what stood under that name.
pub open spec fn put<W>(entries: Seq<(Seq<char>, W)>, name: Seq<char>, value: W) -> Seq<(Seq<char>, W)>
    decreases entries.len(),
{
    if entries.len() == 0 {
        seq![(name, value)]
    } else if entries[0].0 == name {
        seq![(name, value)] + entries.drop_first()
    } else if text_lt(name, entries[0].0) {
        seq![(name, value)] + entries
    } else {
        seq![entries[0]] + put(entries.drop_first(), name, value)
    }
}

/// The entries that result from putting `values[i]` under `names[i]`, one
/// after the other, as long as there are both.
pub open spec fn bind_all<W>(names: Seq<Seq<char>>, values: Seq<W>) -> Seq<(Seq<char>, W)>
    decreases names.len(),
{
    if names.len() == 0 {
        Seq::empty()
    } else if names.len() <= values.len() {
        put(bind_all(names.drop_last(), values), names.last(), values[names.len() - 1])
    } else {
        bind_all(names.drop_last(), values)
    }
}

/// An entry that is there is found.
pub proof fn lemma_find_at<W>(entries: Seq<(Seq<char>, W)>, i: int)
    requires
        names_increase(entries),
        0 <= i < entries.len(),
    ensures
        find(entries, entries[i].0) == Some(entries[i].1),
    decreases entries.len(),
{
    if i > 0 {
        lemma_text_lt_irreflexive(entries[i].0);
        assert(text_lt(entries[0].0, entries[i].0));
        lemma_find_at(entries.drop_first(), i - 1);
    }
}

/// A name that no entry has is not found.
pub proof fn lemma_find_none<W>(entries: Seq<(Seq<char>, W)>, name: Seq<char>)
    requires
        forall|i: int| 0 <= i < entries.len() ==> (#[trigger] entries[i]).0 != name,
    ensures
        find(entries, name) is None,
    decreases entries.len(),
{
    if entries.len() > 0 {
        assert forall|i: int| 0 <= i < entries.drop_first().len() implies (
        #[trigger] entries.drop_first()[i]).0 != name by {
            assert(entries.drop_first()[i] == entries[i + 1]);
        }
        lemma_find_none(entries.drop_first(), name);
    }
}

/// What is found stands in some entry.
pub proof fn lemma_find_some<W>(entries: Seq<(Seq<char>, W)>, name: Seq<char>) -> (i: int)
    requires
        find(entries, name) is Some,
    ensures
        0 <= i < entries.len(),
        entries[i].0 == name,
        find(entries, name) == Some(entries[i].1),
    decreases entries.len(),
{
    if entries[0].0 == name {
        0
    } else {
        lemma_find_some(entries.drop_first(), name) + 1
    }
}

/// `put` where the place is known: nothing before `at` reaches the name, and
/// everything from `at` on lies past it.
proof fn lemma_put_new<W>(entries: Seq<(Seq<char>, W)>, name: Seq<char>, value: W, at: int)
    requires
        0 <= at <= entries.len(),
        forall|i: int| 0 <= i < at ==> text_lt((#[trigger] entries[i]).0, name),
        at < entries.len() ==> text_lt(name, entries[at].0),
    ensures
        put(entries, name, value) == entries.insert(at, (name, value)),
    decreases at,
{
    lemma_text_lt_irreflexive(name);
    if at == 0 {
        assert(put(entries, name, value) =~= entries.insert(0, (name, value)));
    } else {
        assert(text_lt(entries[0].0, name));
        if text_lt(name, entries[0].0) {
            lemma_text_lt_transitive(name, entries[0].0, name);
        }
        let rest = entries.drop_first();
        assert forall|i: int| 0 <= i < at - 1 implies text_lt((#[trigger] rest[i]).0, name) by {
            assert(rest[i] == entries[i + 1]);
        }
        lemma_put_new(rest, name, value, at - 1);
        assert(put(entries, name, value) =~= entries.insert(at, (name, value)));
    }
}

/// `put` where the name is already there.
proof fn lemma_put_old<W>(entries: Seq<(Seq<char>, W)>, name: Seq<char>, value: W, at: int)
    requires
        0 <= at < entries.len(),
        entries[at].0 == name,
        forall|i: int| 0 <= i < at ==> text_lt((#[trigger] entries[i]).0, name),
    ensures
        put(entries, name, value) == entries.update(at, (name, value)),
    decreases at,
{
    lemma_text_lt_irreflexive(name);
    if at == 0 {
        assert(put(entries, name, value) =~= entries.update(0, (name, value)));
    } else {
        assert(text_lt(entries[0].0, name));
        if text_lt(name, entries[0].0) {
            lemma_text_lt_transitive(name, entries[0].0, name);
        }
        let rest = entries.drop_first();
        assert forall|i: int| 0 <= i < at - 1 implies text_lt((#[trigger] rest[i]).0, name) by {
            assert(rest[i] == entries[i + 1]);
        }
        lemma_put_old(rest, name, value, at - 1);
        assert(put(entries, name, value) =~= entries.update(at, (name, value)));
    }
}

/// A name that all others precede goes to the end.
pub proof fn lemma_put_last<W>(entries: Seq<(Seq<char>, W)>, name: Seq<char>, value: W)
    requires
        forall|i: int| 0 <= i < entries.len() ==> text_lt((#[trigger] entries[i]).0, name),
    ensures
        put(entries, name, value) == entries.push((name, value)),
{
    lemma_put_new(entries, name, value, entries.len() as int);
    assert(entries.insert(entries.len() as int, (name, value)) =~= entries.push((name, value)));
}

/// Putting a value keeps the names in order.
pub proof fn lemma_put_increases<W>(entries: Seq<(Seq<char>, W)>, name: Seq<char>, value: W)
    requires
        names_increase(entries),
    ensures
        names_increase(put(entries, name, value)),
        forall|i: int|
            0 <= i < put(entries, name, value).len() ==> (#[trigger] put(entries, name, value)[i]).0
                == name || exists|j: int|
                0 <= j < entries.len() && (#[trigger] entries[j]) == put(entries, name, value)[i],
    decreases entries.len(),
{
    let out = put(entries, name, value);
    if entries.len() == 0 {
    } else if entries[0].0 == name {
        assert forall|i: int| 0 <= i < out.len() implies (#[trigger] out[i]).0 == name || exists|
            j: int,
        |
            0 <= j < entries.len() && (#[trigger] entries[j]) == out[i] by {
            if i > 0 {
                assert(entries[i] == out[i]);
            }
        }
        assert forall|i: int, j: int| 0 <= i < j < out.len() implies text_lt(
            (#[trigger] out[i]).0,
            (#[trigger] out[j]).0,
        ) by {
            assert(out[i].0 == entries[i].0 && out[j].0 == entries[j].0);
        }
    } else if text_lt(name, entries[0].0) {
        assert forall|i: int, j: int| 0 <= i < j < out.len() implies text_lt(
            (#[trigger] out[i]).0,
            (#[trigger] out[j]).0,
        ) by {
            assert(out[j] == entries[j - 1]);
            if i == 0 {
                if j > 1 {
                    lemma_text_lt_transitive(name, entries[0].0, entries[j - 1].0);
                }
            } else {
                assert(out[i] == entries[i - 1]);
            }
        }
        assert forall|i: int| 0 <= i < out.len() implies (#[trigger] out[i]).0 == name || exists|
            j: int,
        |
            0 <= j < entries.len() && (#[trigger] entries[j]) == out[i] by {
            if i > 0 {
                assert(entries[i - 1] == out[i]);
            }
        }
    } else {
        let rest = entries.drop_first();
        assert forall|i: int, j: int| 0 <= i < j < rest.len() implies text_lt(
            (#[trigger] rest[i]).0,
            (#[trigger] rest[j]).0,
        ) by {
            assert(rest[i] == entries[i + 1] && rest[j] == entries[j + 1]);
        }
        lemma_put_increases(rest, name, value);
        let tail = put(rest, name, value);
        lemma_text_lt_total(entries[0].0, name);
        assert forall|i: int| 0 <= i < out.len() implies (#[trigger] out[i]).0 == name || exists|
            j: int,
        |
            0 <= j < entries.len() && (#[trigger] entries[j]) == out[i] by {
            if i == 0 {
                assert(entries[0] == out[0]);
            } else {
                assert(out[i] == tail[i - 1]);
                if tail[i - 1].0 != name {
                    let j = choose|j: int| 0 <= j < rest.len() && (#[trigger] rest[j]) == tail[i - 1];
                    assert(entries[j + 1] == out[i]);
                }
            }
        }
        assert forall|i: int, j: int| 0 <= i < j < out.len() implies text_lt(
            (#[trigger] out[i]).0,
            (#[trigger] out[j]).0,
        ) by {
            assert(out[j] == tail[j - 1]);
            if i == 0 {
                if tail[j - 1].0 != name {
                    let k = choose|k: int| 0 <= k < rest.len() && (#[trigger] rest[k]) == tail[j - 1];
                    assert(entries[k + 1] == tail[j - 1]);
                }
            } else {
                assert(out[i] == tail[i - 1]);
            }
        }
    }
}

/// After putting a value under a name, that name gives the value and every
/// other name gives what it gave before.
pub proof fn lemma_find_put<W>(entries: Seq<(Seq<char>, W)>, name: Seq<char>, value: W, other: Seq<char>)
    ensures
        find(put(entries, name, value), other) == (if other == name {
            Some(value)
        } else {
            find(entries, other)
        }),
    decreases entries.len(),
{
    let out = put(entries, name, value);
    if entries.len() == 0 {
        assert(out.drop_first() =~= Seq::empty());
        assert(find(out.drop_first(), other) is None);
    } else if entries[0].0 == name {
        assert(out.drop_first() =~= entries.drop_first());
    } else if text_lt(name, entries[0].0) {
        assert(out.drop_first() =~= entries);
    } else {
        assert(out.drop_first() =~= put(entries.drop_first(), name, value));
        lemma_find_put(entries.drop_first(), name, value, other);
    }
}

/// The entries bound from two sequences have increasing names.
pub proof fn lemma_bind_all_increases<W>(names: Seq<Seq<char>>, values: Seq<W>)
    ensures
        names_increase(bind_all(names, values)),
    decreases names.len(),
{
    if names.len() > 0 {
        lemma_bind_all_increases(names.drop_last(), values);
        if names.len() <= values.len() {
            lemma_put_increases(bind_all(names.drop_last(), values), names.last(), values[names.len() - 1]);
        }
    }
}

/// Two maps that hold the same under every name are the same.
pub proof fn lemma_same_entries<W>(a: Seq<(Seq<char>, W)>, b: Seq<(Seq<char>, W)>)
    requires
        names_increase(a),
        names_increase(b),
        forall|name: Seq<char>| #[trigger] find(a, name) == find(b, name),
    ensures
        a == b,
    decreases a.len(),
{
    if a.len() == 0 {
        if b.len() > 0 {
            lemma_find_at(b, 0);
            assert(find(a, b[0].0) is None);
        }
        assert(a =~= b);
    } else {
        lemma_find_at(a, 0);
        assert(find(b, a[0].0) == Some(a[0].1));
        let j = lemma_find_some(b, a[0].0);
        if j > 0 {
            assert(text_lt(b[0].0, b[j].0));
            lemma_find_at(b, 0);
            assert(find(a, b[0].0) is Some);
            let i = lemma_find_some(a, b[0].0);
            if i > 0 {
                assert(text_lt(a[0].0, a[i].0));
                lemma_text_lt_transitive(a[0].0, b[0].0, a[0].0);
            }
            lemma_text_lt_irreflexive(a[0].0);
        }
        assert(a[0] == b[0]);
        let name = a[0].0;
        let rest_a = a.drop_first();
        let rest_b = b.drop_first();
        lemma_first_is_gone(a);
        lemma_first_is_gone(b);
        assert forall|other: Seq<char>| #[trigger] find(rest_a, other) == find(rest_b, other) by {
            assert(find(a, other) == find(b, other));
        }
        lemma_same_entries(rest_a, rest_b);
        assert(a =~= seq![a[0]] + rest_a);
        assert(b =~= seq![b[0]] + rest_b);
    }
}

/// The first name does not come again.
proof fn lemma_first_is_gone<W>(entries: Seq<(Seq<char>, W)>)
    requires
        names_increase(entries),
        entries.len() > 0,
    ensures
        names_increase(entries.drop_first()),
        find(entries.drop_first(), entries[0].0) is None,
{
    let rest = entries.drop_first();
    assert forall|i: int, j: int| 0 <= i < j < rest.len() implies text_lt(
        #[trigger] rest[i].0,
        #[trigger] rest[j].0,
    ) by {
        assert(text_lt(entries[i + 1].0, entries[j + 1].0));
    }
    assert forall|i: int| 0 <= i < rest.len() implies (#[trigger] rest[i]).0 != entries[0].0 by {
        assert(text_lt(entries[0].0, entries[i + 1].0));
        lemma_text_lt_irreflexive(entries[0].0);
    }
    lemma_find_none(rest, entries[0].0);
}

/// The order in which two names are put does not matter.
pub proof fn lemma_put_order_ignored<W>(
    entries: Seq<(Seq<char>, W)>,
    a: Seq<char>,
    va: W,
    b: Seq<char>,
    vb: W,
)
    requires
        names_increase(entries),
        a != b,
    ensures
        put(put(entries, a, va), b, vb) == put(put(entries, b, vb), a, va),
{
    let first = put(put(entries, a, va), b, vb);
    let second = put(put(entries, b, vb), a, va);
    lemma_put_increases(entries, a, va);
    lemma_put_increases(put(entries, a, va), b, vb);
    lemma_put_increases(entries, b, vb);
    lemma_put_increases(put(entries, b, vb), a, va);
    assert forall|name: Seq<char>| #[trigger] find(first, name) == find(second, name) by {
        lemma_find_put(entries, a, va, name);
        lemma_find_put(put(entries, a, va), b, vb, name);
        lemma_find_put(entries, b, vb, name);
        lemma_find_put(put(entries, b, vb), a, va, name);
    }
    lemma_same_entries(first, second);
}

/// A map from names to values that keeps its entries in the order of their
/// names, each name once.
#[derive(Debug, PartialEq)]
pub struct NameMap<V> {
    items: Vec<(String, V)>,
}

impl<V> NameMap<V> {
    #[verifier::type_invariant]
    spec fn sorted(&self) -> bool {
        forall|i: int, j: int|
            0 <= i < j < self.items@.len() ==> text_lt(
                (#[trigger] self.items@[i]).0@,
                (#[trigger] self.items@[j]).0@,
            )
    }
}

impl<V: View> NameMap<V> {
    /// The entries, each name and value by its view, in the order of the names.
    pub closed spec fn entries(&self) -> Seq<(Seq<char>, V::V)> {
        Seq::new(self.items@.len(), |i: int| (self.items@[i].0@, self.items@[i].1@))
    }
}

impl<V: View> View for NameMap<V> {
    type V = Seq<(Seq<char>, V::V)>;

    open spec fn view(&self) -> Seq<(Seq<char>, V::V)> {
        self.entries()
    }
}

impl<V: View> NameMap<V> {
    /// The empty map.
    pub fn new() -> (m: Self)
        ensures
            m@.len() == 0,
    {
        NameMap { items: Vec::new() }
    }

    /// How many names the map holds.
    pub fn len(&self) -> (n: usize)
        ensures
            n == self@.len(),
            names_increase(self@),
    {
        proof {
            use_type_invariant(self);
        }
        self.items.len()
    }

    /// Whether the map holds no name.
    pub fn is_empty(&self) -> (r: bool)
        ensures
            r == (self@.len() == 0),
    {
        self.items.len() == 0
    }

    /// The name at position `i` of the order.
    pub fn key_at(&self, i: usize) -> (k: &String)
        requires
            i < self@.len(),
        ensures
            k@ == self@[i as int].0,
    {
        &self.items[i].0
    }

    /// The value at position `i` of the order.
    pub fn value_at(&self, i: usize) -> (v: &V)
        requires
            i < self@.len(),
        ensures
            v@ == self@[i as int].1,
    {
        &self.items[i].1
    }

    /// What the map holds under `name`.
    pub fn get(&self, name: &str) -> (r: Option<&V>)
        ensures
            match r {
                Some(v) => find(self@, name@) == Some(v@),
                None => find(self@, name@) is None,
            },
    {
        proof {
            use_type_invariant(self);
        }
        let mut i: usize = 0;
        while i < self.items.len()
            invariant
                names_increase(self@),
                i <= self.items@.len() == self@.len(),
                forall|j: int| 0 <= j < i ==> (#[trigger] self@[j]).0 != name@,
            decreases self.items@.len() - i,
        {
            if same_text(self.items[i].0.as_str(), name) {
                proof {
                    lemma_find_at(self@, i as int);
                }
                return Some(&self.items[i].1);
            }
            i += 1;
        }
        proof {
            lemma_find_none(self@, name@);
        }
        None
    }

    /// Whether the map holds `name`.
    pub fn contains_key(&self, name: &str) -> (r: bool)
        ensures
            r == (find(self@, name@) is Some),
    {
        match self.get(name) {
            Some(_) => true,
            None => false,
        }
    }

    /// Puts `value` under `name`, in the stead of what stood there.
    pub fn insert(&mut self, name: String, value: V)
        ensures
            final(self)@ == put(old(self)@, name@, value@),
    {
        proof {
            use_type_invariant(&*self);
        }
        let ghost before = self@;
        let ghost value_view = value@;
        let ghost name_view = name@;
        let mut items: Vec<(String, V)> = Vec::new();
        core::mem::swap(&mut items, &mut self.items);
        let ghost start = items@;
        let mut i: usize = 0;
        while i < items.len() && text_precedes(items[i].0.as_str(), name.as_str())
            invariant
                i <= items@.len() == before.len(),
                forall|j: int| 0 <= j < before.len() ==> before[j] == ((#[trigger] items@[j]).0@, items@[j].1@),
                forall|j: int| 0 <= j < i ==> text_lt((#[trigger] before[j]).0, name@),
            decreases items@.len() - i,
        {
            i += 1;
        }
        proof {
            lemma_put_increases(before, name_view, value_view);
        }
        if i < items.len() && same_text(items[i].0.as_str(), name.as_str()) {
            proof {
                lemma_put_old(before, name_view, value_view, i as int);
            }
            items.set(i, (name, value));
        } else {
            proof {
                if i < before.len() {
                    assert(before[i as int] == (items@[i as int].0@, items@[i as int].1@));
                    lemma_text_lt_total(before[i as int].0, name_view);
                }
                lemma_put_new(before, name_view, value_view, i as int);
            }
            items.insert(i, (name, value));
        }
        let ghost done = Seq::new(items@.len(), |j: int| (items@[j].0@, items@[j].1@));
        assert(done =~= put(before, name_view, value_view));
        assert forall|a: int, b: int| 0 <= a < b < items@.len() implies text_lt(
            (#[trigger] items@[a]).0@,
            (#[trigger] items@[b]).0@,
        ) by {
            assert(text_lt(done[a].0, done[b].0));
        }
        *self = NameMap { items };
    }
}

impl<V: Clone> Clone for NameMap<V> {
    fn clone(&self) -> (m: Self) {
        proof {
            use_type_invariant(self);
        }
        let mut items: Vec<(String, V)> = Vec::new();
        let mut i: usize = 0;
        while i < self.items.len()
            invariant
                i == items@.len(),
                i <= self.items@.len(),
                forall|j: int| 0 <= j < i ==> (#[trigger] items@[j]).0 == self.items@[j].0,
            decreases self.items@.len() - i,
        {
            items.push((self.items[i].0.clone(), self.items[i].1.clone()));
            i += 1;
        }
        NameMap { items }
    }
}

impl<V: Duplicate> Duplicate for NameMap<V> {
    fn duplicate(&self) -> (m: Self) {
        proof {
            use_type_invariant(self);
        }
        let mut items: Vec<(String, V)> = Vec::new();
        let mut i: usize = 0;
        while i < self.items.len()
            invariant
                i == items@.len(),
                i <= self.items@.len(),
                forall|j: int|
                    0 <= j < i ==> (#[trigger] items@[j]).0@ == self.items@[j].0@ && items@[j].1@
                        == self.items@[j].1@,
            decreases self.items@.len() - i,
        {
            items.push((self.items[i].0.clone(), self.items[i].1.duplicate()));
            i += 1;
        }
        let m = NameMap { items };
        assert(m@ =~= self@);
        m
    }
}

impl<V: View> Default for NameMap<V> {
    fn default() -> (m: Self)
        ensures
            m@.len() == 0,
    {
        NameMap::new()
    }
}

} // verus!
