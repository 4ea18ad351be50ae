//! A map from names to values that is walked in the order of the names.
use crate::text;
use vstd::prelude::*;

verus! {

/// Whether `a` stands before `b` in the order of texts: character by character, a shorter text
/// before a longer one that it begins.
pub open spec fn stands_before(a: Seq<char>, b: Seq<char>) -> bool
    decreases a.len(),
{
    if b.len() == 0 {
        false
    } else if a.len() == 0 {
        true
    } else if a[0] != b[0] {
        a[0] < b[0]
    } else {
        stands_before(a.drop_first(), b.drop_first())
    }
}

/// No text stands before itself.
pub proof fn lemma_before_irreflexive(a: Seq<char>)
    ensures
        !stands_before(a, a),
    decreases a.len(),
{
    if a.len() > 0 {
        lemma_before_irreflexive(a.drop_first());
    }
}

/// Of two different texts, one stands before the other.
pub proof fn lemma_before_total(a: Seq<char>, b: Seq<char>)
    ensures
        a == b || stands_before(a, b) || stands_before(b, a),
    decreases a.len(),
{
    if a.len() > 0 && b.len() > 0 && a[0] == b[0] {
        lemma_before_total(a.drop_first(), b.drop_first());
        if a.drop_first() == b.drop_first() {
            assert(a == seq![a[0]] + a.drop_first());
            assert(b == seq![b[0]] + b.drop_first());
        }
    } else if a.len() == 0 && b.len() == 0 {
        assert(a == b);
    }
}

/// What stands before a text also stands before what that text stands before.
pub proof fn lemma_before_transitive(a: Seq<char>, b: Seq<char>, c: Seq<char>)
    requires
        stands_before(a, b),
        stands_before(b, c),
    ensures
        stands_before(a, c),
    decreases a.len(),
{
    if a.len() > 0 && a[0] == b[0] && b[0] == c[0] {
        lemma_before_transitive(a.drop_first(), b.drop_first(), c.drop_first());
    }
}

/// Whether `left` stands before `right` in the order of texts.
pub fn comes_before(left: &str, right: &str) -> (before: bool)
    ensures
        before == stands_before(left@, right@),
{
    let a = text::to_chars(left);
    let b = text::to_chars(right);
    let mut i: usize = 0;
    assert(a@.skip(0) == a@ && b@.skip(0) == b@);
    while i < a.len() && i < b.len()
        invariant
            a@ == left@,
            b@ == right@,
            i <= a@.len(),
            i <= b@.len(),
            stands_before(left@, right@) == stands_before(a@.skip(i as int), b@.skip(i as int)),
        decreases a@.len() - i,
    {
        assert(a@.skip(i as int).drop_first() == a@.skip(i + 1));
        assert(b@.skip(i as int).drop_first() == b@.skip(i + 1));
        if a[i] != b[i] {
            return a[i] < b[i];
        }
        i += 1;
    }
    i < b.len()
}

/// Whether names come in order, without repeats.
pub open spec fn in_order(names: Seq<Seq<char>>) -> bool {
    forall|i: int, j: int|
        0 <= i < j < names.len() ==> stands_before(#[trigger] names[i], #[trigger] names[j])
}

/// Names in order that are the same as a set are the same as a list.
pub proof fn lemma_same_names(a: Seq<Seq<char>>, b: Seq<Seq<char>>)
    requires
        in_order(a),
        in_order(b),
        forall|name: Seq<char>| a.contains(name) == b.contains(name),
    ensures
        a == b,
    decreases a.len(),
{
    if a.len() == 0 {
        if b.len() > 0 {
            assert(b.contains(b[0]));
        }
        assert(a == b);
    } else {
        assert(a.contains(a[0]));
        assert(b.len() > 0);
        let last_a = a.last();
        let last_b = b.last();
        assert(a[a.len() - 1] == last_a && b[b.len() - 1] == last_b);
        assert(a.contains(last_a));
        assert(b.contains(last_b));
        let i = choose|i: int| 0 <= i < b.len() && b[i] == last_a;
        let j = choose|j: int| 0 <= j < a.len() && a[j] == last_b;
        if last_a != last_b {
            assert(stands_before(b[i], b[b.len() - 1]));
            assert(stands_before(a[j], a[a.len() - 1]));
            lemma_before_transitive(last_a, last_b, last_a);
            lemma_before_irreflexive(last_a);
        }
        let c = a.drop_last();
        let d = b.drop_last();
        assert forall|name: Seq<char>| c.contains(name) == d.contains(name) by {
            lemma_without_last(a, name);
            lemma_without_last(b, name);
        }
        lemma_same_names(c, d);
        assert(a == c.push(last_a));
        assert(b == d.push(last_b));
    }
}

proof fn lemma_without_last(names: Seq<Seq<char>>, name: Seq<char>)
    requires
        in_order(names),
        names.len() > 0,
    ensures
        names.drop_last().contains(name) == (names.contains(name) && name != names.last()),
{
    let fewer = names.drop_last();
    let n = names.len() - 1;
    if fewer.contains(name) {
        let i = choose|i: int| 0 <= i < fewer.len() && fewer[i] == name;
        assert(names[i] == name);
        assert(stands_before(names[i], names[n]));
        lemma_before_irreflexive(name);
    }
    if names.contains(name) && name != names.last() {
        let i = choose|i: int| 0 <= i < names.len() && names[i] == name;
        assert(fewer[i] == name);
    }
}

/// A map from names to values.
#[derive(Debug)]
pub struct NameMap<V> {
    /// The entries, in the order of their names.
    pub entries: Vec<(String, V)>,
}

/// The names of some entries.
pub open spec fn entry_names<V>(entries: Seq<(String, V)>) -> Seq<Seq<char>> {
    entries.map_values(|entry: (String, V)| entry.0@)
}

impl<V> View for NameMap<V> {
    type V = Map<Seq<char>, V>;

    open spec fn view(&self) -> Map<Seq<char>, V> {
        Map::new(
            |name: Seq<char>| self.names().contains(name),
            |name: Seq<char>| self.entries@[self.names().index_of(name)].1,
        )
    }
}

impl<V> NameMap<V> {
    /// The names, in their order.
    pub open spec fn names(self) -> Seq<Seq<char>> {
        entry_names(self.entries@)
    }

    /// Whether the names come in order, without repeats.
    pub open spec fn wf(self) -> bool {
        in_order(self.names())
    }

    /// Where `name` stands among the names.
    pub proof fn lemma_position(self, i: int)
        requires
            self.wf(),
            0 <= i < self.entries@.len(),
        ensures
            self.names()[i] == self.entries@[i].0@,
            self.names().index_of(self.names()[i]) == i,
            self@.contains_key(self.names()[i]),
            self@[self.names()[i]] == self.entries@[i].1,
    {
        let names = self.names();
        assert(names.contains(names[i]));
        let j = names.index_of(names[i]);
        assert(0 <= j < names.len() && names[j] == names[i]);
        lemma_before_irreflexive(names[i]);
        if i < j {
            assert(stands_before(names[i], names[j]));
        }
        if j < i {
            assert(stands_before(names[j], names[i]));
        }
    }

    /// A map without entries.
    pub fn new() -> (map: NameMap<V>)
        ensures
            map.wf(),
            map.entries@.len() == 0,
            map@ == Map::<Seq<char>, V>::empty(),
    {
        let map = NameMap { entries: Vec::new() };
        assert(map@ =~= Map::<Seq<char>, V>::empty());
        map
    }

    /// The number of entries.
    pub fn len(&self) -> (count: usize)
        ensures
            count == self.entries@.len(),
    {
        self.entries.len()
    }

    /// Whether there are no entries.
    pub fn is_empty(&self) -> (empty: bool)
        ensures
            empty == (self.entries@.len() == 0),
            empty == (self@ == Map::<Seq<char>, V>::empty()),
    {
        proof {
            if self.entries@.len() == 0 {
                assert(self@ =~= Map::<Seq<char>, V>::empty());
            } else {
                assert(self.names().contains(self.names()[0]));
                assert(self@.contains_key(self.names()[0]));
            }
        }
        self.entries.len() == 0
    }

    /// Finds the entry with a name.
    pub fn position(&self, name: &str) -> (position: Option<usize>)
        ensures
            position is Some <==> self@.contains_key(name@),
            position matches Some(i) ==> i < self.entries@.len() && self.entries@[i as int].0@
                == name@,
    {
        for i in 0..self.entries.len()
            invariant
                forall|j: int| 0 <= j < i ==> #[trigger] self.names()[j] != name@,
        {
            assert(self.names()[i as int] == self.entries@[i as int].0@);
            if text::same_text(self.entries[i].0.as_str(), name) {
                assert(self.names().contains(name@));
                return Some(i);
            }
        }
        None
    }

    /// Looks the value of a name up.
    pub fn get(&self, name: &str) -> (value: Option<&V>)
        requires
            self.wf(),
        ensures
            value == (if self@.contains_key(name@) {
                Some(&self@[name@])
            } else {
                None
            }),
    {
        match self.position(name) {
            Some(i) => {
                proof {
                    self.lemma_position(i as int);
                }
                Some(&self.entries[i].1)
            },
            None => None,
        }
    }

    /// Gives a name a value; a value that it had is replaced.
    pub fn insert(&mut self, name: String, value: V)
        requires
            old(self).wf(),
        ensures
            final(self).wf(),
            final(self)@ == old(self)@.insert(name@, value),
    {
        let mut at: usize = 0;
        let ghost before = *self;
        let ghost names = self.names();
        while at < self.entries.len() && comes_before(self.entries[at].0.as_str(), name.as_str())
            invariant
                *self == before,
                names == before.names(),
                at <= names.len(),
                forall|j: int| 0 <= j < at ==> stands_before(#[trigger] names[j], name@),
            decreases names.len() - at,
        {
            assert(names[at as int] == self.entries@[at as int].0@);
            at += 1;
        }
        if at < self.entries.len() && text::same_text(self.entries[at].0.as_str(), name.as_str()) {
            assert(names[at as int] == name@);
            self.entries[at] = (name, value);
            proof {
                assert(self.names() =~= names);
                before.lemma_position(at as int);
                assert forall|other: Seq<char>| self@.contains_key(other) implies self@[other]
                    == before@.insert(name@, value)[other] by {
                    let k = names.index_of(other);
                    assert(0 <= k < names.len() && names[k] == other);
                    before.lemma_position(k);
                }
                assert(self@ =~= before@.insert(name@, value));
            }
        } else {
            proof {
                assert forall|j: int| at <= j < names.len() implies stands_before(
                    name@,
                    #[trigger] names[j],
                ) by {
                    assert(names[at as int] == before.entries@[at as int].0@);
                    lemma_before_total(names[at as int], name@);
                    if j > at {
                        assert(stands_before(names[at as int], names[j]));
                        lemma_before_transitive(name@, names[at as int], names[j]);
                    }
                }
            }
            self.entries.insert(at, (name, value));
            proof {
                let after = self.names();
                assert(after =~= names.insert(at as int, name@));
                assert forall|i: int, j: int| 0 <= i < j < after.len() implies stands_before(
                    #[trigger] after[i],
                    #[trigger] after[j],
                ) by {
                    let a = if i < at { i } else { i - 1 };
                    let b = if j < at { j } else { j - 1 };
                    if i == at {
                        assert(after[j] == names[b]);
                    } else if j == at {
                        assert(after[i] == names[a]);
                    } else {
                        assert(after[i] == names[a] && after[j] == names[b]);
                    }
                }
                assert forall|other: Seq<char>| after.contains(other) == (names.contains(other)
                    || other == name@) by {
                    if names.contains(other) {
                        let k = names.index_of(other);
                        assert(names[k] == other);
                        assert(after[if k < at { k } else { k + 1 }] == other);
                    }
                    if other == name@ {
                        assert(after[at as int] == other);
                    }
                    if after.contains(other) && other != name@ {
                        let k = after.index_of(other);
                        assert(after[k] == other);
                        assert(names[if k < at { k } else { k - 1 }] == other);
                    }
                }
                assert forall|other: Seq<char>| self@.contains_key(other) implies self@[other]
                    == before@.insert(name@, value)[other] by {
                    let k = after.index_of(other);
                    assert(0 <= k < after.len() && after[k] == other);
                    self.lemma_position(k);
                    if other == name@ {
                        self.lemma_position(at as int);
                        assert(after[at as int] == name@);
                    } else {
                        let m = if k < at { k } else { k - 1 };
                        assert(names[m] == other);
                        before.lemma_position(m);
                    }
                }
                assert(self@ =~= before@.insert(name@, value));
            }
        }
    }

    /// Takes a name and its value out.
    pub fn remove(&mut self, name: &str)
        requires
            old(self).wf(),
        ensures
            final(self).wf(),
            final(self)@ == old(self)@.remove(name@),
    {
        let ghost before = *self;
        let ghost names = self.names();
        match self.position(name) {
            None => {
                assert(self@ =~= before@.remove(name@));
            },
            Some(at) => {
                let _ = self.entries.remove(at);
                proof {
                    let after = self.names();
                    assert(after =~= names.remove(at as int));
                    assert(names[at as int] == name@);
                    assert forall|i: int, j: int| 0 <= i < j < after.len() implies stands_before(
                        #[trigger] after[i],
                        #[trigger] after[j],
                    ) by {
                        let a = if i < at { i } else { i + 1 };
                        let b = if j < at { j } else { j + 1 };
                        assert(after[i] == names[a] && after[j] == names[b]);
                    }
                    assert forall|other: Seq<char>| after.contains(other) == (names.contains(other)
                        && other != name@) by {
                        if names.contains(other) && other != name@ {
                            let k = names.index_of(other);
                            assert(names[k] == other);
                            assert(after[if k < at { k } else { k - 1 }] == other);
                        }
                        if after.contains(other) {
                            let k = after.index_of(other);
                            assert(after[k] == other);
                            let m = if k < at { k } else { k + 1 };
                            assert(names[m] == other);
                            before.lemma_position(m);
                            before.lemma_position(at as int);
                        }
                    }
                    assert forall|other: Seq<char>| self@.contains_key(other) implies self@[other]
                        == before@.remove(name@)[other] by {
                        let k = after.index_of(other);
                        assert(0 <= k < after.len() && after[k] == other);
                        self.lemma_position(k);
                        let m = if k < at { k } else { k + 1 };
                        assert(names[m] == other);
                        before.lemma_position(m);
                    }
                    assert(self@ =~= before@.remove(name@));
                }
            },
        }
    }
}

/// Two maps with the same content list the same names with the same values, in the same order.
pub proof fn law_order_is_determined<V>(left: NameMap<V>, right: NameMap<V>)
    requires
        left.wf(),
        right.wf(),
        left@ == right@,
    ensures
        left.names() == right.names(),
        forall|i: int|
            0 <= i < left.entries@.len() ==> (#[trigger] left.entries@[i]).1
                == right.entries@[i].1,
{
    assert forall|name: Seq<char>| left.names().contains(name) == right.names().contains(name) by {
        assert(left@.contains_key(name) == left.names().contains(name));
        assert(right@.contains_key(name) == right.names().contains(name));
    }
    lemma_same_names(left.names(), right.names());
    assert forall|i: int| 0 <= i < left.entries@.len() implies (#[trigger] left.entries@[i]).1
        == right.entries@[i].1 by {
        assert(left.names().len() == left.entries@.len());
        assert(right.names().len() == right.entries@.len());
        left.lemma_position(i);
        right.lemma_position(i);
    }
}

/// A text stands before another exactly if it is the beginning of the other and shorter, or if at
/// the first place where the two differ it has the lesser character.
pub proof fn law_first_difference_decides(a: Seq<char>, b: Seq<char>)
    ensures
        stands_before(a, b) <==> exists|n: int|
            0 <= n <= a.len() && n < b.len() && #[trigger] a.take(n) == b.take(n) && (n == a.len()
                || a[n] < b[n]),
    decreases a.len(),
{
    if b.len() > 0 && a.len() == 0 {
        assert(a.take(0) == b.take(0));
    } else if b.len() > 0 && a[0] != b[0] {
        if a[0] < b[0] {
            assert(a.take(0) == b.take(0));
        }
        assert forall|n: int|
            0 <= n <= a.len() && n < b.len() && #[trigger] a.take(n) == b.take(n) implies n == 0 by {
            if n > 0 {
                assert(a.take(n)[0] == b.take(n)[0]);
            }
        }
    } else if b.len() > 0 {
        let (c, d) = (a.drop_first(), b.drop_first());
        law_first_difference_decides(c, d);
        if stands_before(c, d) {
            let n = choose|n: int|
                0 <= n <= c.len() && n < d.len() && #[trigger] c.take(n) == d.take(n) && (n
                    == c.len() || c[n] < d[n]);
            assert(a.take(n + 1) == seq![a[0]] + c.take(n));
            assert(b.take(n + 1) == seq![b[0]] + d.take(n));
            if n < c.len() {
                assert(a[n + 1] == c[n] && b[n + 1] == d[n]);
            }
        }
        if exists|n: int|
            0 <= n <= a.len() && n < b.len() && #[trigger] a.take(n) == b.take(n) && (n == a.len()
                || a[n] < b[n]) {
            let n = choose|n: int|
                0 <= n <= a.len() && n < b.len() && #[trigger] a.take(n) == b.take(n) && (n
                    == a.len() || a[n] < b[n]);
            assert(n > 0);
            assert(c.take(n - 1) == a.take(n).drop_first());
            assert(d.take(n - 1) == b.take(n).drop_first());
            if n < a.len() {
                assert(a[n] == c[n - 1] && b[n] == d[n - 1]);
            }
        }
    }
}

/// A map holds the names of its entries and no others, and gives each the value of its entry.
pub proof fn law_map_holds_its_entries<V>(map: NameMap<V>, name: Seq<char>, i: int)
    requires
        map.wf(),
        0 <= i < map.entries@.len(),
    ensures
        map@.contains_key(map.entries@[i].0@),
        map@[map.entries@[i].0@] == map.entries@[i].1,
        map@.contains_key(name) ==> exists|k: int|
            0 <= k < map.entries@.len() && (#[trigger] map.entries@[k]).0@ == name,
{
    map.lemma_position(i);
    if map@.contains_key(name) {
        let k = choose|k: int| 0 <= k < map.names().len() && map.names()[k] == name;
        assert(map.entries@[k].0@ == name);
    }
}

/// The entries of a map come in the order of their names.
pub proof fn law_entries_come_in_order<V>(map: NameMap<V>, i: int, j: int)
    requires
        map.wf(),
        0 <= i < j < map.entries@.len(),
    ensures
        stands_before(map.entries@[i].0@, map.entries@[j].0@),
        map.names().len() == map.entries@.len(),
        map.names()[i] == map.entries@[i].0@,
{
    assert(map.names()[i] == map.entries@[i].0@ && map.names()[j] == map.entries@[j].0@);
}

} // verus!
