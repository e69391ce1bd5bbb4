//! Maps from names to values, ordered by the bytes of the names.

use vstd::prelude::*;
use vstd::utf8::encode_utf8;

use crate::text::{bytes_before, is_before, lemma_byte_order, lemma_encoding_is_injective, same_text};

verus! {

/// A map from names to values that keeps its names in byte order.
#[derive(Debug)]
pub struct NameMap<V> {
    entries: Vec<(String, V)>,
}

/// Whether one name comes strictly before another.
pub open spec fn name_before(left: Seq<char>, right: Seq<char>) -> bool {
    bytes_before(encode_utf8(left), encode_utf8(right))
}

/// Whether names come in strictly increasing order.
pub open spec fn is_ordered<V>(pairs: Seq<(Seq<char>, V)>) -> bool {
    forall|i: int, j: int|
        0 <= i < j < pairs.len() ==> name_before((#[trigger] pairs[i]).0, (#[trigger] pairs[j]).0)
}

/// Whether a name occurs.
pub open spec fn has_name<V>(pairs: Seq<(Seq<char>, V)>, name: Seq<char>) -> bool {
    exists|i: int| 0 <= i < pairs.len() && (#[trigger] pairs[i]).0 == name
}

/// A position of a name.
pub open spec fn position_of<V>(pairs: Seq<(Seq<char>, V)>, name: Seq<char>) -> int {
    choose|i: int| 0 <= i < pairs.len() && (#[trigger] pairs[i]).0 == name
}

/// The map that pairs stand for.
pub open spec fn map_of<V>(pairs: Seq<(Seq<char>, V)>) -> Map<Seq<char>, V> {
    Map::new(
        |name: Seq<char>| has_name(pairs, name),
        |name: Seq<char>| pairs[position_of(pairs, name)].1,
    )
}

/// The order of names is irreflexive and transitive, and of two names one
/// comes first.
pub proof fn lemma_name_order(a: Seq<char>, b: Seq<char>, c: Seq<char>)
    ensures
        !name_before(a, a),
        name_before(a, b) && name_before(b, c) ==> name_before(a, c),
        a != b ==> name_before(a, b) != name_before(b, a),
{
    lemma_byte_order(encode_utf8(a), encode_utf8(b), encode_utf8(c));
    lemma_encoding_is_injective(a, b);
}

/// In ordered pairs every name occurs at one position only.
pub proof fn lemma_position<V>(pairs: Seq<(Seq<char>, V)>, i: int)
    requires
        is_ordered(pairs),
        0 <= i < pairs.len(),
    ensures
        has_name(pairs, pairs[i].0),
        position_of(pairs, pairs[i].0) == i,
        map_of(pairs).contains_pair(pairs[i].0, pairs[i].1),
{
    let name = pairs[i].0;
    assert(has_name(pairs, name));
    let at = position_of(pairs, name);
    assert(pairs[at].0 == name);
    lemma_name_order(name, name, name);
    if at < i {
        assert(name_before(pairs[at].0, pairs[i].0));
    } else if i < at {
        assert(name_before(pairs[i].0, pairs[at].0));
    }
}

/// The order of a map's pairs is determined by what the map holds.
pub proof fn lemma_order_is_determined<V>(left: Seq<(Seq<char>, V)>, right: Seq<(Seq<char>, V)>)
    requires
        is_ordered(left),
        is_ordered(right),
        map_of(left) == map_of(right),
    ensures
        left == right,
    decreases left.len(),
{
    if left.len() == 0 {
        if right.len() > 0 {
            lemma_position(right, 0);
            assert(map_of(left).dom().contains(right[0].0));
        }
        assert(left =~= right);
    } else {
        lemma_position(left, left.len() - 1);
        assert(map_of(right).dom().contains(left.last().0));
        let at = position_of(right, left.last().0);
        lemma_position(right, at);
        if at < right.len() - 1 {
            lemma_position(right, right.len() - 1);
            assert(name_before(right[at].0, right.last().0));
            assert(map_of(left).dom().contains(right.last().0));
            let other = position_of(left, right.last().0);
            lemma_position(left, other);
            if other < left.len() - 1 {
                assert(name_before(left[other].0, left.last().0));
            }
            lemma_name_order(left.last().0, right.last().0, left.last().0);
            assert(false);
        }
        assert(left.last() == right.last());
        let fewer_left = left.drop_last();
        let fewer_right = right.drop_last();
        lemma_drop_last(left);
        lemma_drop_last(right);
        lemma_order_is_determined(fewer_left, fewer_right);
        assert(left =~= fewer_left.push(left.last()));
        assert(right =~= fewer_right.push(right.last()));
    }
}

proof fn lemma_drop_last<V>(pairs: Seq<(Seq<char>, V)>)
    requires
        is_ordered(pairs),
        pairs.len() > 0,
    ensures
        is_ordered(pairs.drop_last()),
        map_of(pairs.drop_last()) == map_of(pairs).remove(pairs.last().0),
{
    let fewer = pairs.drop_last();
    assert(is_ordered(fewer));
    assert forall|name: Seq<char>| #[trigger] map_of(fewer).dom().contains(name) == map_of(
        pairs,
    ).remove(pairs.last().0).dom().contains(name) by {
        if has_name(fewer, name) {
            let i = position_of(fewer, name);
            assert(pairs[i].0 == name);
            lemma_position(pairs, i);
            lemma_position(pairs, pairs.len() - 1);
        }
        if has_name(pairs, name) && name != pairs.last().0 {
            let i = position_of(pairs, name);
            assert(fewer[i].0 == name);
        }
    }
    assert forall|name: Seq<char>| map_of(fewer).dom().contains(name) implies #[trigger] map_of(
        fewer,
    )[name] == map_of(pairs).remove(pairs.last().0)[name] by {
        let i = position_of(fewer, name);
        assert(fewer[i].0 == name);
        lemma_position(fewer, i);
        assert(pairs[i].0 == name);
        lemma_position(pairs, i);
    }
    assert(map_of(fewer) =~= map_of(pairs).remove(pairs.last().0));
}

proof fn lemma_insert<V>(pairs: Seq<(Seq<char>, V)>, at: int, name: Seq<char>, value: V)
    requires
        is_ordered(pairs),
        0 <= at <= pairs.len(),
        forall|i: int| 0 <= i < at ==> name_before((#[trigger] pairs[i]).0, name),
        forall|i: int| at <= i < pairs.len() ==> name_before(name, (#[trigger] pairs[i]).0),
    ensures
        is_ordered(pairs.insert(at, (name, value))),
        map_of(pairs.insert(at, (name, value))) == map_of(pairs).insert(name, value),
        !has_name(pairs, name),
{
    let more = pairs.insert(at, (name, value));
    assert(is_ordered(more));
    lemma_name_order(name, name, name);
    assert forall|other: Seq<char>| #[trigger] map_of(more).dom().contains(other) == map_of(
        pairs,
    ).insert(name, value).dom().contains(other) by {
        if has_name(more, other) {
            let i = position_of(more, other);
            if i < at {
                assert(pairs[i].0 == other);
            } else if i > at {
                assert(pairs[i - 1].0 == other);
            }
        }
        if has_name(pairs, other) {
            let i = position_of(pairs, other);
            if i < at {
                assert(more[i].0 == other);
            } else {
                assert(more[i + 1].0 == other);
            }
        }
        assert(more[at].0 == name);
    }
    assert forall|other: Seq<char>| map_of(more).dom().contains(other) implies #[trigger] map_of(
        more,
    )[other] == map_of(pairs).insert(name, value)[other] by {
        let i = position_of(more, other);
        lemma_position(more, i);
        lemma_position(more, at);
        if i < at {
            lemma_position(pairs, i);
        } else if i > at {
            lemma_position(pairs, i - 1);
        }
    }
    assert(map_of(more) =~= map_of(pairs).insert(name, value));
}

proof fn lemma_replace<V>(pairs: Seq<(Seq<char>, V)>, at: int, name: Seq<char>, value: V)
    requires
        is_ordered(pairs),
        0 <= at < pairs.len(),
        pairs[at].0 == name,
    ensures
        is_ordered(pairs.update(at, (name, value))),
        map_of(pairs.update(at, (name, value))) == map_of(pairs).insert(name, value),
{
    let other_pairs = pairs.update(at, (name, value));
    assert(is_ordered(other_pairs));
    assert forall|other: Seq<char>| #[trigger] map_of(other_pairs).dom().contains(other) == map_of(
        pairs,
    ).insert(name, value).dom().contains(other) by {
        if has_name(other_pairs, other) {
            let i = position_of(other_pairs, other);
            assert(pairs[i].0 == other);
        }
        if has_name(pairs, other) {
            let i = position_of(pairs, other);
            assert(other_pairs[i].0 == other);
        }
        assert(other_pairs[at].0 == name);
    }
    assert forall|other: Seq<char>|
        map_of(other_pairs).dom().contains(other) implies #[trigger] map_of(other_pairs)[other]
        == map_of(pairs).insert(name, value)[other] by {
        let i = position_of(other_pairs, other);
        lemma_position(other_pairs, i);
        lemma_position(other_pairs, at);
        lemma_position(pairs, i);
    }
    assert(map_of(other_pairs) =~= map_of(pairs).insert(name, value));
}

proof fn lemma_remove<V>(pairs: Seq<(Seq<char>, V)>, at: int)
    requires
        is_ordered(pairs),
        0 <= at < pairs.len(),
    ensures
        is_ordered(pairs.remove(at)),
        map_of(pairs.remove(at)) == map_of(pairs).remove(pairs[at].0),
{
    let name = pairs[at].0;
    let fewer = pairs.remove(at);
    assert(is_ordered(fewer));
    assert forall|other: Seq<char>| #[trigger] map_of(fewer).dom().contains(other) == map_of(
        pairs,
    ).remove(name).dom().contains(other) by {
        if has_name(fewer, other) {
            let i = position_of(fewer, other);
            let j = if i < at {
                i
            } else {
                i + 1
            };
            assert(pairs[j].0 == other);
            lemma_position(pairs, j);
            lemma_position(pairs, at);
        }
        if has_name(pairs, other) && other != name {
            let i = position_of(pairs, other);
            if i < at {
                assert(fewer[i].0 == other);
            } else {
                assert(fewer[i - 1].0 == other);
            }
        }
    }
    assert forall|other: Seq<char>| map_of(fewer).dom().contains(other) implies #[trigger] map_of(
        fewer,
    )[other] == map_of(pairs).remove(name)[other] by {
        let i = position_of(fewer, other);
        lemma_position(fewer, i);
        if i < at {
            lemma_position(pairs, i);
        } else {
            lemma_position(pairs, i + 1);
        }
    }
    assert(map_of(fewer) =~= map_of(pairs).remove(name));
}

/// One more pair of a map.
pub proof fn lemma_take_step<V>(pairs: Seq<(Seq<char>, V)>, i: int)
    requires
        is_ordered(pairs),
        0 <= i < pairs.len(),
    ensures
        map_of(pairs.take(i + 1)) == map_of(pairs.take(i)).insert(pairs[i].0, pairs[i].1),
{
    let before = pairs.take(i);
    lemma_insert(before, i, pairs[i].0, pairs[i].1);
    assert(before.insert(i, pairs[i]) =~= pairs.take(i + 1));
}

impl<V> View for NameMap<V> {
    type V = Map<Seq<char>, V>;

    open spec fn view(&self) -> Map<Seq<char>, V> {
        map_of(self.pairs())
    }
}

impl<V> NameMap<V> {
    /// The names with their values, in order.
    pub closed spec fn pairs(self) -> Seq<(Seq<char>, V)> {
        self.entries@.map_values(|entry: (String, V)| (entry.0@, entry.1))
    }

    #[verifier::type_invariant]
    spec fn keeps_order(self) -> bool {
        is_ordered(self.pairs())
    }

    /// An empty map.
    pub fn new() -> (map: Self)
        ensures
            map.pairs() == Seq::<(Seq<char>, V)>::empty(),
            map@ == Map::<Seq<char>, V>::empty(),
    {
        let map = NameMap { entries: Vec::new() };
        assert(map.pairs() =~= Seq::empty());
        assert(map@ =~= Map::empty());
        map
    }

    /// The number of names.
    pub fn len(&self) -> (length: usize)
        ensures
            length == self.pairs().len(),
            is_ordered(self.pairs()),
    {
        proof {
            use_type_invariant(self);
        }
        self.entries.len()
    }

    /// The name at a position.
    pub fn name_at(&self, i: usize) -> (name: &str)
        requires
            i < self.pairs().len(),
        ensures
            name@ == self.pairs()[i as int].0,
    {
        self.entries[i].0.as_str()
    }

    /// The value at a position.
    pub fn value_at(&self, i: usize) -> (value: &V)
        requires
            i < self.pairs().len(),
        ensures
            *value == self.pairs()[i as int].1,
    {
        &self.entries[i].1
    }

    /// The first position whose name does not come before a name.
    fn position(&self, name: &str) -> (at: usize)
        ensures
            at <= self.pairs().len(),
            is_ordered(self.pairs()),
            forall|i: int| 0 <= i < at ==> name_before((#[trigger] self.pairs()[i]).0, name@),
            forall|i: int|
                at <= i < self.pairs().len() ==> !name_before((#[trigger] self.pairs()[i]).0, name@),
    {
        proof {
            use_type_invariant(self);
        }
        let mut low: usize = 0;
        let mut high: usize = self.entries.len();
        while low < high
            invariant
                low <= high <= self.entries@.len(),
                self.pairs().len() == self.entries@.len(),
                is_ordered(self.pairs()),
                forall|i: int| 0 <= i < low ==> name_before((#[trigger] self.pairs()[i]).0, name@),
                forall|i: int|
                    high <= i < self.pairs().len() ==> !name_before(
                        (#[trigger] self.pairs()[i]).0,
                        name@,
                    ),
            decreases high - low,
        {
            let middle: usize = low + (high - low) / 2;
            let ghost key = self.pairs()[middle as int].0;
            if is_before(self.entries[middle].0.as_str().as_bytes(), name.as_bytes()) {
                assert forall|i: int| 0 <= i < middle + 1 implies name_before(
                    (#[trigger] self.pairs()[i]).0,
                    name@,
                ) by {
                    if i < middle {
                        assert(name_before(self.pairs()[i].0, self.pairs()[middle as int].0));
                        lemma_name_order(self.pairs()[i].0, key, name@);
                    }
                }
                low = middle + 1;
            } else {
                assert forall|i: int| middle <= i < self.pairs().len() implies !name_before(
                    (#[trigger] self.pairs()[i]).0,
                    name@,
                ) by {
                    if middle < i {
                        assert(name_before(self.pairs()[middle as int].0, self.pairs()[i].0));
                        lemma_name_order(key, self.pairs()[i].0, name@);
                    }
                }
                high = middle;
            }
        }
        low
    }

    /// The position of a name, if it occurs.
    fn find(&self, name: &str) -> (found: Option<usize>)
        ensures
            is_ordered(self.pairs()),
            match found {
                Some(at) => at < self.pairs().len() && self.pairs()[at as int].0 == name@,
                None => !has_name(self.pairs(), name@),
            },
    {
        let at: usize = self.position(name);
        proof {
            if has_name(self.pairs(), name@) {
                let i = position_of(self.pairs(), name@);
                lemma_name_order(name@, name@, name@);
                if i < at {
                    assert(name_before(self.pairs()[i].0, name@));
                } else if at < i {
                    assert(name_before(self.pairs()[at as int].0, self.pairs()[i].0));
                }
            }
        }
        if at < self.entries.len() && same_text(self.entries[at].0.as_str(), name) {
            Some(at)
        } else {
            None
        }
    }

    /// The value of a name.
    pub fn get(&self, name: &str) -> (value: Option<&V>)
        ensures
            match value {
                Some(value) => self@.contains_pair(name@, *value),
                None => !self@.dom().contains(name@),
            },
    {
        match self.find(name) {
            Some(at) => {
                proof {
                    lemma_position(self.pairs(), at as int);
                }
                Some(&self.entries[at].1)
            },
            None => None,
        }
    }

    /// Whether a name occurs.
    pub fn contains_name(&self, name: &str) -> (found: bool)
        ensures
            found == self@.dom().contains(name@),
    {
        self.find(name).is_some()
    }

    /// Gives a name a value; whether the name had one before.
    pub fn insert(&mut self, name: String, value: V) -> (replaced: bool)
        ensures
            final(self)@ == old(self)@.insert(name@, value),
            replaced == old(self)@.dom().contains(name@),
    {
        let ghost pairs = self.pairs();
        let found = self.find(name.as_str());
        let at: usize = self.position(name.as_str());
        let mut entries: Vec<(String, V)> = Vec::new();
        std::mem::swap(&mut entries, &mut self.entries);
        match found {
            Some(at) => {
                let ghost key = name@;
                entries.set(at, (name, value));
                proof {
                    lemma_replace(pairs, at as int, key, value);
                    assert(entries@.map_values(|entry: (String, V)| (entry.0@, entry.1))
                        =~= pairs.update(at as int, (key, value)));
                }
                self.entries = entries;
                true
            },
            None => {
                let ghost key = name@;
                entries.insert(at, (name, value));
                proof {
                    assert forall|i: int| at <= i < pairs.len() implies name_before(
                        key,
                        (#[trigger] pairs[i]).0,
                    ) by {
                        assert(pairs[i].0 != key);
                        lemma_name_order(key, pairs[i].0, key);
                    }
                    lemma_insert(pairs, at as int, key, value);
                    assert(entries@.map_values(|entry: (String, V)| (entry.0@, entry.1))
                        =~= pairs.insert(at as int, (key, value)));
                }
                self.entries = entries;
                false
            },
        }
    }

    /// Takes the value of a name out.
    pub fn remove(&mut self, name: &str) -> (value: Option<V>)
        ensures
            final(self)@ == old(self)@.remove(name@),
            match value {
                Some(value) => old(self)@.contains_pair(name@, value),
                None => !old(self)@.dom().contains(name@),
            },
    {
        let ghost pairs = self.pairs();
        match self.find(name) {
            Some(at) => {
                let mut entries: Vec<(String, V)> = Vec::new();
                std::mem::swap(&mut entries, &mut self.entries);
                let entry = entries.remove(at);
                proof {
                    lemma_position(pairs, at as int);
                    lemma_remove(pairs, at as int);
                    assert(entries@.map_values(|entry: (String, V)| (entry.0@, entry.1))
                        =~= pairs.remove(at as int));
                }
                self.entries = entries;
                Some(entry.1)
            },
            None => {
                assert(self@ =~= old(self)@.remove(name@));
                None
            },
        }
    }

    /// The values in the order of their names.
    pub fn values(&self) -> (values: Vec<&V>)
        ensures
            is_ordered(self.pairs()),
            values@.len() == self.pairs().len(),
            forall|i: int| 0 <= i < values@.len() ==> *(#[trigger] values@[i]) == self.pairs()[i].1,
    {
        proof {
            use_type_invariant(self);
        }
        let mut values: Vec<&V> = Vec::new();
        let mut i: usize = 0;
        while i < self.entries.len()
            invariant
                i <= self.entries@.len(),
                self.pairs().len() == self.entries@.len(),
                values@.len() == i,
                forall|j: int| 0 <= j < i ==> *(#[trigger] values@[j]) == self.pairs()[j].1,
            decreases self.entries.len() - i,
        {
            values.push(&self.entries[i].1);
            i += 1;
        }
        values
    }
}

} // verus!
