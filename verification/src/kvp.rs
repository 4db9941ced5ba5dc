//! Key-value pairs, as objects carry them in their extension headers.

use vstd::prelude::*;

verus! {

#[derive(Debug, PartialEq, Eq)]
pub enum Value {
    IntValue(u64),
    BytesValue(Vec<u8>),
}

/// What a value holds.
pub ghost enum ValueView {
    IntValue(u64),
    BytesValue(Seq<u8>),
}

impl View for Value {
    type V = ValueView;

    open spec fn view(&self) -> ValueView {
        match self {
            Value::IntValue(v) => ValueView::IntValue(*v),
            Value::BytesValue(b) => ValueView::BytesValue(b@),
        }
    }
}

impl Clone for Value {
    fn clone(&self) -> (r: Self)
        ensures
            r@ == self@,
    {
        match self {
            Value::IntValue(v) => Value::IntValue(*v),
            Value::BytesValue(b) => {
                let copy: Vec<u8> = b.clone();
                assert(copy@ =~= b@);
                Value::BytesValue(copy)
            },
        }
    }
}

#[derive(Debug, PartialEq, Eq)]
pub struct KeyValuePair {
    pub key: u64,
    pub value: Value,
}

/// A pair as its key and what its value holds.
pub ghost struct PairView {
    pub key: u64,
    pub value: ValueView,
}

impl View for KeyValuePair {
    type V = PairView;

    open spec fn view(&self) -> PairView {
        PairView { key: self.key, value: self.value@ }
    }
}

/// Pairs in the order that they were first set.
#[derive(Debug, PartialEq, Eq)]
pub struct KeyValuePairs(pub Vec<KeyValuePair>);

/// The extension headers of an object.
pub type ExtensionHeaders = KeyValuePairs;

impl View for KeyValuePairs {
    type V = Seq<PairView>;

    open spec fn view(&self) -> Seq<PairView> {
        self.0@.map_values(|p: KeyValuePair| p@)
    }
}

impl Default for KeyValuePairs {
    fn default() -> (r: Self)
        ensures
            r@ == Seq::<PairView>::empty(),
    {
        let r = KeyValuePairs(Vec::new());
        assert(r@ =~= Seq::<PairView>::empty());
        r
    }
}

impl Clone for KeyValuePairs {
    fn clone(&self) -> (r: Self)
        ensures
            r@ == self@,
    {
        let mut pairs: Vec<KeyValuePair> = Vec::new();
        let mut i: usize = 0;
        while i < self.0.len()
            invariant
                i <= self.0@.len(),
                pairs@.len() == i,
                forall|j: int| 0 <= j < i ==> (#[trigger] pairs@[j])@ == self.0@[j]@,
            decreases self.0@.len() - i,
        {
            let p: &KeyValuePair = &self.0[i];
            pairs.push(KeyValuePair { key: p.key, value: p.value.clone() });
            i = i + 1;
        }
        let r = KeyValuePairs(pairs);
        assert(r@ =~= self@);
        r
    }
}

/// The value under a key: that of the first pair that has it.
pub open spec fn lookup(pairs: Seq<PairView>, key: u64) -> Option<ValueView>
    decreases pairs.len(),
{
    if pairs.len() == 0 {
        None
    } else if pairs[0].key == key {
        Some(pairs[0].value)
    } else {
        lookup(pairs.skip(1), key)
    }
}

/// The pairs with a value under a key: in place of the first pair that has the
/// key, else at the end.
pub open spec fn assign(pairs: Seq<PairView>, key: u64, value: ValueView) -> Seq<PairView>
    decreases pairs.len(),
{
    if pairs.len() == 0 {
        seq![PairView { key, value }]
    } else if pairs[0].key == key {
        seq![PairView { key, value }] + pairs.skip(1)
    } else {
        seq![pairs[0]] + assign(pairs.skip(1), key, value)
    }
}

/// What was set is what is found, and every other key is as it was.
pub proof fn law_assign_then_lookup(
    pairs: Seq<PairView>,
    key: u64,
    value: ValueView,
    other: u64,
)
    ensures
        lookup(assign(pairs, key, value), key) == Some(value),
        other != key ==> lookup(assign(pairs, key, value), other) == lookup(pairs, other),
    decreases pairs.len(),
{
    reveal_with_fuel(lookup, 2);
    let after = assign(pairs, key, value);
    if pairs.len() == 0 {
        assert(after.skip(1) =~= Seq::<PairView>::empty());
    } else if pairs[0].key == key {
        assert(after.skip(1) =~= pairs.skip(1));
    } else {
        law_assign_then_lookup(pairs.skip(1), key, value, other);
        assert(after.skip(1) =~= assign(pairs.skip(1), key, value));
    }
}

/// Where no pair has the key before an index, looking up and setting begin
/// there.
proof fn lemma_skip_others(pairs: Seq<PairView>, key: u64, value: ValueView, i: int)
    requires
        0 <= i <= pairs.len(),
        forall|j: int| 0 <= j < i ==> (#[trigger] pairs[j]).key != key,
    ensures
        lookup(pairs, key) == lookup(pairs.skip(i), key),
        assign(pairs, key, value) == pairs.take(i) + assign(pairs.skip(i), key, value),
    decreases i,
{
    if i == 0 {
        assert(pairs.skip(0) =~= pairs);
        assert(pairs.take(0) + assign(pairs, key, value) =~= assign(pairs, key, value));
    } else {
        assert(pairs[0].key != key);
        assert forall|j: int| 0 <= j < i - 1 implies (#[trigger] pairs.skip(1)[j]).key != key by {
            assert(pairs[j + 1].key != key);
        }
        lemma_skip_others(pairs.skip(1), key, value, i - 1);
        assert(pairs.skip(1).skip(i - 1) =~= pairs.skip(i));
        assert(seq![pairs[0]] + pairs.skip(1).take(i - 1) =~= pairs.take(i));
        assert(assign(pairs, key, value) =~= pairs.take(i) + assign(pairs.skip(i), key, value));
    }
}

impl KeyValuePairs {
    /// The index of the first pair that has a key, or the number of pairs.
    fn position(&self, key: u64) -> (i: usize)
        ensures
            i <= self.0@.len(),
            forall|j: int| 0 <= j < i ==> (#[trigger] self.0@[j]).key != key,
            i < self.0@.len() ==> self.0@[i as int].key == key,
    {
        let mut i: usize = 0;
        while i < self.0.len()
            invariant
                i <= self.0@.len(),
                forall|j: int| 0 <= j < i ==> (#[trigger] self.0@[j]).key != key,
            decreases self.0@.len() - i,
        {
            if self.0[i].key == key {
                return i;
            }
            i = i + 1;
        }
        i
    }

    pub fn new() -> (r: Self)
        ensures
            r@ == Seq::<PairView>::empty(),
    {
        KeyValuePairs::default()
    }

    pub fn is_empty(&self) -> (r: bool)
        ensures
            r == (self@.len() == 0),
    {
        self.0.len() == 0
    }

    /// Whether there is a value under a key.
    pub fn has(&self, key: u64) -> (r: bool)
        ensures
            r == (lookup(self@, key) is Some),
    {
        self.get(key).is_some()
    }

    /// The pair under a key.
    pub fn get(&self, key: u64) -> (r: Option<&KeyValuePair>)
        ensures
            match r {
                Some(p) => p.key == key && lookup(self@, key) == Some(p.value@),
                None => lookup(self@, key) is None,
            },
    {
        let i: usize = self.position(key);
        proof {
            assert forall|j: int| 0 <= j < i implies (#[trigger] self@[j]).key != key by {
                assert(self.0@[j].key != key);
            }
            lemma_skip_others(self@, key, ValueView::IntValue(0), i as int);
        }
        if i < self.0.len() {
            assert(self@.skip(i as int)[0] == self.0@[i as int]@);
            Some(&self.0[i])
        } else {
            None
        }
    }

    /// Puts bytes under a key.
    pub fn set_bytesvalue(&mut self, key: u64, value: Vec<u8>)
        ensures
            final(self)@ == assign(old(self)@, key, ValueView::BytesValue(value@)),
    {
        let i: usize = self.position(key);
        let ghost before = self@;
        let ghost v = ValueView::BytesValue(value@);
        proof {
            assert forall|j: int| 0 <= j < i implies (#[trigger] before[j]).key != key by {
                assert(self.0@[j].key != key);
            }
            lemma_skip_others(before, key, v, i as int);
        }
        if i < self.0.len() {
            let pair = KeyValuePair { key, value: Value::BytesValue(value) };
            proof {
                assert(before.skip(i as int)[0].key == key);
                assert(before.skip(i as int).skip(1) =~= before.skip(i + 1));
            }
            self.0[i] = pair;
            assert(self@ =~= before.take(i as int) + (seq![pair@] + before.skip(i + 1)));
        } else {
            let pair = KeyValuePair { key, value: Value::BytesValue(value) };
            self.0.push(pair);
            proof {
                assert(before.skip(i as int) =~= Seq::<PairView>::empty());
                assert(self@ =~= before.take(i as int) + seq![pair@]);
            }
        }
    }
}

/// A key is found exactly where some pair has it, and then with the value of the
/// first pair that does.
pub proof fn law_first_pair_counts(pairs: Seq<PairView>, key: u64)
    ensures
        (lookup(pairs, key) is None) == (forall|i: int|
            0 <= i < pairs.len() ==> (#[trigger] pairs[i]).key != key),
        lookup(pairs, key) matches Some(value) ==> exists|i: int|
            {
                &&& 0 <= i < pairs.len()
                &&& (#[trigger] pairs[i]).key == key
                &&& pairs[i].value == value
                &&& forall|j: int| 0 <= j < i ==> (#[trigger] pairs[j]).key != key
            },
    decreases pairs.len(),
{
    if pairs.len() > 0 && pairs[0].key != key {
        let rest = pairs.skip(1);
        law_first_pair_counts(rest, key);
        assert forall|i: int| 0 <= i < rest.len() implies #[trigger] rest[i] == pairs[i + 1] by {}
        if lookup(rest, key) is None {
            assert forall|i: int| 0 <= i < pairs.len() implies (#[trigger] pairs[i]).key != key by {
                if i > 0 {
                    assert(rest[i - 1].key != key);
                }
            }
        } else {
            let i = choose|i: int|
                {
                    &&& 0 <= i < rest.len()
                    &&& (#[trigger] rest[i]).key == key
                    &&& rest[i].value == lookup(rest, key)->0
                    &&& forall|j: int| 0 <= j < i ==> (#[trigger] rest[j]).key != key
                };
            assert(pairs[i + 1].key == key);
            assert forall|j: int| 0 <= j < i + 1 implies (#[trigger] pairs[j]).key != key by {
                if j > 0 {
                    assert(rest[j - 1].key != key);
                }
            }
        }
    }
}

/// Setting a value keeps the order of the pairs: every pair of another key stays
/// at its place, and only a key that was not there adds a pair, at the end.
pub proof fn law_setting_keeps_the_places(pairs: Seq<PairView>, key: u64, value: ValueView)
    ensures
        lookup(pairs, key) is Some ==> assign(pairs, key, value).len() == pairs.len(),
        lookup(pairs, key) is None ==> assign(pairs, key, value) == pairs.push(
            PairView { key, value },
        ),
        assign(pairs, key, value).len() >= pairs.len(),
        forall|i: int|
            0 <= i < pairs.len() ==> {
                &&& (#[trigger] assign(pairs, key, value)[i]).key == pairs[i].key
                &&& pairs[i].key != key ==> assign(pairs, key, value)[i] == pairs[i]
            },
    decreases pairs.len(),
{
    let after = assign(pairs, key, value);
    if pairs.len() == 0 {
        assert(after =~= pairs.push(PairView { key, value }));
    } else if pairs[0].key == key {
        assert forall|i: int| 0 <= i < pairs.len() implies (#[trigger] after[i]).key == pairs[i].key
            && (pairs[i].key != key ==> after[i] == pairs[i]) by {
            if i > 0 {
                assert(after[i] == pairs.skip(1)[i - 1]);
            }
        }
    } else {
        let rest = pairs.skip(1);
        let rest_after = assign(rest, key, value);
        law_setting_keeps_the_places(rest, key, value);
        assert forall|i: int| 0 <= i < pairs.len() implies (#[trigger] after[i]).key == pairs[i].key
            && (pairs[i].key != key ==> after[i] == pairs[i]) by {
            if i > 0 {
                assert(after[i] == rest_after[i - 1]);
                assert(rest[i - 1] == pairs[i]);
            }
        }
        if lookup(pairs, key) is None {
            assert(after =~= pairs.push(PairView { key, value }));
        }
    }
}

} // verus!
