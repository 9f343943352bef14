//! A record whose fields are filled by dispatch: each field has its
//! classification, the converter of its values where it has one, and what it
//! holds.

use vstd::prelude::*;
use crate::attr::{AttributeModel, FieldAttribute, FieldModel, GuzzleAttribute};
use crate::dispatch::{same_rules, Dispatch, Guzzle, KVPredicates, Key, YummyMetadata};
use crate::first::{
    first_index, lemma_first_index, lemma_first_index_agrees, lemma_first_index_is,
    lemma_first_index_none,
};
use crate::text::str_eq;

verus! {

/// What a field holds.
#[derive(Debug, PartialEq, Eq)]
pub enum Value<V, N> {
    /// A value as it came.
    Text(String),
    /// A value that went through the field's converter.
    Parsed(V),
    /// A nested record.
    Nested(N),
}

/// [`Value`] with its text as a sequence of characters and its nested record by
/// its view.
pub enum ValueModel<V, M> {
    Text(Seq<char>),
    Parsed(V),
    Nested(M),
}

impl<V, N: View> View for Value<V, N> {
    type V = ValueModel<V, N::V>;

    open spec fn view(&self) -> ValueModel<V, N::V> {
        match self {
            Value::Text(text) => ValueModel::Text(text@),
            Value::Parsed(value) => ValueModel::Parsed(*value),
            Value::Nested(record) => ValueModel::Nested(record@),
        }
    }
}

/// One field of a record.
#[derive(Debug)]
pub struct Slot<V, F, N> {
    /// The field's name and classification.
    pub attribute: FieldAttribute,
    /// The converter of the field's values, where it has one.
    pub parser: Option<F>,
    /// What the field holds.
    pub value: Value<V, N>,
}

impl<V, F: Fn(String) -> V, N: Guzzle> Slot<V, F, N> {
    /// Whether the field is a nested record that takes a pair with this key.
    pub open spec fn delegates(&self, key: Seq<char>) -> bool {
        &&& self.attribute@.recursion() is Some
        &&& self.value matches Value::Nested(record)
        &&& record.consumes(key)
    }

    /// Whether the field is a nested record that is asked for its pairs.
    pub open spec fn is_delegate(&self) -> bool {
        self.attribute@.recursion() is Some && self.value is Nested
    }

    /// Whether `key` is one of the field's keys.
    pub open spec fn keyed_by(&self, key: Seq<char>) -> bool {
        self.attribute@.keys().contains(key)
    }

    /// Whether what the field holds is of the kind that its classification asks
    /// for: a nested record for a recursive field, which must name itself, a
    /// converter and a converted value for a keyed field with a parser, no
    /// converter and a text for a keyed field without one.
    pub open spec fn fits(&self) -> bool {
        &&& self.attribute@.names_itself()
        &&& self.kinds_fit()
    }

    /// Whether the converter and what the field holds are of the kind that the
    /// classification asks for.
    pub open spec fn kinds_fit(&self) -> bool {
        match self.attribute@.attributes {
            None => self.parser is None,
            Some(AttributeModel::Recurse(_)) => self.parser is None && self.value is Nested,
            Some(AttributeModel::Keyed(keyed)) => if keyed.parser is Some {
                self.parser is Some && self.value is Parsed
            } else {
                self.parser is None && self.value is Text
            },
        }
    }

    /// Whether `after` is what the field may hold once it has been assigned
    /// `value`: what the converter makes of it where the field has one, the
    /// value itself where it has none.
    pub open spec fn assigned(&self, value: String, after: Value<V, N>) -> bool {
        match self.parser {
            Some(parser) => after matches Value::Parsed(converted) && parser.ensures(
                (value,),
                converted,
            ),
            None => after matches Value::Text(text) && text == value,
        }
    }
}

/// A record: its fields in the order of their declaration.
#[derive(Debug)]
pub struct Record<V, F, N> {
    pub slots: Vec<Slot<V, F, N>>,
}

/// [`Slot`] with its classification and what it holds by their views.
pub struct SlotModel<V, F, M> {
    pub attribute: FieldModel,
    pub parser: Option<F>,
    pub value: ValueModel<V, M>,
}

impl<V, F, N: View> View for Slot<V, F, N> {
    type V = SlotModel<V, F, N::V>;

    open spec fn view(&self) -> SlotModel<V, F, N::V> {
        SlotModel { attribute: self.attribute@, parser: self.parser, value: self.value@ }
    }
}

impl<V, F, N: View> View for Record<V, F, N> {
    type V = Seq<SlotModel<V, F, N::V>>;

    /// The fields in the order of their declaration: of each its name and
    /// classification, its converter, and what it holds.
    open spec fn view(&self) -> Seq<SlotModel<V, F, N::V>> {
        self.slots@.map_values(|slot: Slot<V, F, N>| slot@)
    }
}

impl<V, F: Fn(String) -> V, N: Guzzle> Record<V, F, N> {
    /// For each place, whether the field there is a nested record that takes a
    /// pair with this key.
    pub open spec fn delegating(&self, key: Seq<char>) -> spec_fn(int) -> bool {
        |i: int| self.slots@[i].delegates(key)
    }

    /// For each place, whether the field there has this key.
    pub open spec fn keyed(&self, key: Seq<char>) -> spec_fn(int) -> bool {
        |i: int| self.slots@[i].keyed_by(key)
    }

    /// The first nested record, in the order of the fields, that takes a pair
    /// with this key.
    pub open spec fn delegate(&self, key: Seq<char>) -> Option<int> {
        first_index(self.slots@.len() as int, self.delegating(key), 0)
    }

    /// The first field, in the order of the fields, that has this key.
    pub open spec fn target(&self, key: Seq<char>) -> Option<int> {
        first_index(self.slots@.len() as int, self.keyed(key), 0)
    }

    /// Whether every field holds what its classification asks for.
    pub open spec fn fits(&self) -> bool {
        forall|i: int| 0 <= i < self.slots@.len() ==> (#[trigger] self.slots@[i]).fits()
    }

    /// Whether `after` has the fields of this record, with the same
    /// classifications and converters, and nested records with the same rules.
    pub open spec fn same_fields(&self, after: Self) -> bool {
        &&& after.slots@.len() == self.slots@.len()
        &&& forall|i: int|
            0 <= i < self.slots@.len() ==> {
                &&& (#[trigger] after.slots@[i]).attribute == self.slots@[i].attribute
                &&& after.slots@[i].parser == self.slots@[i].parser
                &&& after.slots@[i].is_delegate() == self.slots@[i].is_delegate()
                &&& self.slots@[i].is_delegate() ==> same_rules(
                    self.slots@[i].value->Nested_0,
                    after.slots@[i].value->Nested_0,
                )
            }
    }

    /// Whether the fields other than `i` hold in `after` what they hold here.
    pub open spec fn same_but(&self, after: Self, i: int) -> bool {
        forall|j: int|
            0 <= j < self.slots@.len() && j != i ==> (#[trigger] after.slots@[j]).value@
                == self.slots@[j].value@
    }

    /// The first nested record that takes the key is one, and none before it
    /// takes the key.
    pub proof fn lemma_delegate(&self, key: Seq<char>)
        ensures
            match self.delegate(key) {
                Some(d) => 0 <= d < self.slots@.len() && self.slots@[d].delegates(key)
                    && forall|j: int| 0 <= j < d ==> !(#[trigger] self.slots@[j]).delegates(key),
                None => forall|j: int|
                    0 <= j < self.slots@.len() ==> !(#[trigger] self.slots@[j]).delegates(key),
            },
    {
        let holds = self.delegating(key);
        lemma_first_index(self.slots@.len() as int, holds, 0);
        match self.delegate(key) {
            Some(d) => {
                assert forall|j: int| 0 <= j < d implies !(#[trigger] self.slots@[j]).delegates(
                    key,
                ) by {
                    assert(!holds(j));
                }
            },
            None => {
                assert forall|j: int| 0 <= j < self.slots@.len() implies !(
                #[trigger] self.slots@[j]).delegates(key) by {
                    assert(!holds(j));
                }
            },
        }
    }

    /// The first field that has the key has it, and none before it has the key.
    pub proof fn lemma_target(&self, key: Seq<char>)
        ensures
            match self.target(key) {
                Some(t) => 0 <= t < self.slots@.len() && self.slots@[t].keyed_by(key)
                    && forall|j: int| 0 <= j < t ==> !(#[trigger] self.slots@[j]).keyed_by(key),
                None => forall|j: int|
                    0 <= j < self.slots@.len() ==> !(#[trigger] self.slots@[j]).keyed_by(key),
            },
    {
        let holds = self.keyed(key);
        lemma_first_index(self.slots@.len() as int, holds, 0);
        match self.target(key) {
            Some(t) => {
                assert forall|j: int| 0 <= j < t implies !(#[trigger] self.slots@[j]).keyed_by(
                    key,
                ) by {
                    assert(!holds(j));
                }
            },
            None => {
                assert forall|j: int| 0 <= j < self.slots@.len() implies !(
                #[trigger] self.slots@[j]).keyed_by(key) by {
                    assert(!holds(j));
                }
            },
        }
    }

    /// A record with the same fields finds the same nested record and the same
    /// field for every key.
    pub proof fn lemma_same_fields_same_places(&self, after: Self, key: Seq<char>)
        requires
            self.same_fields(after),
        ensures
            after.delegate(key) == self.delegate(key),
            after.target(key) == self.target(key),
    {
        let len = self.slots@.len() as int;
        assert forall|j: int| 0 <= j < len implies #[trigger] self.delegating(key)(j)
            == after.delegating(key)(j) by {
            assert(after.slots@[j].attribute == self.slots@[j].attribute);
        }
        lemma_first_index_agrees(len, self.delegating(key), after.delegating(key), 0);
        assert forall|j: int| 0 <= j < len implies #[trigger] self.keyed(key)(j) == after.keyed(
            key,
        )(j) by {
            assert(after.slots@[j].attribute == self.slots@[j].attribute);
        }
        lemma_first_index_agrees(len, self.keyed(key), after.keyed(key), 0);
    }

    /// A record with the same fields has the same rules.
    pub proof fn lemma_same_fields_same_rules(&self, after: Self)
        requires
            self.same_fields(after),
        ensures
            same_rules(*self, after),
    {
        assert forall|key: Seq<char>| #[trigger] after.consumes(key) == self.consumes(key) by {
            self.lemma_same_fields_same_places(after, key);
        }
        assert forall|key: Seq<char>, value: String| #[trigger]
            after.accepts(key, value) == self.accepts(key, value) by {
            self.lemma_same_fields_same_places(after, key);
            self.lemma_target(key);
            // The nested records that are asked are the same, and each can be
            // handed what it could be handed before.
            assert forall|i: int| 0 <= i < self.slots@.len() implies {
                &&& (#[trigger] after.slots@[i]).is_delegate() == self.slots@[i].is_delegate()
                &&& self.slots@[i].is_delegate() ==> after.slots@[i].value->Nested_0.accepts(
                    key,
                    value,
                ) == self.slots@[i].value->Nested_0.accepts(key, value)
            } by {
                assert(after.slots@[i].attribute == self.slots@[i].attribute);
            }
            if after.accepts(key, value) {
                assert forall|i: int|
                    0 <= i < self.slots@.len() && (self.delegate(key) matches Some(d) ==> i <= d)
                        && (#[trigger] self.slots@[i]).is_delegate() implies {
                    self.slots@[i].value->Nested_0.accepts(key, value)
                } by {
                    assert(after.slots@[i].is_delegate());
                }
            }
        }
    }
}

impl<V, F: Fn(String) -> V, N: Guzzle> Dispatch for Record<V, F, N> {
    /// A record takes a pair that one of its nested records takes, or that has
    /// a key of one of its fields.
    open spec fn consumes(&self, key: Seq<char>) -> bool {
        self.delegate(key) is Some || self.target(key) is Some
    }

    /// A record can be handed a pair that every nested record which is asked can
    /// be handed: all of them where none takes the pair, those up to the first
    /// that takes it otherwise. Where none takes it, the converter of the field
    /// that has the key must be able to take the value.
    open spec fn accepts(&self, key: Seq<char>, value: String) -> bool {
        &&& forall|i: int|
            0 <= i < self.slots@.len() && (self.delegate(key) matches Some(d) ==> i <= d) ==> (
            #[trigger] self.slots@[i]).is_delegate() ==> self.slots@[i].value->Nested_0.accepts(
                key,
                value,
            )
        &&& self.delegate(key) is None ==> (self.target(key) matches Some(t) ==> (
        self.slots@[t].parser matches Some(parser) ==> parser.requires((value,))))
    }

    /// The first nested record that takes the pair is fed with it, and nothing
    /// else changes. Where no nested record takes it, the first field that has
    /// the key is assigned the value, and nothing else changes.
    open spec fn fed(&self, key: Seq<char>, value: String, after: Self) -> bool {
        &&& self.same_fields(after)
        &&& match self.delegate(key) {
            Some(d) => {
                &&& self.same_but(after, d)
                &&& self.slots@[d].value->Nested_0.fed(key, value, after.slots@[d].value->Nested_0)
            },
            None => match self.target(key) {
                Some(t) => self.same_but(after, t) && self.slots@[t].assigned(
                    value,
                    after.slots@[t].value,
                ),
                None => false,
            },
        }
    }
}

impl<V, F: Fn(String) -> V, N: Guzzle> Guzzle for Record<V, F, N> {
    /// The nested records are asked in the order of the fields, and the first
    /// that takes the pair ends the call. Where none takes it, the first field
    /// that has the key is assigned the value, through its converter where it
    /// has one.
    fn guzzle<T: Key>(&mut self, current: (T, String)) -> (rest: Option<(T, String)>)
        ensures
            old(self).same_fields(*final(self)),
            old(self).fits() ==> final(self).fits(),
    {
        let ghost key = current.0.text();
        let ghost value = current.1;
        let ghost before = *self;
        let ghost len = self.slots@.len() as int;
        let mut pair = current;
        let mut i: usize = 0;
        while i < self.slots.len()
            invariant
                i <= self.slots@.len() == len == before.slots@.len(),
                before == *old(self),
                pair == current,
                key == current.0.text(),
                value == current.1,
                before.accepts(key, value),
                forall|j: int| 0 <= j < i ==> !#[trigger] before.delegating(key)(j),
                forall|j: int| i <= j < len ==> self.slots@[j] == before.slots@[j],
                before.same_fields(*self),
                before.same_but(*self, -1),
                before.fits() ==> self.fits(),
            decreases len - i,
        {
            if self.slots[i].attribute.get_recursion().is_some() {
                match &mut self.slots[i].value {
                    Value::Nested(record) => {
                        proof {
                            // No nested record before this one takes the pair, so this
                            // one is among those that can be handed it.
                            lemma_first_index(len, before.delegating(key), 0);
                            assert(before.slots@[i as int].is_delegate());
                        }
                        match record.guzzle(pair) {
                            None => {
                                proof {
                                    assert(before.delegating(key)(i as int));
                                    lemma_first_index_is(len, before.delegating(key), 0, i as int);
                                    assert(before.same_but(*self, i as int));
                                    before.lemma_same_fields_same_rules(*self);
                                }
                                return None;
                            },
                            Some(back) => {
                                pair = back;
                            },
                        }
                    },
                    _ => {},
                }
            }
            i += 1;
        }
        proof {
            lemma_first_index_none(len, before.delegating(key), 0);
        }
        let ghost asked = *self;
        let mut t: usize = 0;
        while t < self.slots.len()
            invariant
                t <= self.slots@.len() == len == before.slots@.len(),
                *self == asked,
                before == *old(self),
                pair == current,
                key == current.0.text(),
                value == current.1,
                before.accepts(key, value),
                before.delegate(key) is None,
                forall|j: int| 0 <= j < t ==> !#[trigger] before.keyed(key)(j),
                before.same_fields(asked),
                before.same_but(asked, -1),
                before.fits() ==> asked.fits(),
            decreases len - t,
        {
            if self.slots[t].attribute.has_key(pair.0.as_text()) {
                proof {
                    assert(before.keyed(key)(t as int));
                    lemma_first_index_is(len, before.keyed(key), 0, t as int);
                }
                let (_, text) = pair;
                let slot = &mut self.slots[t];
                match &slot.parser {
                    Some(parser) => {
                        slot.value = Value::Parsed(parser(text));
                    },
                    None => {
                        slot.value = Value::Text(text);
                    },
                }
                proof {
                    assert(before.same_but(*self, t as int));
                    assert(before.slots@[t as int].assigned(value, self.slots@[t as int].value));
                    before.lemma_same_fields_same_rules(*self);
                }
                return None;
            }
            t += 1;
        }
        proof {
            lemma_first_index_none(len, before.keyed(key), 0);
            before.lemma_same_fields_same_rules(*self);
            assert(self@ =~= before@);
        }
        Some(pair)
    }
}

impl<V, F: Fn(String) -> V, N: Guzzle> Slot<V, F, N> {
    /// Puts a field together from its classification, its converter and what it
    /// holds at first. There is no field where these do not fit each other.
    pub fn new(attribute: FieldAttribute, parser: Option<F>, value: Value<V, N>) -> (slot: Option<
        Self,
    >)
        ensures
            (Slot { attribute, parser, value }).fits() ==> slot == Some(
                Slot { attribute, parser, value },
            ),
            !(Slot { attribute, parser, value }).fits() ==> slot is None,
    {
        let converts = parser.is_some();
        let fits = attribute.is_consistent() && match &attribute.attributes {
            None => !converts,
            Some(GuzzleAttribute::RecurseAttribute(_)) => !converts && match &value {
                Value::Nested(_) => true,
                _ => false,
            },
            Some(GuzzleAttribute::KeyedAttribute(keyed)) => if keyed.parser.is_some() {
                converts && match &value {
                    Value::Parsed(_) => true,
                    _ => false,
                }
            } else {
                !converts && match &value {
                    Value::Text(_) => true,
                    _ => false,
                }
            },
        };
        if fits {
            Some(Slot { attribute, parser, value })
        } else {
            None
        }
    }
}

impl<V, F: Fn(String) -> V, N: Guzzle> Record<V, F, N> {
    /// For each place, whether the field there has this name.
    pub open spec fn named(&self, name: Seq<char>) -> spec_fn(int) -> bool {
        |i: int| self.slots@[i].attribute@.field == name
    }

    /// The place of the first field of this name.
    pub open spec fn place(&self, name: Seq<char>) -> Option<int> {
        first_index(self.slots@.len() as int, self.named(name), 0)
    }

    /// The record without fields.
    pub fn new() -> (record: Self)
        ensures
            record.slots@.len() == 0,
    {
        Record { slots: Vec::new() }
    }

    /// Adds a field behind those that the record has.
    pub fn push(&mut self, slot: Slot<V, F, N>)
        ensures
            final(self).slots@ == old(self).slots@.push(slot),
            old(self).fits() && slot.fits() ==> final(self).fits(),
    {
        self.slots.push(slot);
    }

    /// The place of the first field of this name.
    pub fn position(&self, name: &str) -> (found: Option<usize>)
        ensures
            match found {
                Some(i) => self.place(name@) == Some(i as int),
                None => self.place(name@) is None,
            },
    {
        let mut i: usize = 0;
        while i < self.slots.len()
            invariant
                i <= self.slots@.len(),
                forall|j: int| 0 <= j < i ==> !#[trigger] self.named(name@)(j),
            decreases self.slots@.len() - i,
        {
            if str_eq(self.slots[i].attribute.field.as_str(), name) {
                proof {
                    assert(self.named(name@)(i as int));
                    lemma_first_index_is(self.slots@.len() as int, self.named(name@), 0, i as int);
                }
                return Some(i);
            }
            i += 1;
        }
        proof {
            lemma_first_index_none(self.slots@.len() as int, self.named(name@), 0);
        }
        None
    }

    /// What the first field of this name holds.
    pub fn get(&self, name: &str) -> (found: Option<&Value<V, N>>)
        ensures
            match found {
                Some(value) => self.place(name@) matches Some(i) && 0 <= i < self.slots@.len()
                    && *value == self.slots@[i].value,
                None => self.place(name@) is None,
            },
    {
        match self.position(name) {
            Some(i) => {
                proof {
                    lemma_first_index(self.slots@.len() as int, self.named(name@), 0);
                }
                Some(&self.slots[i].value)
            },
            None => None,
        }
    }
}

impl<V, F: Fn(String) -> V, N: Guzzle> YummyMetadata for Record<V, F, N> {
    fn eat_yummy_metadata<T: Key>(&mut self, current: (T, String)) -> (rest: Option<(T, String)>)
        ensures
            old(self).same_fields(*final(self)),
            old(self).fits() ==> final(self).fits(),
    {
        self.guzzle(current)
    }
}

impl<V, F: Fn(String) -> V, N: Guzzle> KVPredicates for Record<V, F, N> {
    fn filter_map_predicate<T: Key>(&mut self, current: (T, String)) -> (rest: Option<
        (T, String),
    >)
        ensures
            old(self).same_fields(*final(self)),
            old(self).fits() ==> final(self).fits(),
    {
        self.guzzle(current)
    }
}

} // verus!
