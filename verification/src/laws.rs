//! What holds of every record and every pair.

use vstd::prelude::*;
use crate::attr::{
    classification, classification_from, keyed_of, marker_of, ArmModel, Attribute,
    AttributeModel, ErrorModel, FieldModel, KeyedModel, Marker,
};
use crate::derive::key_table;
use crate::dispatch::{dispatched, residual, same_rules, Dispatch, Guzzle, Key};
use crate::first::{
    first_index, lemma_first_index, lemma_first_index_agrees, lemma_first_index_is,
    lemma_first_index_none,
};
use crate::record::{Record, Slot, Value};

verus! {

/// A field without annotations is keyed by its own name and has no parser.
pub proof fn law_default_classification(name: Seq<char>)
    ensures
        classification(name, Seq::<Attribute>::empty()) == Ok::<
            Option<AttributeModel>,
            ErrorModel,
        >(Some(AttributeModel::Keyed(KeyedModel { keys: seq![name], parser: None }))),
{
}

/// A keyed field has at least one key, whatever its annotations are.
pub proof fn law_keyed_has_keys(
    name: Seq<char>,
    attrs: Seq<Attribute>,
    from: int,
    so_far: Option<AttributeModel>,
)
    requires
        0 <= from,
    ensures
        classification_from(name, attrs, from, so_far) matches Ok(
            Some(AttributeModel::Keyed(keyed)),
        ) ==> keyed.keys.len() > 0,
    decreases attrs.len() - from,
{
    if from < attrs.len() {
        match marker_of(attrs[from].path@) {
            Marker::Keyed => {
                if keyed_of(attrs[from].tts@) is Ok {
                    law_keyed_has_keys(
                        name,
                        attrs,
                        from + 1,
                        Some(AttributeModel::Keyed(keyed_of(attrs[from].tts@)->Ok_0)),
                    );
                }
            },
            Marker::Other => {
                law_keyed_has_keys(name, attrs, from + 1, so_far);
            },
            _ => {},
        }
    }
}

/// Whether an annotation neither decides the classification nor refuses the
/// field: it is a `guzzle` annotation that is accepted, or of no concern.
pub open spec fn passes(attribute: Attribute) -> bool {
    match marker_of(attribute.path@) {
        Marker::Keyed => keyed_of(attribute.tts@) is Ok,
        Marker::Other => true,
        _ => false,
    }
}

/// The first annotation that marks a field as excluded or as recursive decides,
/// where the annotations before it pass: the excluded field takes no data, and
/// the recursive field delegates to the nested record that it holds. What
/// stands behind the marker, and what `guzzle` annotations before it said, makes
/// no difference.
pub proof fn law_first_marker_decides(
    name: Seq<char>,
    attrs: Seq<Attribute>,
    from: int,
    so_far: Option<AttributeModel>,
    i: int,
)
    requires
        0 <= from <= i < attrs.len(),
        forall|j: int| from <= j < i ==> passes(#[trigger] attrs[j]),
        marker_of(attrs[i].path@) is Exclude || marker_of(attrs[i].path@) is Recurse,
    ensures
        marker_of(attrs[i].path@) is Exclude ==> classification_from(name, attrs, from, so_far)
            == Ok::<Option<AttributeModel>, ErrorModel>(None),
        marker_of(attrs[i].path@) is Recurse ==> classification_from(name, attrs, from, so_far)
            == Ok::<Option<AttributeModel>, ErrorModel>(Some(AttributeModel::Recurse(name))),
    decreases i - from,
{
    if from < i {
        assert(passes(attrs[from]));
        match marker_of(attrs[from].path@) {
            Marker::Keyed => {
                law_first_marker_decides(
                    name,
                    attrs,
                    from + 1,
                    Some(AttributeModel::Keyed(keyed_of(attrs[from].tts@)->Ok_0)),
                    i,
                );
            },
            _ => {
                law_first_marker_decides(name, attrs, from + 1, so_far, i);
            },
        }
    }
}

/// Whether a field is classified as a field without annotations is.
pub open spec fn is_plain(field: FieldModel) -> bool {
    Ok::<Option<AttributeModel>, ErrorModel>(field.attributes) == classification(
        field.field,
        Seq::<Attribute>::empty(),
    )
}

/// In a record whose fields have no annotations, a pair is taken if and only if
/// its key is the name of a field. The pair is then assigned, as it is, to the
/// first field of that name, and no other field changes.
pub proof fn law_plain_record<V, F: Fn(String) -> V, N: Guzzle>(
    record: Record<V, F, N>,
    key: Seq<char>,
    value: String,
    after: Record<V, F, N>,
)
    requires
        record.fits(),
        forall|i: int|
            0 <= i < record.slots@.len() ==> is_plain((#[trigger] record.slots@[i]).attribute@),
    ensures
        record.consumes(key) <==> exists|i: int|
            0 <= i < record.slots@.len() && (#[trigger] record.slots@[i]).attribute@.field == key,
        record.consumes(key) ==> (record.target(key) matches Some(t)
            && record.slots@[t].attribute@.field == key),
        record.consumes(key) && record.fed(key, value, after) ==> {
            let t = record.target(key)->0;
            after.slots@[t].value == Value::<V, N>::Text(value) && record.same_but(after, t)
        },
{
    let len = record.slots@.len() as int;
    assert forall|i: int| 0 <= i < len implies !(#[trigger] record.slots@[i]).delegates(key)
        && record.slots@[i].keyed_by(key) == (record.slots@[i].attribute@.field == key)
        && record.slots@[i].parser is None by {
        let slot = record.slots@[i];
        assert(is_plain(slot.attribute@));
        law_default_classification(slot.attribute@.field);
        assert(slot.fits());
        assert(slot.attribute@.keys() =~= seq![slot.attribute@.field]);
        assert(seq![slot.attribute@.field][0] == slot.attribute@.field);
    }
    assert forall|i: int| 0 <= i < len implies !#[trigger] record.delegating(key)(i) by {
        assert(!record.slots@[i].delegates(key));
    }
    lemma_first_index_none(len, record.delegating(key), 0);
    record.lemma_target(key);
    if record.consumes(key) {
        let t = record.target(key)->0;
        assert(record.slots@[t].keyed_by(key));
        assert(record.slots@[t].attribute@.field == key);
    }
    if exists|i: int| 0 <= i < len && (#[trigger] record.slots@[i]).attribute@.field == key {
        let i = choose|i: int|
            0 <= i < len && (#[trigger] record.slots@[i]).attribute@.field == key;
        assert(record.slots@[i].keyed_by(key));
        assert(record.target(key) is Some);
    }
}

/// A pair whose key is one of a field's keys is taken. Where no nested record
/// takes it and no field before this one has the key, it is this field that is
/// assigned the value, through its converter where it has one, and no other
/// field changes.
pub proof fn law_listed_key<V, F: Fn(String) -> V, N: Guzzle>(
    record: Record<V, F, N>,
    field: int,
    i: int,
    value: String,
    after: Record<V, F, N>,
)
    requires
        0 <= field < record.slots@.len(),
        0 <= i < record.slots@[field].attribute@.keys().len(),
    ensures
        record.consumes(record.slots@[field].attribute@.keys()[i]),
        ({
            let key = record.slots@[field].attribute@.keys()[i];
            let first = record.delegate(key) is None && forall|j: int|
                0 <= j < field ==> !(#[trigger] record.slots@[j]).keyed_by(key);
            first ==> {
                &&& record.target(key) == Some(field)
                &&& record.fed(key, value, after) ==> {
                    &&& record.slots@[field].assigned(value, after.slots@[field].value)
                    &&& record.same_but(after, field)
                }
            }
        }),
{
    let key = record.slots@[field].attribute@.keys()[i];
    assert(record.slots@[field].keyed_by(key));
    record.lemma_target(key);
    if forall|j: int| 0 <= j < field ==> !(#[trigger] record.slots@[j]).keyed_by(key) {
        assert(record.keyed(key)(field));
        assert forall|j: int| 0 <= j < field implies !#[trigger] record.keyed(key)(j) by {
            assert(!record.slots@[j].keyed_by(key));
        }
        lemma_first_index_is(record.slots@.len() as int, record.keyed(key), 0, field);
    }
}

/// A field that takes no data has no key and is no nested record: whatever the
/// pair, it is not the field that takes it, and it holds afterwards what it
/// held before.
pub proof fn law_excluded_field<V, F: Fn(String) -> V, N: Guzzle>(
    record: Record<V, F, N>,
    field: int,
    key: Seq<char>,
    value: String,
    after: Record<V, F, N>,
)
    requires
        0 <= field < record.slots@.len(),
        record.slots@[field].attribute@.attributes is None,
    ensures
        !record.slots@[field].keyed_by(key),
        !record.slots@[field].delegates(key),
        record.target(key) != Some(field),
        record.delegate(key) != Some(field),
        record.fed(key, value, after) ==> after.slots@[field].value@
            == record.slots@[field].value@,
        (forall|j: int|
            0 <= j < record.slots@.len() && j != field ==> {
                &&& !(#[trigger] record.slots@[j]).keyed_by(key)
                &&& !record.slots@[j].delegates(key)
            }) ==> !record.consumes(key),
{
    record.lemma_target(key);
    record.lemma_delegate(key);
    assert(record.slots@[field].attribute@.keys() =~= Seq::<Seq<char>>::empty());
}

/// A pair that a nested record takes changes that nested record alone: the
/// fields of the record itself hold what they held, also those that have the
/// pair's key.
pub proof fn law_nested_first<V, F: Fn(String) -> V, N: Guzzle>(
    record: Record<V, F, N>,
    key: Seq<char>,
    value: String,
    after: Record<V, F, N>,
)
    requires
        record.delegate(key) is Some,
        record.fed(key, value, after),
    ensures
        record.consumes(key),
        record.same_but(after, record.delegate(key)->0),
        forall|j: int|
            0 <= j < record.slots@.len() && (#[trigger] record.slots@[j]).keyed_by(key)
                ==> after.slots@[j].value@ == record.slots@[j].value@,
{
    record.lemma_delegate(key);
    let d = record.delegate(key)->0;
    assert forall|j: int|
        0 <= j < record.slots@.len() && (#[trigger] record.slots@[j]).keyed_by(
            key,
        ) implies after.slots@[j].value@ == record.slots@[j].value@ by {
        // A field with keys is no nested record.
        assert(record.slots@[j].attribute@.keys().len() > 0);
        assert(j != d);
    }
}

/// However many pairs a record is handed, and whether it takes them or not, its
/// fields keep their names, keys and converters: a later pair finds the nested
/// record and the field that it would have found at the start.
pub proof fn law_fields_are_kept<V, F: Fn(String) -> V, N: Guzzle>(
    record: Record<V, F, N>,
    mid: Record<V, F, N>,
    after: Record<V, F, N>,
    key: Seq<char>,
)
    requires
        record.same_fields(mid),
        mid.same_fields(after),
    ensures
        record.same_fields(after),
        after.delegate(key) == record.delegate(key),
        after.target(key) == record.target(key),
{
    assert forall|i: int| 0 <= i < record.slots@.len() implies {
        &&& (#[trigger] after.slots@[i]).attribute == record.slots@[i].attribute
        &&& after.slots@[i].parser == record.slots@[i].parser
        &&& after.slots@[i].is_delegate() == record.slots@[i].is_delegate()
        &&& record.slots@[i].is_delegate() ==> same_rules(
            record.slots@[i].value->Nested_0,
            after.slots@[i].value->Nested_0,
        )
    } by {
        assert(mid.slots@[i].attribute == record.slots@[i].attribute);
        assert(after.slots@[i].attribute == mid.slots@[i].attribute);
    }
    record.lemma_same_fields_same_places(after, key);
}

/// The pairs that come back from a run of calls, in the order of the calls.
pub open spec fn returned<T>(results: Seq<Option<(T, String)>>) -> Seq<(T, String)>
    decreases results.len(),
{
    if results.len() == 0 {
        Seq::empty()
    } else {
        let front = returned(results.drop_last());
        match results.last() {
            Some(pair) => front.push(pair),
            None => front,
        }
    }
}

/// When a record is handed pairs one after the other, the pairs that come back
/// are the pairs whose key the record does not take: the same pairs, each as
/// often as it was handed in, and in the same order.
pub proof fn law_residual<D: Dispatch, T: Key>(
    states: Seq<D>,
    pairs: Seq<(T, String)>,
    results: Seq<Option<(T, String)>>,
)
    requires
        states.len() == pairs.len() + 1,
        results.len() == pairs.len(),
        forall|i: int|
            0 <= i < pairs.len() ==> dispatched(
                states[i],
                #[trigger] pairs[i],
                states[i + 1],
                results[i],
            ),
    ensures
        returned(results) == residual(states[0], pairs),
        returned(results).to_multiset() == residual(states[0], pairs).to_multiset(),
    decreases pairs.len(),
{
    reveal(Seq::filter);
    if pairs.len() > 0 {
        let n = pairs.len() - 1;
        assert forall|i: int| 0 <= i < n implies dispatched(
            states.drop_last()[i],
            #[trigger] pairs.drop_last()[i],
            states.drop_last()[i + 1],
            results.drop_last()[i],
        ) by {
            assert(dispatched(states[i], pairs[i], states[i + 1], results[i]));
        }
        law_residual(states.drop_last(), pairs.drop_last(), results.drop_last());
        lemma_rules_kept(states, pairs, results, n);
        assert(dispatched(states[n], pairs[n], states[n + 1], results[n]));
        assert(states.drop_last()[0] == states[0]);
    }
}

/// The rules of a record stay what they were at the start while it is handed
/// pairs.
pub proof fn lemma_rules_kept<D: Dispatch, T: Key>(
    states: Seq<D>,
    pairs: Seq<(T, String)>,
    results: Seq<Option<(T, String)>>,
    n: int,
)
    requires
        states.len() == pairs.len() + 1,
        results.len() == pairs.len(),
        0 <= n <= pairs.len(),
        forall|i: int|
            0 <= i < pairs.len() ==> dispatched(
                states[i],
                #[trigger] pairs[i],
                states[i + 1],
                results[i],
            ),
    ensures
        forall|key: Seq<char>| #[trigger] states[n].consumes(key) == states[0].consumes(key),
    decreases n,
{
    if n > 0 {
        lemma_rules_kept(states, pairs, results, n - 1);
        assert(dispatched(states[n - 1], pairs[n - 1], states[n], results[n - 1]));
    }
}

/// For each line of a key table, whether it has this key.
pub open spec fn matching(table: Seq<ArmModel>, key: Seq<char>) -> spec_fn(int) -> bool {
    |j: int| table[j].matcher == key
}

/// For each field, whether it has this key.
pub open spec fn having(attributes: Seq<FieldModel>, key: Seq<char>) -> spec_fn(int) -> bool {
    |i: int| attributes[i].keys().contains(key)
}

/// The first line of a key table that has this key.
pub open spec fn first_arm(table: Seq<ArmModel>, key: Seq<char>) -> Option<int> {
    first_index(table.len() as int, matching(table, key), 0)
}

/// The first field that has this key.
pub open spec fn first_field(attributes: Seq<FieldModel>, key: Seq<char>) -> Option<int> {
    first_index(attributes.len() as int, having(attributes, key), 0)
}

/// The first line of the key table that has a key is a line of the first field
/// that has the key: it names that field and its parser. Where two fields have
/// the same key, the lines of the second are never reached.
pub proof fn law_first_match_wins(attributes: Seq<FieldModel>, key: Seq<char>)
    ensures
        match first_field(attributes, key) {
            Some(f) => first_arm(key_table(attributes), key) matches Some(j) && 0 <= j
                < key_table(attributes).len() && 0 <= f < attributes.len() && key_table(
                attributes,
            )[j].field == attributes[f].field && key_table(attributes)[j].parser
                == attributes[f].parser(),
            None => first_arm(key_table(attributes), key) is None,
        },
    decreases attributes.len(),
{
    if attributes.len() > 0 {
        let table = key_table(attributes);
        let len = attributes.len() as int;
        let front = attributes.drop_last();
        let last = attributes.last();
        let front_table = key_table(front);
        let offset = front_table.len() as int;
        law_first_match_wins(front, key);
        lemma_first_index(len - 1, having(front, key), 0);
        lemma_first_index(offset, matching(front_table, key), 0);
        assert(table =~= front_table + last.arms());
        assert forall|j: int| 0 <= j < offset implies #[trigger] matching(table, key)(j)
            == matching(front_table, key)(j) by {
            assert(table[j] == front_table[j]);
        }
        assert forall|i: int| 0 <= i < len - 1 implies #[trigger] having(attributes, key)(i)
            == having(front, key)(i) by {
            assert(attributes[i] == front[i]);
        }
        match first_field(front, key) {
            Some(f) => {
                let j = first_arm(front_table, key)->0;
                assert(having(attributes, key)(f));
                assert forall|i: int| 0 <= i < f implies !#[trigger] having(attributes, key)(i) by {
                    assert(!having(front, key)(i));
                }
                lemma_first_index_is(len, having(attributes, key), 0, f);
                assert(matching(table, key)(j));
                assert forall|k: int| 0 <= k < j implies !#[trigger] matching(table, key)(k) by {
                    assert(!matching(front_table, key)(k));
                }
                lemma_first_index_is(table.len() as int, matching(table, key), 0, j);
            },
            None => {
                let keys = last.keys();
                let listed = |k: int| keys[k] == key;
                lemma_first_index(keys.len() as int, listed, 0);
                match first_index(keys.len() as int, listed, 0) {
                    Some(k) => {
                        assert(keys.contains(key));
                        assert(having(attributes, key)(len - 1));
                        assert forall|i: int| 0 <= i < len - 1 implies !#[trigger] having(
                            attributes,
                            key,
                        )(i) by {
                            assert(!having(front, key)(i));
                        }
                        lemma_first_index_is(len, having(attributes, key), 0, len - 1);
                        assert(table[offset + k] == last.arms()[k]);
                        assert(matching(table, key)(offset + k));
                        assert forall|j: int| 0 <= j < offset + k implies !#[trigger] matching(
                            table,
                            key,
                        )(j) by {
                            if j < offset {
                                assert(!matching(front_table, key)(j));
                            } else {
                                assert(table[j] == last.arms()[j - offset]);
                                assert(!listed(j - offset));
                            }
                        }
                        lemma_first_index_is(
                            table.len() as int,
                            matching(table, key),
                            0,
                            offset + k,
                        );
                    },
                    None => {
                        assert(!keys.contains(key)) by {
                            if keys.contains(key) {
                                let k = choose|k: int| 0 <= k < keys.len() && keys[k] == key;
                                assert(!listed(k));
                            }
                        }
                        assert forall|i: int| 0 <= i < len implies !#[trigger] having(
                            attributes,
                            key,
                        )(i) by {
                            if i < len - 1 {
                                assert(!having(front, key)(i));
                            }
                        }
                        lemma_first_index_none(len, having(attributes, key), 0);
                        assert forall|j: int| 0 <= j < table.len() implies !#[trigger] matching(
                            table,
                            key,
                        )(j) by {
                            if j < offset {
                                assert(!matching(front_table, key)(j));
                            } else {
                                assert(table[j] == last.arms()[j - offset]);
                                assert(!listed(j - offset));
                            }
                        }
                        lemma_first_index_none(table.len() as int, matching(table, key), 0);
                    },
                }
            },
        }
    }
}

/// The classifications of a record's fields, in their order.
pub open spec fn classifications<V, F, N>(record: Record<V, F, N>) -> Seq<FieldModel> {
    record.slots@.map_values(|slot: Slot<V, F, N>| slot.attribute@)
}

/// A record looks a key up as its key table says: the field that it assigns is
/// the field that the first line of the table with this key names, and where
/// the table has no such line no field has the key.
pub proof fn law_record_follows_table<V, F: Fn(String) -> V, N: Guzzle>(
    record: Record<V, F, N>,
    key: Seq<char>,
)
    ensures
        match first_arm(key_table(classifications(record)), key) {
            Some(j) => record.target(key) matches Some(t) && 0 <= t < record.slots@.len() && 0 <= j
                < key_table(classifications(record)).len()
                && record.slots@[t].attribute@.field == key_table(classifications(record))[j].field,
            None => record.target(key) is None,
        },
{
    let attributes = classifications(record);
    law_first_match_wins(attributes, key);
    assert forall|i: int| 0 <= i < attributes.len() implies #[trigger] having(attributes, key)(i)
        == record.keyed(key)(i) by {
        assert(attributes[i] == record.slots@[i].attribute@);
    }
    lemma_first_index_agrees(
        attributes.len() as int,
        having(attributes, key),
        record.keyed(key),
        0,
    );
}

} // verus!
