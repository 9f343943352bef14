//! The operation that a record offers: it is handed a pair of a key and a value,
//! and takes the pair or hands it back.

use vstd::prelude::*;

verus! {

/// A key: anything that can be read as text.
pub trait Key: Sized {
    /// The key's text.
    spec fn text(&self) -> Seq<char>;

    /// The key's text.
    fn as_text(&self) -> (text: &str)
        ensures
            text@ == self.text(),
    ;
}

impl Key for String {
    open spec fn text(&self) -> Seq<char> {
        self@
    }

    fn as_text(&self) -> (text: &str) {
        self.as_str()
    }
}

impl<'a> Key for &'a str {
    open spec fn text(&self) -> Seq<char> {
        self@
    }

    fn as_text(&self) -> (text: &str) {
        *self
    }
}

/// The rules by which a record takes pairs. The view of a record is all that it
/// is made of: its fields with their names, keys and converters, and what they
/// hold. The rules do not change when a pair is taken.
pub trait Dispatch: Sized + View {
    /// Whether the record takes a pair with this key.
    spec fn consumes(&self, key: Seq<char>) -> bool;

    /// Whether the record can be handed this pair: whether every converter that
    /// the pair may reach can take the value.
    spec fn accepts(&self, key: Seq<char>, value: String) -> bool;

    /// Whether `after` is what the record may be once it has taken this pair.
    spec fn fed(&self, key: Seq<char>, value: String, after: Self) -> bool;
}

/// Whether two records have the same rules: they take the same keys and can be
/// handed the same pairs.
pub open spec fn same_rules<D: Dispatch>(before: D, after: D) -> bool {
    &&& forall|key: Seq<char>| #[trigger] after.consumes(key) == before.consumes(key)
    &&& forall|key: Seq<char>, value: String| #[trigger]
        after.accepts(key, value) == before.accepts(key, value)
}

/// Whether `after` is what the record `before` may be once it has been handed
/// the pair `current`. A pair that the record takes changes it as
/// [`Dispatch::fed`] says; after any other pair the record is what it was. The
/// rules are the same either way.
pub open spec fn stepped<D: Dispatch, T: Key>(before: D, current: (T, String), after: D) -> bool {
    &&& same_rules(before, after)
    &&& if before.consumes(current.0.text()) {
        before.fed(current.0.text(), current.1, after)
    } else {
        after@ == before@
    }
}

/// What handing the pair `current` to the record `before` comes to: `after` is
/// the record then, and `rest` is what comes back. A pair that the record takes
/// does not come back; any other pair comes back as it was.
pub open spec fn dispatched<D: Dispatch, T: Key>(
    before: D,
    current: (T, String),
    after: D,
    rest: Option<(T, String)>,
) -> bool {
    &&& stepped(before, current, after)
    &&& if before.consumes(current.0.text()) {
        rest is None
    } else {
        rest == Some(current)
    }
}

/// A record that takes the pairs that are meant for it.
pub trait Guzzle: Dispatch {
    /// Hands the record a pair: `None` comes back where the record took it, the
    /// pair itself where it did not.
    fn guzzle<T: Key>(&mut self, current: (T, String)) -> (rest: Option<(T, String)>)
        requires
            old(self).accepts(current.0.text(), current.1),
        ensures
            dispatched(*old(self), current, *final(self), rest),
    ;
}

/// A record that takes the pairs that are meant for it, under the name the
/// operation had first.
pub trait YummyMetadata: Dispatch {
    /// Hands the record a pair: `None` comes back where the record took it, the
    /// pair itself where it did not.
    fn eat_yummy_metadata<T: Key>(&mut self, current: (T, String)) -> (rest: Option<(T, String)>)
        requires
            old(self).accepts(current.0.text(), current.1),
        ensures
            dispatched(*old(self), current, *final(self), rest),
    ;
}

/// A record that filters the pairs it is handed: it keeps those that are meant
/// for it.
pub trait KVPredicates: Dispatch {
    /// Hands the record a pair: `None` comes back where the record took it, the
    /// pair itself where it did not.
    fn filter_map_predicate<T: Key>(&mut self, current: (T, String)) -> (rest: Option<
        (T, String),
    >)
        requires
            old(self).accepts(current.0.text(), current.1),
        ensures
            dispatched(*old(self), current, *final(self), rest),
    ;
}

/// A type that can name itself.
pub trait KVPredicatesSimple {
    fn test() -> String;
}

/// The record without fields: it takes no pair.
#[derive(Clone, Copy, Debug, Default, PartialEq, Eq)]
pub struct Empty;

impl View for Empty {
    type V = ();

    open spec fn view(&self) -> () {
        ()
    }
}

impl Dispatch for Empty {
    open spec fn consumes(&self, key: Seq<char>) -> bool {
        false
    }

    open spec fn accepts(&self, key: Seq<char>, value: String) -> bool {
        true
    }

    open spec fn fed(&self, key: Seq<char>, value: String, after: Self) -> bool {
        false
    }
}

impl Guzzle for Empty {
    fn guzzle<T: Key>(&mut self, current: (T, String)) -> (rest: Option<(T, String)>) {
        Some(current)
    }
}

/// What is left of `pairs` once a record with the rules of `record` has been
/// handed each of them in turn: the pairs that it does not take, in their order.
pub open spec fn residual<D: Dispatch, T: Key>(record: D, pairs: Seq<(T, String)>) -> Seq<
    (T, String),
> {
    pairs.filter(|pair: (T, String)| !record.consumes(pair.0.text()))
}

/// Whether `states` are the states of a record that is handed `pairs` one after
/// the other: the first before any pair, and one more after each pair.
pub open spec fn trace<D: Dispatch, T: Key>(states: Seq<D>, pairs: Seq<(T, String)>) -> bool {
    &&& states.len() == pairs.len() + 1
    &&& forall|i: int|
        0 <= i < pairs.len() ==> stepped(states[i], #[trigger] pairs[i], states[i + 1])
}

/// Whether `after` is what the record `before` may be once it has been handed
/// `pairs` one after the other.
pub open spec fn fed_all<D: Dispatch, T: Key>(
    before: D,
    pairs: Seq<(T, String)>,
    after: D,
) -> bool {
    exists|states: Seq<D>|
        {
            &&& #[trigger] trace(states, pairs)
            &&& states.first() == before
            &&& states.last() == after
        }
}

/// Hands the record each pair in turn and collects those that come back.
pub fn guzzle_all<G: Guzzle, T: Key>(record: &mut G, pairs: Vec<(T, String)>) -> (rest: Vec<
    (T, String),
>)
    requires
        forall|i: int|
            0 <= i < pairs@.len() ==> old(record).accepts(
                (#[trigger] pairs@[i]).0.text(),
                pairs@[i].1,
            ),
    ensures
        rest@ == residual(*old(record), pairs@),
        same_rules(*old(record), *final(record)),
        fed_all(*old(record), pairs@, *final(record)),
{
    let mut rest: Vec<(T, String)> = Vec::new();
    let ghost all = pairs@;
    let ghost start = *record;
    let ghost mut states: Seq<G> = seq![start];
    proof {
        assert(residual(start, all.take(0)) =~= Seq::<(T, String)>::empty());
    }
    for pair in it: pairs
        invariant
            it.seq() == all,
            same_rules(start, *record),
            forall|i: int|
                0 <= i < all.len() ==> start.accepts((#[trigger] all[i]).0.text(), all[i].1),
            rest@ == residual(start, all.take(it.index() as int)),
            trace(states, all.take(it.index() as int)),
            states.first() == start,
            states.last() == *record,
    {
        let ghost i = it.index() as int;
        proof {
            assert(all.take(i + 1).drop_last() =~= all.take(i));
            assert(all.take(i + 1).last() == pair);
            reveal(Seq::filter);
        }
        match record.guzzle(pair) {
            Some(back) => {
                rest.push(back);
            },
            None => {},
        }
        proof {
            let longer = states.push(*record);
            assert forall|k: int| 0 <= k < i + 1 implies stepped(
                longer[k],
                #[trigger] all.take(i + 1)[k],
                longer[k + 1],
            ) by {
                if k < i {
                    assert(stepped(states[k], all.take(i)[k], states[k + 1]));
                }
            }
            states = longer;
        }
    }
    proof {
        assert(all.take(all.len() as int) =~= all);
        assert(trace(states, all));
    }
    rest
}

} // verus!
