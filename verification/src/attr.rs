//! Field annotations: the classification of a field, and the grammar of the
//! `guzzle` annotation that gives a field its keys and its parser.
//!
//! ```text
//! #[noguzzle]                               the field takes no data
//! (nothing) or #[guzzle]                    the field's own name is its key
//! #[guzzle(keys = ["one", "two"])]          the listed keys
//! #[guzzle(parser = to_number)]             the value goes through `to_number`
//! #[guzzle(parser = f, keys = ["three"])]   both
//! #[deep_guzzle]                            the field is a record that is asked first
//! ```

use vstd::prelude::*;
use crate::first::{
    first_index, lemma_first_index, lemma_first_index_agrees, lemma_first_index_is,
    lemma_first_index_none,
};
use crate::syntax::{expression_text, is_expression_text};
use crate::text::str_eq;
use crate::token::{stream_text, stream_to_string, Delimiter, TokenTree};

verus! {

/// Why an annotation was refused.
#[derive(Clone, Debug, PartialEq, Eq)]
pub enum AttrError {
    /// A token stands where the annotation should have ended.
    UnexpectedToken,
    /// An entry of the list does not begin with a name.
    ExpectedIdentifier,
    /// An entry of the list is not of the form `name = value`.
    NotKeyValue,
    /// An entry has a name other than `keys` and `parser`.
    UnknownKey(String),
    /// The value of `keys` is not a list in square brackets.
    ExpectedBrackets,
    /// A key is missing or is not a string literal.
    ExpectedStringLiteral,
    /// Two entries of the list are not separated by a comma.
    ExpectedComma,
    /// The value of `parser` is not an expression.
    ExpectedExpression,
}

/// [`AttrError`] with its text as a sequence of characters.
pub enum ErrorModel {
    UnexpectedToken,
    ExpectedIdentifier,
    NotKeyValue,
    UnknownKey(Seq<char>),
    ExpectedBrackets,
    ExpectedStringLiteral,
    ExpectedComma,
    ExpectedExpression,
}

impl View for AttrError {
    type V = ErrorModel;

    open spec fn view(&self) -> ErrorModel {
        match self {
            AttrError::UnexpectedToken => ErrorModel::UnexpectedToken,
            AttrError::ExpectedIdentifier => ErrorModel::ExpectedIdentifier,
            AttrError::NotKeyValue => ErrorModel::NotKeyValue,
            AttrError::UnknownKey(name) => ErrorModel::UnknownKey(name@),
            AttrError::ExpectedBrackets => ErrorModel::ExpectedBrackets,
            AttrError::ExpectedStringLiteral => ErrorModel::ExpectedStringLiteral,
            AttrError::ExpectedComma => ErrorModel::ExpectedComma,
            AttrError::ExpectedExpression => ErrorModel::ExpectedExpression,
        }
    }
}

impl ErrorModel {
    /// What the error says.
    pub open spec fn message(self) -> Seq<char> {
        match self {
            ErrorModel::UnexpectedToken => "unexpected token"@,
            ErrorModel::ExpectedIdentifier => "expected identifier"@,
            ErrorModel::NotKeyValue => "Attributes must be listed as `key = value`"@,
            ErrorModel::UnknownKey(name) => "Unknown key: "@ + name,
            ErrorModel::ExpectedBrackets => "expected square brackets"@,
            ErrorModel::ExpectedStringLiteral => "expected string literal"@,
            ErrorModel::ExpectedComma => "expected `,`"@,
            ErrorModel::ExpectedExpression => "expected expression"@,
        }
    }
}

impl AttrError {
    /// What the error says.
    pub fn message(&self) -> (text: String)
        ensures
            text@ == self@.message(),
    {
        match self {
            AttrError::UnexpectedToken => String::from_str("unexpected token"),
            AttrError::ExpectedIdentifier => String::from_str("expected identifier"),
            AttrError::NotKeyValue => String::from_str(
                "Attributes must be listed as `key = value`",
            ),
            AttrError::UnknownKey(name) => String::from_str("Unknown key: ").concat(
                name.as_str(),
            ),
            AttrError::ExpectedBrackets => String::from_str("expected square brackets"),
            AttrError::ExpectedStringLiteral => String::from_str("expected string literal"),
            AttrError::ExpectedComma => String::from_str("expected `,`"),
            AttrError::ExpectedExpression => String::from_str("expected expression"),
        }
    }
}

/// Whether a parser's result is what the grammar gives: the value by its view
/// and the position after it, or the error by its view.
pub open spec fn parsed_as<T: View>(
    result: Result<(T, usize), AttrError>,
    model: Result<(T::V, int), ErrorModel>,
) -> bool {
    match result {
        Ok((value, next)) => model == Ok::<(T::V, int), ErrorModel>((value@, next as int)),
        Err(error) => model == Err::<(T::V, int), ErrorModel>(error@),
    }
}

/// The keys of a field, in the order of the annotation.
#[derive(Clone, Debug, PartialEq, Eq)]
pub struct Keys(pub Vec<String>);

impl View for Keys {
    type V = Seq<Seq<char>>;

    open spec fn view(&self) -> Seq<Seq<char>> {
        self.0@.map_values(|key: String| key@)
    }
}

impl std::ops::Deref for Keys {
    type Target = Vec<String>;

    fn deref(&self) -> (keys: &Vec<String>)
        ensures
            *keys == self.0,
    {
        &self.0
    }
}

impl Default for Keys {
    fn default() -> (keys: Keys)
        ensures
            keys@ == Seq::<Seq<char>>::empty(),
    {
        let keys = Keys(Vec::new());
        assert(keys@ =~= Seq::<Seq<char>>::empty());
        keys
    }
}

/// Whether position `p` of a list of keys is out of order. String literals stand
/// at the even positions and commas at the odd ones, and the list ends behind a
/// string literal.
pub open spec fn key_list_flaw(content: Seq<TokenTree>, p: int) -> bool {
    if p % 2 == 0 {
        p >= content.len() || content[p].str_value() is None
    } else {
        p < content.len() && !content[p].is_punct(',')
    }
}

/// The first position from `from` to the list's length that is out of order.
pub open spec fn first_key_list_flaw(content: Seq<TokenTree>, from: int) -> Option<int>
    decreases content.len() - from + 1,
{
    if from > content.len() || from < 0 {
        None
    } else if key_list_flaw(content, from) {
        Some(from)
    } else {
        first_key_list_flaw(content, from + 1)
    }
}

/// The keys that a list `"a", "b", ...` holds. An empty list, a missing literal
/// and a token that is no string literal give `ExpectedStringLiteral`; any other
/// token behind a literal than a comma gives `UnexpectedToken`.
pub open spec fn keys_in(content: Seq<TokenTree>) -> Result<Seq<Seq<char>>, ErrorModel> {
    match first_key_list_flaw(content, 0) {
        Some(p) => Err(
            if p % 2 == 0 {
                ErrorModel::ExpectedStringLiteral
            } else {
                ErrorModel::UnexpectedToken
            },
        ),
        None => Ok(
            Seq::new(
                ((content.len() + 1) / 2) as nat,
                |i: int| content[2 * i].str_value()->0,
            ),
        ),
    }
}

/// The keys in the square brackets at `input[pos]`, and the position behind them.
pub open spec fn keys_at(input: Seq<TokenTree>, pos: int) -> Result<
    (Seq<Seq<char>>, int),
    ErrorModel,
> {
    if 0 <= pos < input.len() {
        match input[pos] {
            TokenTree::Group(Delimiter::Bracket, inner) => match keys_in(inner@) {
                Ok(keys) => Ok((keys, pos + 1)),
                Err(error) => Err(error),
            },
            _ => Err(ErrorModel::ExpectedBrackets),
        }
    } else {
        Err(ErrorModel::ExpectedBrackets)
    }
}

impl Keys {
    /// Reads the keys of a list `"a", "b", ...`, the content of the square
    /// brackets.
    pub fn from_list(content: &Vec<TokenTree>) -> (result: Result<Keys, AttrError>)
        ensures
            match result {
                Ok(keys) => keys_in(content@) == Ok::<Seq<Seq<char>>, ErrorModel>(keys@),
                Err(error) => keys_in(content@) == Err::<Seq<Seq<char>>, ErrorModel>(error@),
            },
    {
        let mut keys: Vec<String> = Vec::new();
        let mut pos: usize = 0;
        loop
            invariant
                pos % 2 == 0,
                pos <= content.len(),
                first_key_list_flaw(content@, 0) == first_key_list_flaw(content@, pos as int),
                keys@.len() == pos / 2,
                forall|i: int|
                    0 <= i < keys@.len() ==> (#[trigger] keys@[i])@ == content@[2
                        * i].str_value()->0,
            decreases content.len() - pos,
        {
            if pos >= content.len() {
                return Err(AttrError::ExpectedStringLiteral);
            }
            match &content[pos] {
                TokenTree::Str(_, value) => {
                    keys.push(value.clone());
                },
                _ => {
                    return Err(AttrError::ExpectedStringLiteral);
                },
            }
            if pos + 1 >= content.len() {
                let found = Keys(keys);
                proof {
                    assert(!key_list_flaw(content@, pos as int));
                    assert(!key_list_flaw(content@, pos + 1));
                    assert(first_key_list_flaw(content@, pos + 1) is None) by {
                        reveal_with_fuel(first_key_list_flaw, 3);
                    }
                    assert(found@ =~= keys_in(content@)->Ok_0);
                }
                return Ok(found);
            }
            if !content[pos + 1].punct_is(',') {
                proof {
                    assert(!key_list_flaw(content@, pos as int));
                    assert(key_list_flaw(content@, pos + 1));
                }
                return Err(AttrError::UnexpectedToken);
            }
            proof {
                assert(!key_list_flaw(content@, pos as int));
                assert(!key_list_flaw(content@, pos + 1));
                assert(first_key_list_flaw(content@, pos as int) == first_key_list_flaw(
                    content@,
                    pos + 2,
                )) by {
                    reveal_with_fuel(first_key_list_flaw, 3);
                }
            }
            pos += 2;
        }
    }

    /// Reads the keys in the square brackets at `input[pos]`.
    pub fn parse(input: &Vec<TokenTree>, pos: usize) -> (result: Result<(Keys, usize), AttrError>)
        requires
            pos <= input.len(),
        ensures
            parsed_as(result, keys_at(input@, pos as int)),
    {
        if pos >= input.len() {
            return Err(AttrError::ExpectedBrackets);
        }
        match &input[pos] {
            TokenTree::Group(Delimiter::Bracket, inner) => {
                match Keys::from_list(inner) {
                    Ok(keys) => Ok((keys, pos + 1)),
                    Err(error) => Err(error),
                }
            },
            _ => Err(AttrError::ExpectedBrackets),
        }
    }
}

/// One entry `name = value` of the list in a `guzzle` annotation.
#[derive(Clone, Debug, PartialEq, Eq)]
pub enum RawGuzzleKeyedAttribute {
    /// `keys = ["a", "b"]`
    Keys(Keys),
    /// `parser = expression`, with the expression as its source text.
    Parser(String),
}

/// [`RawGuzzleKeyedAttribute`] with its texts as sequences of characters.
pub enum RawModel {
    Keys(Seq<Seq<char>>),
    Parser(Seq<char>),
}

impl View for RawGuzzleKeyedAttribute {
    type V = RawModel;

    open spec fn view(&self) -> RawModel {
        match self {
            RawGuzzleKeyedAttribute::Keys(keys) => RawModel::Keys(keys@),
            RawGuzzleKeyedAttribute::Parser(parser) => RawModel::Parser(parser@),
        }
    }
}

/// The places from `from` on where an expression in a list may end: before each
/// comma of the list, and at the list's end.
pub open spec fn candidate_ends(input: Seq<TokenTree>, from: int) -> Seq<int>
    decreases input.len() - from,
{
    if from >= input.len() {
        seq![input.len() as int]
    } else if input[from].is_punct(',') {
        seq![from] + candidate_ends(input, from + 1)
    } else {
        candidate_ends(input, from + 1)
    }
}

/// For each of the places `ends`, whether the tokens from `start` up to it are
/// one expression.
pub open spec fn is_expression_up_to(input: Seq<TokenTree>, start: int, ends: Seq<int>) -> spec_fn(
    int,
) -> bool {
    |i: int| expression_text(stream_text(input.subrange(start, ends[i])))
}

/// Where the expression that begins at `input[start]` ends: at the first comma
/// of the list, or else at the list's end, up to which the tokens from `start`
/// are one expression. `None` where there is no such place.
pub open spec fn expression_end(input: Seq<TokenTree>, start: int) -> Option<int> {
    let ends = candidate_ends(input, start);
    match first_index(ends.len() as int, is_expression_up_to(input, start, ends), 0) {
        Some(i) => Some(ends[i]),
        None => None,
    }
}

/// The candidates lie between the place the search begins at and the list's end.
pub proof fn lemma_candidate_ends_bounds(input: Seq<TokenTree>, from: int)
    requires
        from <= input.len(),
    ensures
        candidate_ends(input, from).len() > 0,
        forall|i: int|
            0 <= i < candidate_ends(input, from).len() ==> from <= #[trigger] candidate_ends(
                input,
                from,
            )[i] <= input.len(),
    decreases input.len() - from,
{
    if from < input.len() {
        lemma_candidate_ends_bounds(input, from + 1);
    }
}

/// An expression's end lies between the place it begins at and the list's end.
pub proof fn lemma_expression_end_bounds(input: Seq<TokenTree>, start: int)
    requires
        start <= input.len(),
    ensures
        expression_end(input, start) matches Some(end) ==> start <= end <= input.len(),
{
    let ends = candidate_ends(input, start);
    lemma_candidate_ends_bounds(input, start);
    lemma_first_index(ends.len() as int, is_expression_up_to(input, start, ends), 0);
}

/// The entry that begins at `input[pos]`, and the position behind it.
pub open spec fn raw_at(input: Seq<TokenTree>, pos: int) -> Result<(RawModel, int), ErrorModel> {
    if !(0 <= pos < input.len() && input[pos] is Ident) {
        Err(ErrorModel::ExpectedIdentifier)
    } else if !(pos + 1 < input.len() && input[pos + 1].is_punct('=')) {
        Err(ErrorModel::NotKeyValue)
    } else {
        let name = input[pos]->Ident_0@;
        if name == "keys"@ {
            match keys_at(input, pos + 2) {
                Ok((keys, next)) => Ok((RawModel::Keys(keys), next)),
                Err(error) => Err(error),
            }
        } else if name == "parser"@ {
            match expression_end(input, pos + 2) {
                Some(end) => Ok(
                    (RawModel::Parser(stream_text(input.subrange(pos + 2, end))), end),
                ),
                None => Err(ErrorModel::ExpectedExpression),
            }
        } else {
            Err(ErrorModel::UnknownKey(name))
        }
    }
}

/// An entry ends behind the place it begins at, within the list.
pub proof fn lemma_raw_at_advances(input: Seq<TokenTree>, pos: int)
    ensures
        raw_at(input, pos) matches Ok((_, next)) ==> pos + 2 <= next <= input.len(),
{
    if 0 <= pos && pos + 1 < input.len() {
        lemma_expression_end_bounds(input, pos + 2);
    }
}

/// Places in a list as mathematical integers.
pub open spec fn places(ends: Seq<usize>) -> Seq<int> {
    ends.map_values(|end: usize| end as int)
}

/// The places from `start` on where an expression may end: before each comma of
/// the list, and at the list's end.
pub fn expression_candidates(input: &Vec<TokenTree>, start: usize) -> (ends: Vec<usize>)
    requires
        start <= input.len(),
    ensures
        places(ends@) == candidate_ends(input@, start as int),
{
    let mut ends: Vec<usize> = Vec::new();
    let mut pos: usize = start;
    while pos < input.len()
        invariant
            start <= pos <= input.len(),
            candidate_ends(input@, start as int) == places(ends@) + candidate_ends(
                input@,
                pos as int,
            ),
        decreases input.len() - pos,
    {
        let ghost before = ends@;
        if input[pos].punct_is(',') {
            ends.push(pos);
            proof {
                assert(places(ends@) =~= places(before) + seq![pos as int]);
                assert(places(ends@) + candidate_ends(input@, pos + 1) =~= places(before) + (
                seq![pos as int] + candidate_ends(input@, pos + 1)));
            }
        }
        pos += 1;
    }
    let ghost before = ends@;
    ends.push(input.len());
    proof {
        assert(places(ends@) =~= places(before) + seq![input@.len() as int]);
    }
    ends
}

/// Says of each of the places `ends` whether the tokens from `start` up to it
/// are one expression.
pub fn judge_candidates(input: &Vec<TokenTree>, start: usize, ends: &Vec<usize>) -> (verdicts:
    Vec<bool>)
    requires
        forall|i: int| 0 <= i < ends@.len() ==> start <= #[trigger] ends@[i] <= input.len(),
    ensures
        verdicts@.len() == ends@.len(),
        forall|i: int|
            0 <= i < ends@.len() ==> #[trigger] verdicts@[i] == is_expression_up_to(
                input@,
                start as int,
                places(ends@),
            )(i),
{
    let mut verdicts: Vec<bool> = Vec::new();
    let mut i: usize = 0;
    while i < ends.len()
        invariant
            i <= ends.len(),
            forall|j: int| 0 <= j < ends@.len() ==> start <= #[trigger] ends@[j] <= input.len(),
            verdicts@.len() == i,
            forall|j: int|
                0 <= j < i ==> #[trigger] verdicts@[j] == is_expression_up_to(
                    input@,
                    start as int,
                    places(ends@),
                )(j),
        decreases ends.len() - i,
    {
        let text = stream_to_string(input, start, ends[i]);
        verdicts.push(is_expression_text(text.as_str()));
        i += 1;
    }
    verdicts
}

/// For each place, whether the verdict there is `true`.
pub open spec fn accepted(verdicts: Seq<bool>) -> spec_fn(int) -> bool {
    |i: int| verdicts[i]
}

/// The place of the first verdict that is `true`.
pub fn first_accepted(verdicts: &Vec<bool>) -> (found: Option<usize>)
    ensures
        match found {
            Some(i) => first_index(verdicts@.len() as int, accepted(verdicts@), 0) == Some(
                i as int,
            ) && i < verdicts@.len(),
            None => first_index(verdicts@.len() as int, accepted(verdicts@), 0) is None,
        },
{
    let mut i: usize = 0;
    while i < verdicts.len()
        invariant
            i <= verdicts.len(),
            forall|j: int| 0 <= j < i ==> !#[trigger] accepted(verdicts@)(j),
        decreases verdicts.len() - i,
    {
        if verdicts[i] {
            proof {
                assert(accepted(verdicts@)(i as int));
                lemma_first_index_is(verdicts@.len() as int, accepted(verdicts@), 0, i as int);
            }
            return Some(i);
        }
        i += 1;
    }
    proof {
        lemma_first_index_none(verdicts@.len() as int, accepted(verdicts@), 0);
    }
    None
}

/// Reads the expression that begins at `input[start]`, as its source text.
pub fn parse_expression(input: &Vec<TokenTree>, start: usize) -> (result: Result<
    (String, usize),
    AttrError,
>)
    requires
        start <= input.len(),
    ensures
        match result {
            Ok((text, end)) => {
                &&& expression_end(input@, start as int) == Some(end as int)
                &&& start <= end <= input.len()
                &&& text@ == stream_text(input@.subrange(start as int, end as int))
            },
            Err(error) => expression_end(input@, start as int) is None && error
                == AttrError::ExpectedExpression,
        },
{
    let ends = expression_candidates(input, start);
    proof {
        lemma_candidate_ends_bounds(input@, start as int);
        assert forall|i: int| 0 <= i < ends@.len() implies start <= #[trigger] ends@[i]
            <= input.len() by {
            assert(places(ends@)[i] == ends@[i]);
        }
    }
    let verdicts = judge_candidates(input, start, &ends);
    proof {
        lemma_first_index_agrees(
            ends@.len() as int,
            accepted(verdicts@),
            is_expression_up_to(input@, start as int, places(ends@)),
            0,
        );
    }
    match first_accepted(&verdicts) {
        Some(i) => {
            let end = ends[i];
            assert(places(ends@)[i as int] == end);
            Ok((stream_to_string(input, start, end), end))
        },
        None => Err(AttrError::ExpectedExpression),
    }
}

impl RawGuzzleKeyedAttribute {
    /// Reads the entry `name = value` that begins at `input[pos]`.
    pub fn parse(input: &Vec<TokenTree>, pos: usize) -> (result: Result<
        (RawGuzzleKeyedAttribute, usize),
        AttrError,
    >)
        requires
            pos <= input.len(),
        ensures
            parsed_as(result, raw_at(input@, pos as int)),
    {
        if pos >= input.len() {
            return Err(AttrError::ExpectedIdentifier);
        }
        let name = match &input[pos] {
            TokenTree::Ident(name) => name,
            _ => {
                return Err(AttrError::ExpectedIdentifier);
            },
        };
        if pos + 1 >= input.len() || !input[pos + 1].punct_is('=') {
            return Err(AttrError::NotKeyValue);
        }
        if str_eq(name.as_str(), "keys") {
            match Keys::parse(input, pos + 2) {
                Ok((keys, next)) => Ok((RawGuzzleKeyedAttribute::Keys(keys), next)),
                Err(error) => Err(error),
            }
        } else if str_eq(name.as_str(), "parser") {
            match parse_expression(input, pos + 2) {
                Ok((text, end)) => Ok((RawGuzzleKeyedAttribute::Parser(text), end)),
                Err(error) => Err(error),
            }
        } else {
            Err(AttrError::UnknownKey(name.clone()))
        }
    }
}

/// The keys of a field and the parser of its values.
#[derive(Clone, Debug, PartialEq, Eq)]
pub struct GuzzleKeyedAttribute {
    pub keys: Keys,
    /// The expression that converts a value, as its source text; without one the
    /// value is assigned as it comes.
    pub parser: Option<String>,
}

/// [`GuzzleKeyedAttribute`] with its texts as sequences of characters.
pub struct KeyedModel {
    pub keys: Seq<Seq<char>>,
    pub parser: Option<Seq<char>>,
}

/// An optional text as an optional sequence of characters.
pub open spec fn text_of(text: Option<String>) -> Option<Seq<char>> {
    match text {
        Some(text) => Some(text@),
        None => None,
    }
}

impl View for GuzzleKeyedAttribute {
    type V = KeyedModel;

    open spec fn view(&self) -> KeyedModel {
        KeyedModel { keys: self.keys@, parser: text_of(self.parser) }
    }
}

impl KeyedModel {
    /// No keys and no parser.
    pub open spec fn empty() -> KeyedModel {
        KeyedModel { keys: Seq::empty(), parser: None }
    }

    /// The attribute after one more entry of the list: the entry replaces what
    /// an earlier entry of its name gave.
    pub open spec fn with(self, raw: RawModel) -> KeyedModel {
        match raw {
            RawModel::Keys(keys) => KeyedModel { keys, parser: self.parser },
            RawModel::Parser(parser) => KeyedModel { keys: self.keys, parser: Some(parser) },
        }
    }

    /// The attribute with `name` as its one key where it has none.
    pub open spec fn or_default_key(self, name: Seq<char>) -> KeyedModel {
        if self.keys.len() == 0 {
            KeyedModel { keys: seq![name], parser: self.parser }
        } else {
            self
        }
    }
}

/// The attribute that the entries from `input[pos]` on make of `so_far`: entries
/// `name = value` with a comma between two of them, and perhaps one behind the
/// last.
pub open spec fn entries_from(input: Seq<TokenTree>, pos: int, so_far: KeyedModel) -> Result<
    KeyedModel,
    ErrorModel,
>
    decreases input.len() - pos,
    via entries_from_decreases
{
    if pos >= input.len() || pos < 0 {
        Ok(so_far)
    } else {
        match raw_at(input, pos) {
            Err(error) => Err(error),
            Ok((raw, next)) => if next >= input.len() {
                Ok(so_far.with(raw))
            } else if !input[next].is_punct(',') {
                Err(ErrorModel::ExpectedComma)
            } else {
                entries_from(input, next + 1, so_far.with(raw))
            },
        }
    }
}

#[via_fn]
proof fn entries_from_decreases(input: Seq<TokenTree>, pos: int, so_far: KeyedModel) {
    lemma_raw_at_advances(input, pos);
}

/// The attribute at `input[pos]`, and the position behind it: the entries of a
/// list in parentheses, or, where no parenthesis stands there, the attribute
/// without keys and parser, which takes no token.
pub open spec fn keyed_at(input: Seq<TokenTree>, pos: int) -> Result<
    (KeyedModel, int),
    ErrorModel,
> {
    if 0 <= pos < input.len() {
        match input[pos] {
            TokenTree::Group(Delimiter::Parenthesis, content) => match entries_from(
                content@,
                0,
                KeyedModel::empty(),
            ) {
                Ok(keyed) => Ok((keyed, pos + 1)),
                Err(error) => Err(error),
            },
            _ => Ok((KeyedModel::empty(), pos)),
        }
    } else {
        Ok((KeyedModel::empty(), pos))
    }
}

/// The attribute that the arguments of a `guzzle` annotation give: nothing, or
/// one list in parentheses and nothing behind it.
pub open spec fn keyed_of(tts: Seq<TokenTree>) -> Result<KeyedModel, ErrorModel> {
    match keyed_at(tts, 0) {
        Ok((keyed, next)) => if next == tts.len() {
            Ok(keyed)
        } else {
            Err(ErrorModel::UnexpectedToken)
        },
        Err(error) => Err(error),
    }
}

impl Default for GuzzleKeyedAttribute {
    fn default() -> (keyed: GuzzleKeyedAttribute)
        ensures
            keyed@ == KeyedModel::empty(),
    {
        GuzzleKeyedAttribute { keys: Keys::default(), parser: None }
    }
}

impl GuzzleKeyedAttribute {
    /// Gives the attribute the name of its field as its one key where the
    /// annotation gave it none.
    pub fn set_default_key_if_none(&mut self, ident: String)
        ensures
            final(self)@ == old(self)@.or_default_key(ident@),
    {
        if self.keys.0.len() == 0 {
            let mut keys: Vec<String> = Vec::new();
            keys.push(ident);
            self.keys = Keys(keys);
            proof {
                assert(self.keys@ =~= seq![ident@]);
            }
        } else {
            proof {
                assert(self.keys@.len() == self.keys.0@.len());
            }
        }
    }

    /// Takes one entry of the list in: it replaces what an earlier entry of its
    /// name gave.
    pub fn apply(&mut self, raw: RawGuzzleKeyedAttribute)
        ensures
            final(self)@ == old(self)@.with(raw@),
    {
        match raw {
            RawGuzzleKeyedAttribute::Keys(keys) => {
                self.keys = keys;
            },
            RawGuzzleKeyedAttribute::Parser(parser) => {
                self.parser = Some(parser);
            },
        }
    }

    /// Reads the entries of the list `content`, the inside of the parentheses.
    pub fn from_list(content: &Vec<TokenTree>) -> (result: Result<GuzzleKeyedAttribute, AttrError>)
        ensures
            match result {
                Ok(keyed) => entries_from(content@, 0, KeyedModel::empty()) == Ok::<
                    KeyedModel,
                    ErrorModel,
                >(keyed@),
                Err(error) => entries_from(content@, 0, KeyedModel::empty()) == Err::<
                    KeyedModel,
                    ErrorModel,
                >(error@),
            },
    {
        let mut keyed = GuzzleKeyedAttribute::default();
        let mut pos: usize = 0;
        while pos < content.len()
            invariant
                pos <= content.len(),
                entries_from(content@, 0, KeyedModel::empty()) == entries_from(
                    content@,
                    pos as int,
                    keyed@,
                ),
            decreases content.len() - pos,
        {
            proof {
                lemma_raw_at_advances(content@, pos as int);
            }
            let (raw, next) = match RawGuzzleKeyedAttribute::parse(content, pos) {
                Ok(found) => found,
                Err(error) => {
                    return Err(error);
                },
            };
            keyed.apply(raw);
            if next >= content.len() {
                return Ok(keyed);
            }
            if !content[next].punct_is(',') {
                return Err(AttrError::ExpectedComma);
            }
            pos = next + 1;
        }
        Ok(keyed)
    }

    /// Reads the attribute at `input[pos]`: a list in parentheses, or nothing.
    pub fn parse(input: &Vec<TokenTree>, pos: usize) -> (result: Result<
        (GuzzleKeyedAttribute, usize),
        AttrError,
    >)
        requires
            pos <= input.len(),
        ensures
            parsed_as(result, keyed_at(input@, pos as int)),
    {
        if pos < input.len() {
            match &input[pos] {
                TokenTree::Group(Delimiter::Parenthesis, content) => {
                    return match GuzzleKeyedAttribute::from_list(content) {
                        Ok(keyed) => Ok((keyed, pos + 1)),
                        Err(error) => Err(error),
                    };
                },
                _ => {},
            }
        }
        Ok((GuzzleKeyedAttribute::default(), pos))
    }

    /// Reads the arguments of a `guzzle` annotation, all of them.
    pub fn parse_all(tts: &Vec<TokenTree>) -> (result: Result<GuzzleKeyedAttribute, AttrError>)
        ensures
            match result {
                Ok(keyed) => keyed_of(tts@) == Ok::<KeyedModel, ErrorModel>(keyed@),
                Err(error) => keyed_of(tts@) == Err::<KeyedModel, ErrorModel>(error@),
            },
    {
        match GuzzleKeyedAttribute::parse(tts, 0) {
            Ok((keyed, next)) => if next == tts.len() {
                Ok(keyed)
            } else {
                Err(AttrError::UnexpectedToken)
            },
            Err(error) => Err(error),
        }
    }
}

/// One annotation of a field: its name and its arguments.
#[derive(Debug, PartialEq, Eq)]
pub struct Attribute {
    /// The annotation's name, such as `guzzle`.
    pub path: String,
    /// What follows the name inside the annotation's brackets.
    pub tts: Vec<TokenTree>,
}

/// One field of a record's declaration.
#[derive(Debug, PartialEq, Eq)]
pub struct Field {
    /// The field's name; a field of a tuple struct has none.
    pub ident: Option<String>,
    /// The field's type, as its source text.
    pub ty: String,
    /// The field's annotations, in the order they are written in.
    pub attrs: Vec<Attribute>,
}

/// What a field's annotations make of it, where it takes data at all.
#[derive(Clone, Debug, PartialEq, Eq)]
pub enum GuzzleAttribute {
    /// The field takes the values of its keys.
    KeyedAttribute(GuzzleKeyedAttribute),
    /// The field, named here, is a record that is asked before the keys are
    /// looked at.
    RecurseAttribute(String),
}

/// [`GuzzleAttribute`] with its texts as sequences of characters.
pub enum AttributeModel {
    Keyed(KeyedModel),
    Recurse(Seq<char>),
}

impl View for GuzzleAttribute {
    type V = AttributeModel;

    open spec fn view(&self) -> AttributeModel {
        match self {
            GuzzleAttribute::KeyedAttribute(keyed) => AttributeModel::Keyed(keyed@),
            GuzzleAttribute::RecurseAttribute(name) => AttributeModel::Recurse(name@),
        }
    }
}

impl Default for GuzzleAttribute {
    fn default() -> (attribute: GuzzleAttribute)
        ensures
            attribute@ == AttributeModel::Keyed(KeyedModel::empty()),
    {
        GuzzleAttribute::KeyedAttribute(GuzzleKeyedAttribute::default())
    }
}

/// The kinds of annotation that the classification of a field looks at.
pub enum Marker {
    /// `guzzle`: keys and a parser.
    Keyed,
    /// `deep_guzzle`: a nested record.
    Recurse,
    /// `noguzzle`, also written `no_guzzle`: no data.
    Exclude,
    /// Any other annotation, which is passed over.
    Other,
}

/// The kind of the annotation named `path`.
pub open spec fn marker_of(path: Seq<char>) -> Marker {
    if path == "guzzle"@ {
        Marker::Keyed
    } else if path == "deep_guzzle"@ {
        Marker::Recurse
    } else if path == "noguzzle"@ || path == "no_guzzle"@ {
        Marker::Exclude
    } else {
        Marker::Other
    }
}

/// The kind of the annotation named `path`.
pub fn marker(path: &str) -> (kind: Marker)
    ensures
        kind == marker_of(path@),
{
    if str_eq(path, "guzzle") {
        Marker::Keyed
    } else if str_eq(path, "deep_guzzle") {
        Marker::Recurse
    } else if str_eq(path, "noguzzle") || str_eq(path, "no_guzzle") {
        Marker::Exclude
    } else {
        Marker::Other
    }
}

/// The classification with the field's name as the one key of a keyed field
/// that has none.
pub open spec fn or_default_key(attribute: Option<AttributeModel>, name: Seq<char>) -> Option<
    AttributeModel,
> {
    match attribute {
        Some(AttributeModel::Keyed(keyed)) => Some(
            AttributeModel::Keyed(keyed.or_default_key(name)),
        ),
        other => other,
    }
}

/// The classification of the field `name` that its annotations from `attrs[i]`
/// on make of `so_far`. A `guzzle` annotation replaces what stood before it; the
/// first `deep_guzzle` or `noguzzle` decides and what follows it is not read;
/// a `guzzle` annotation that is refused before that refuses the field.
pub open spec fn classification_from(
    name: Seq<char>,
    attrs: Seq<Attribute>,
    i: int,
    so_far: Option<AttributeModel>,
) -> Result<Option<AttributeModel>, ErrorModel>
    decreases attrs.len() - i,
{
    if i >= attrs.len() || i < 0 {
        Ok(or_default_key(so_far, name))
    } else {
        match marker_of(attrs[i].path@) {
            Marker::Keyed => match keyed_of(attrs[i].tts@) {
                Ok(keyed) => classification_from(
                    name,
                    attrs,
                    i + 1,
                    Some(AttributeModel::Keyed(keyed)),
                ),
                Err(error) => Err(error),
            },
            Marker::Recurse => Ok(Some(AttributeModel::Recurse(name))),
            Marker::Exclude => Ok(None),
            Marker::Other => classification_from(name, attrs, i + 1, so_far),
        }
    }
}

/// The classification of a field: `None` where it takes no data. A field
/// without annotations is keyed by its own name and has no parser.
pub open spec fn classification(name: Seq<char>, attrs: Seq<Attribute>) -> Result<
    Option<AttributeModel>,
    ErrorModel,
> {
    classification_from(name, attrs, 0, Some(AttributeModel::Keyed(KeyedModel::empty())))
}

/// A field's name with its classification. A recursive field delegates to the
/// nested record that it holds itself, so the name in its classification is its
/// own: [`FieldModel::names_itself`] says so, [`FieldAttribute::from`]
/// establishes it, and what builds tables or records from classifications asks
/// for it.
#[derive(Clone, Debug, PartialEq, Eq)]
pub struct FieldAttribute {
    /// The field's name.
    pub field: String,
    /// What the field takes; `None` where it takes no data.
    pub attributes: Option<GuzzleAttribute>,
}

/// [`FieldAttribute`] with its texts as sequences of characters.
pub struct FieldModel {
    pub field: Seq<char>,
    pub attributes: Option<AttributeModel>,
}

/// One line of a record's key table: the key, the field that takes its value,
/// and the field's parser.
pub struct ArmModel {
    pub field: Seq<char>,
    pub matcher: Seq<char>,
    pub parser: Option<Seq<char>>,
}

/// An optional classification by its view.
pub open spec fn attribute_view(attribute: Option<GuzzleAttribute>) -> Option<AttributeModel> {
    match attribute {
        Some(attribute) => Some(attribute@),
        None => None,
    }
}

impl View for FieldAttribute {
    type V = FieldModel;

    open spec fn view(&self) -> FieldModel {
        FieldModel { field: self.field@, attributes: attribute_view(self.attributes) }
    }
}

impl FieldModel {
    /// The keys of a keyed field, in their order; none for any other field.
    pub open spec fn keys(self) -> Seq<Seq<char>> {
        match self.attributes {
            Some(AttributeModel::Keyed(keyed)) => keyed.keys,
            _ => Seq::empty(),
        }
    }

    /// The parser of a keyed field that has one.
    pub open spec fn parser(self) -> Option<Seq<char>> {
        match self.attributes {
            Some(AttributeModel::Keyed(keyed)) => keyed.parser,
            _ => None,
        }
    }

    /// The lines that the field adds to the key table: one for each of its keys,
    /// in their order.
    pub open spec fn arms(self) -> Seq<ArmModel> {
        Seq::new(
            self.keys().len(),
            |i: int| ArmModel { field: self.field, matcher: self.keys()[i], parser: self.parser() },
        )
    }

    /// The name of the nested record that the field delegates to, where it does.
    pub open spec fn recursion(self) -> Option<Seq<char>> {
        match self.attributes {
            Some(AttributeModel::Recurse(name)) => Some(name),
            _ => None,
        }
    }

    /// Whether the nested record that a recursive field delegates to is the one
    /// that the field itself holds: whether the name in the classification is
    /// the field's own name.
    pub open spec fn names_itself(self) -> bool {
        self.recursion() matches Some(name) ==> name == self.field
    }
}

impl FieldAttribute {
    /// The lines that the field adds to the key table, each as the field's name,
    /// the key and the parser.
    pub fn get_arm_parts(&self) -> (parts: Vec<(&String, &String, &Option<String>)>)
        ensures
            parts@.len() == self@.arms().len(),
            forall|i: int|
                0 <= i < parts@.len() ==> {
                    &&& (#[trigger] parts@[i]).0@ == self@.arms()[i].field
                    &&& parts@[i].1@ == self@.arms()[i].matcher
                    &&& text_of(*parts@[i].2) == self@.arms()[i].parser
                },
    {
        let mut parts: Vec<(&String, &String, &Option<String>)> = Vec::new();
        match &self.attributes {
            Some(GuzzleAttribute::KeyedAttribute(keyed)) => {
                let mut i: usize = 0;
                while i < keyed.keys.0.len()
                    invariant
                        i <= keyed.keys.0.len(),
                        self.attributes == Some(GuzzleAttribute::KeyedAttribute(*keyed)),
                        parts@.len() == i,
                        forall|j: int|
                            0 <= j < i ==> {
                                &&& (#[trigger] parts@[j]).0@ == self@.arms()[j].field
                                &&& parts@[j].1@ == self@.arms()[j].matcher
                                &&& text_of(*parts@[j].2) == self@.arms()[j].parser
                            },
                    decreases keyed.keys.0.len() - i,
                {
                    parts.push((&self.field, &keyed.keys.0[i], &keyed.parser));
                    i += 1;
                }
            },
            _ => {},
        }
        parts
    }

    /// Whether `key` is one of the field's keys.
    pub fn has_key(&self, key: &str) -> (found: bool)
        ensures
            found == self@.keys().contains(key@),
    {
        match &self.attributes {
            Some(GuzzleAttribute::KeyedAttribute(keyed)) => {
                let mut i: usize = 0;
                while i < keyed.keys.0.len()
                    invariant
                        i <= keyed.keys.0.len(),
                        self.attributes == Some(GuzzleAttribute::KeyedAttribute(*keyed)),
                        forall|j: int| 0 <= j < i ==> self@.keys()[j] != key@,
                    decreases keyed.keys.0.len() - i,
                {
                    if str_eq(keyed.keys.0[i].as_str(), key) {
                        proof {
                            assert(self@.keys()[i as int] == key@);
                        }
                        return true;
                    }
                    i += 1;
                }
                false
            },
            _ => false,
        }
    }

    /// Whether the nested record that a recursive field delegates to is the one
    /// that the field itself holds.
    pub fn is_consistent(&self) -> (consistent: bool)
        ensures
            consistent == self@.names_itself(),
    {
        match &self.attributes {
            Some(GuzzleAttribute::RecurseAttribute(name)) => str_eq(
                name.as_str(),
                self.field.as_str(),
            ),
            _ => true,
        }
    }

    /// The name of the nested record that the field delegates to, where it does:
    /// the field's own name, as [`FieldModel::names_itself`] says.
    pub fn get_recursion(&self) -> (name: Option<&String>)
        ensures
            match name {
                Some(name) => self@.recursion() == Some(name@) && (self@.names_itself()
                    ==> name@ == self@.field),
                None => self@.recursion() is None,
            },
    {
        match &self.attributes {
            Some(GuzzleAttribute::RecurseAttribute(name)) => Some(name),
            _ => None,
        }
    }

    /// Classifies a field by its annotations.
    pub fn from(field: &Field) -> (result: Result<FieldAttribute, AttrError>)
        requires
            field.ident is Some,
        ensures
            match result {
                Ok(found) => found.field == field.ident->0 && found@.names_itself()
                    && classification(field.ident->0@, field.attrs@) == Ok::<
                    Option<AttributeModel>,
                    ErrorModel,
                >(found@.attributes),
                Err(error) => classification(field.ident->0@, field.attrs@) == Err::<
                    Option<AttributeModel>,
                    ErrorModel,
                >(error@),
            },
    {
        let name = match &field.ident {
            Some(name) => name,
            None => {
                return Err(AttrError::ExpectedIdentifier);
            },
        };
        let mut attributes: Option<GuzzleAttribute> = Some(GuzzleAttribute::default());
        let mut i: usize = 0;
        while i < field.attrs.len()
            invariant
                i <= field.attrs.len(),
                field.ident == Some(*name),
                attributes matches Some(GuzzleAttribute::KeyedAttribute(_)),
                classification(name@, field.attrs@) == classification_from(
                    name@,
                    field.attrs@,
                    i as int,
                    attribute_view(attributes),
                ),
            decreases field.attrs.len() - i,
        {
            let attr = &field.attrs[i];
            match marker(attr.path.as_str()) {
                Marker::Keyed => {
                    match GuzzleKeyedAttribute::parse_all(&attr.tts) {
                        Ok(keyed) => {
                            attributes = Some(GuzzleAttribute::KeyedAttribute(keyed));
                        },
                        Err(error) => {
                            return Err(error);
                        },
                    }
                },
                Marker::Recurse => {
                    return Ok(
                        FieldAttribute {
                            field: name.clone(),
                            attributes: Some(GuzzleAttribute::RecurseAttribute(name.clone())),
                        },
                    );
                },
                Marker::Exclude => {
                    return Ok(FieldAttribute { field: name.clone(), attributes: None });
                },
                Marker::Other => {},
            }
            i += 1;
        }
        let attributes = match attributes {
            Some(GuzzleAttribute::KeyedAttribute(mut keyed)) => {
                keyed.set_default_key_if_none(name.clone());
                Some(GuzzleAttribute::KeyedAttribute(keyed))
            },
            other => other,
        };
        Ok(FieldAttribute { field: name.clone(), attributes })
    }
}

} // verus!
