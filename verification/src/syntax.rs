//! What the Rust syntax crate decides: which text is a string literal and what
//! it stands for, and which text is an expression.
//!
//! The crate is built without its `proc-macro` feature, so text is always read
//! by its own lexer and the same text gives the same answer everywhere.

use vstd::prelude::*;
use vstd::string::StringSliceAdditionalSpecFns;

verus! {

/// The string that a Rust string literal stands for, from the literal's source
/// text; `None` where the text is no string literal.
pub uninterp spec fn lit_str_value(text: Seq<char>) -> Option<Seq<char>>;

/// Whether a text is one Rust expression.
pub uninterp spec fn is_expression(text: Seq<char>) -> bool;

/// The entries of the list that a text of the form `name(entry, entry, ...)`
/// is as the content of an annotation: for each entry its source text where it
/// is a string literal, `None` where it is anything else. The result is `None`
/// where the text is no such list.
pub uninterp spec fn meta_list(text: Seq<char>) -> Option<Seq<Option<Seq<char>>>>;

/// Optional texts as optional sequences of characters.
pub open spec fn entry_views(entries: Seq<Option<String>>) -> Seq<Option<Seq<char>>> {
    entries.map_values(
        |entry: Option<String>|
            match entry {
                Some(text) => Some(text@),
                None => None,
            },
    )
}

/// The number that a hexadecimal digit stands for.
pub open spec fn hex_digit(byte: u8) -> Option<int> {
    if 0x30 <= byte <= 0x39 {
        Some(byte - 0x30)
    } else if 0x61 <= byte <= 0x66 {
        Some(byte - 0x61 + 10)
    } else if 0x41 <= byte <= 0x46 {
        Some(byte - 0x41 + 10)
    } else {
        None
    }
}

/// The number that the hexadecimal digits `bytes[from..to]` stand for.
pub open spec fn hex_number(bytes: Seq<u8>, from: int, to: int) -> int
    decreases to - from,
{
    if to <= from {
        0
    } else {
        16 * hex_number(bytes, from, to - 1) + hex_digit(bytes[to - 1])->0
    }
}

/// Whether a number is the code of a character.
pub open spec fn is_character_code(code: int) -> bool {
    0 <= code < 0xD800 || 0xE000 <= code <= 0x10FFFF
}

/// Whether `bytes[open..=close]` is `{`, one to six hexadecimal digits that
/// stand for the code of a character, and `}`.
pub open spec fn braces_hold_character(bytes: Seq<u8>, open: int, close: int) -> bool {
    &&& 0 <= open
    &&& open + 2 <= close <= open + 7
    &&& close < bytes.len()
    &&& bytes[open] == 0x7b
    &&& bytes[close] == 0x7d
    &&& forall|j: int| open < j < close ==> hex_digit(#[trigger] bytes[j]) is Some
    &&& is_character_code(hex_number(bytes, open + 1, close))
}

/// Whether a character's code in braces begins at `bytes[open]`.
pub open spec fn braces_at(bytes: Seq<u8>, open: int) -> bool {
    exists|close: int| #[trigger] braces_hold_character(bytes, open, close)
}

/// The place of the `}` that closes the character's code in braces which
/// begins at `bytes[open]`.
pub open spec fn braces_close(bytes: Seq<u8>, open: int) -> int {
    choose|close: int| braces_hold_character(bytes, open, close)
}

/// There is one place at most where the braces that open at `bytes[open]` can
/// close: behind the last digit.
pub proof fn lemma_braces_close_once(bytes: Seq<u8>, open: int, close: int)
    requires
        braces_hold_character(bytes, open, close),
    ensures
        braces_at(bytes, open),
        braces_close(bytes, open) == close,
{
    let other = braces_close(bytes, open);
    assert(braces_hold_character(bytes, open, other));
    if other < close {
        assert(hex_digit(bytes[other]) is Some);
    } else if close < other {
        assert(hex_digit(bytes[close]) is Some);
    }
}

/// Whether `syn::LitStr::value` can read every `\u` escape of the string
/// literal whose opening `"` stands before `bytes[from]`: going from `from` to
/// the `"` that closes the literal, with each `\` taking the byte behind it,
/// every `\u` is followed by a character's code in braces, as in `\u{e9}`.
pub open spec fn cooked_escapes_fit(bytes: Seq<u8>, from: int) -> bool
    decreases bytes.len() - from,
    via cooked_escapes_fit_decreases
{
    if from < 0 || from >= bytes.len() {
        true
    } else if bytes[from] == 0x22 {
        true
    } else if bytes[from] != 0x5c {
        cooked_escapes_fit(bytes, from + 1)
    } else if from + 1 < bytes.len() && bytes[from + 1] == 0x75 {
        if braces_at(bytes, from + 2) {
            cooked_escapes_fit(bytes, braces_close(bytes, from + 2) + 1)
        } else {
            false
        }
    } else if from + 1 < bytes.len() {
        cooked_escapes_fit(bytes, from + 2)
    } else {
        true
    }
}

#[via_fn]
proof fn cooked_escapes_fit_decreases(bytes: Seq<u8>, from: int) {
    if braces_at(bytes, from + 2) {
        assert(braces_hold_character(bytes, from + 2, braces_close(bytes, from + 2)));
    }
}

/// Whether a text can be taken for a string literal: its bytes begin with `r`,
/// as a raw literal's do, which has no escapes; or they begin with `"` and the
/// `\u` escapes of the literal can be read.
pub open spec fn plain_literal_bytes(bytes: Seq<u8>) -> bool {
    &&& bytes.len() > 0
    &&& (bytes[0] == 0x72 || (bytes[0] == 0x22 && cooked_escapes_fit(bytes, 1)))
}

/// The greatest number that `digits` hexadecimal digits stand for.
pub open spec fn hex_limit(digits: int) -> int
    decreases digits,
{
    if digits <= 0 {
        0
    } else {
        16 * hex_limit(digits - 1) + 15
    }
}

/// The number that a hexadecimal digit stands for.
pub fn hex(byte: u8) -> (digit: Option<u32>)
    ensures
        match digit {
            Some(digit) => hex_digit(byte) == Some(digit as int) && digit < 16,
            None => hex_digit(byte) is None,
        },
{
    if 0x30 <= byte && byte <= 0x39 {
        Some((byte - 0x30) as u32)
    } else if 0x61 <= byte && byte <= 0x66 {
        Some((byte - 0x61 + 10) as u32)
    } else if 0x41 <= byte && byte <= 0x46 {
        Some((byte - 0x41 + 10) as u32)
    } else {
        None
    }
}

/// The place of the `}` that closes the character's code in braces which
/// begins at `bytes[open]`, where one begins there.
pub fn character_in_braces(bytes: &[u8], open: usize) -> (close: Option<usize>)
    ensures
        match close {
            Some(close) => braces_hold_character(bytes@, open as int, close as int),
            None => !braces_at(bytes@, open as int),
        },
{
    if open >= bytes.len() || bytes[open] != 0x7b {
        return None;
    }
    let mut code: u32 = 0;
    let mut at: usize = open + 1;
    loop
        invariant
            open < bytes.len(),
            bytes@[open as int] == 0x7b,
            open + 1 <= at <= open + 7,
            at <= bytes.len(),
            forall|j: int| open < j < at ==> hex_digit(#[trigger] bytes@[j]) is Some,
            code == hex_number(bytes@, open + 1, at as int),
            code <= hex_limit(at - open - 1),
        ensures
            at == bytes.len() || at == open + 7 || hex_digit(bytes@[at as int]) is None,
        decreases bytes.len() - at,
    {
        if at >= bytes.len() || at - open >= 7 {
            break ;
        }
        proof {
            reveal_with_fuel(hex_limit, 8);
        }
        match hex(bytes[at]) {
            Some(digit) => {
                code = code * 16 + digit;
                at += 1;
            },
            None => {
                break ;
            },
        }
    }
    // The digits end here: this is the one place where the brace can close.
    let closed = at < bytes.len() && bytes[at] == 0x7d && at >= open + 2;
    if closed && (code < 0xD800 || (0xE000 <= code && code <= 0x10FFFF)) {
        Some(at)
    } else {
        proof {
            assert forall|close: int| !braces_hold_character(bytes@, open as int, close) by {
                if braces_hold_character(bytes@, open as int, close) {
                    if close < at {
                        assert(hex_digit(bytes@[close]) is Some);
                    } else if close > at {
                        assert(hex_digit(bytes@[at as int]) is Some);
                    }
                }
            }
        }
        None
    }
}

/// Whether the `\u` escapes of the string literal that `text` begins with can
/// be read: whether the bytes of `text` satisfy [`cooked_escapes_fit`] from
/// behind the opening `"`.
pub fn has_fitting_escapes(text: &str) -> (fit: bool)
    ensures
        fit == cooked_escapes_fit(text.spec_bytes(), 1),
{
    let bytes = text.as_bytes();
    let mut at: usize = 1;
    while at < bytes.len()
        invariant
            1 <= at,
            bytes@ == text.spec_bytes(),
            cooked_escapes_fit(bytes@, 1) == cooked_escapes_fit(bytes@, at as int),
        decreases bytes.len() - at,
    {
        if bytes[at] == 0x22 {
            return true;
        } else if bytes[at] != 0x5c {
            at += 1;
        } else if at + 1 < bytes.len() && bytes[at + 1] == 0x75 {
            match character_in_braces(bytes, at + 2) {
                Some(close) => {
                    proof {
                        lemma_braces_close_once(bytes@, at + 2, close as int);
                    }
                    at = close + 1;
                },
                None => {
                    return false;
                },
            }
        } else if at + 1 < bytes.len() {
            at += 2;
        } else {
            return true;
        }
    }
    true
}

/// Whether the bytes of `text` satisfy [`plain_literal_bytes`].
pub fn is_plain_literal(text: &str) -> (plain: bool)
    ensures
        plain == plain_literal_bytes(text.spec_bytes()),
{
    let bytes = text.as_bytes();
    if bytes.len() == 0 {
        return false;
    }
    if bytes[0] == 0x72 {
        return true;
    }
    if bytes[0] != 0x22 {
        return false;
    }
    has_fitting_escapes(text)
}

/// Whether a byte is a letter of the English alphabet, a digit or `_`.
pub open spec fn is_word_byte(byte: u8) -> bool {
    ||| 0x30 <= byte <= 0x39
    ||| 0x41 <= byte <= 0x5a
    ||| 0x61 <= byte <= 0x7a
    ||| byte == 0x5f
}

/// Whether the letters `for` end at `bytes[at]` and no byte of a word follows
/// them: whether the word `for` may end there.
pub open spec fn for_ends_at(bytes: Seq<u8>, at: int) -> bool {
    &&& 2 <= at < bytes.len()
    &&& bytes[at - 2] == 0x66
    &&& bytes[at - 1] == 0x6f
    &&& bytes[at] == 0x72
    &&& !(at + 1 < bytes.len() && is_word_byte(bytes[at + 1]))
}

/// Whether no `<` stands anywhere behind a place where the word `for` may end.
pub open spec fn no_angle_behind_for(bytes: Seq<u8>) -> bool {
    forall|at: int, angle: int|
        #![trigger for_ends_at(bytes, at), bytes[angle]]
        for_ends_at(bytes, at) && at < angle < bytes.len() ==> bytes[angle] != 0x3c
}

/// Whether a text can be handed to the expression parser. A text in which `<`
/// stands somewhere behind the word `for` is kept from it: on a type that
/// begins `for<...> dyn` and goes on with a lifetime the parser panics.
pub open spec fn parseable(text: Seq<char>) -> bool {
    no_angle_behind_for(vstd::utf8::encode_utf8(text))
}

/// Whether `text` satisfies [`parseable`].
pub fn is_parseable(text: &str) -> (ok: bool)
    ensures
        ok == parseable(text@),
{
    let bytes = text.as_bytes();
    let mut seen: bool = false;
    let mut i: usize = 0;
    while i < bytes.len()
        invariant
            i <= bytes.len(),
            bytes@ == text.spec_bytes(),
            seen == exists|at: int| at < i && for_ends_at(bytes@, at),
            forall|at: int, angle: int|
                #![trigger for_ends_at(bytes@, at), bytes@[angle]]
                for_ends_at(bytes@, at) && at < angle < i ==> bytes@[angle] != 0x3c,
        decreases bytes.len() - i,
    {
        if seen && bytes[i] == 0x3c {
            proof {
                let at = choose|at: int| at < i && for_ends_at(bytes@, at);
                assert(for_ends_at(bytes@, at) && bytes@[i as int] == 0x3c);
            }
            return false;
        }
        let follows = i + 1 < bytes.len() && {
            let next = bytes[i + 1];
            (0x30 <= next && next <= 0x39) || (0x41 <= next && next <= 0x5a) || (0x61 <= next
                && next <= 0x7a) || next == 0x5f
        };
        if i >= 2 && bytes[i - 2] == 0x66 && bytes[i - 1] == 0x6f && bytes[i] == 0x72 && !follows {
            assert(for_ends_at(bytes@, i as int));
            seen = true;
        } else {
            assert(!for_ends_at(bytes@, i as int));
        }
        i += 1;
    }
    true
}

/// Whether a text is one Rust expression that can be handed to the expression
/// parser.
pub open spec fn expression_text(text: Seq<char>) -> bool {
    parseable(text) && is_expression(text)
}

/// Whether `text` is one Rust expression that can be handed to the expression
/// parser.
pub fn is_expression_text(text: &str) -> (yes: bool)
    ensures
        yes == expression_text(text@),
{
    if is_parseable(text) {
        parses_as_expression(text)
    } else {
        false
    }
}

/// Reads `text` as a string literal with `syn::parse_str::<syn::LitStr>` and
/// takes its value with `syn::LitStr::value`. The result is by definition
/// [`lit_str_value`] of the text. `value` is reached only where the whole text
/// is one string literal, and it panics only on a `\u` escape other than a
/// character's code of one to six hexadecimal digits in braces. A raw literal
/// has no escapes and begins with `r`; of any other text the `requires` asks
/// that each `\u` escape of the literal it begins with is of that form.
#[verifier::external_body]
pub(crate) fn decode_lit_str(text: &str) -> (value: Option<String>)
    requires
        plain_literal_bytes(text.spec_bytes()),
    ensures
        value is Some == lit_str_value(text@) is Some,
        value is Some ==> value->0@ == lit_str_value(text@)->0,
{
    syn::parse_str::<syn::LitStr>(text).ok().map(|lit| lit.value())
}

/// Asks `syn::parse_str::<syn::Expr>` whether `text` is one expression. The
/// answer is by definition [`is_expression`] of the text. Text that is not
/// [`parseable`] is kept out: the parser reads `for<...>` before a type, and
/// panics where the type is then `dyn` with a lifetime as its first bound.
#[verifier::external_body]
pub(crate) fn parses_as_expression(text: &str) -> (yes: bool)
    requires
        parseable(text@),
    ensures
        yes == is_expression(text@),
{
    syn::parse_str::<syn::Expr>(text).is_ok()
}

/// Reads `text` with `syn::parse_str::<syn::Meta>` and, where that gives a
/// list (`syn::Meta::List`), hands out its entries: the source text of each
/// entry that is a string literal, written out with
/// `quote::ToTokens::into_token_stream`, and `None` for each other entry. The
/// result is by definition [`meta_list`] of the text.
#[verifier::external_body]
pub(crate) fn parse_meta_list(text: &str) -> (entries: Option<Vec<Option<String>>>)
    ensures
        entries is Some == meta_list(text@) is Some,
        entries is Some ==> entry_views(entries->0@) == meta_list(text@)->0,
{
    match syn::parse_str::<syn::Meta>(text) {
        Ok(syn::Meta::List(list)) => Some(
            list.nested.iter().map(|nested| match nested {
                syn::NestedMeta::Literal(syn::Lit::Str(lit)) => Some(
                    quote::ToTokens::into_token_stream(lit).to_string(),
                ),
                _ => None,
            }).collect(),
        ),
        _ => None,
    }
}

/// The string that a literal's source text stands for, where the text is a
/// string literal. A text in which `\u` is followed by anything but a
/// character's code in braces, as in `\u{e9}`, is not taken for one.
pub open spec fn string_in(text: Seq<char>) -> Option<Seq<char>> {
    if plain_literal_bytes(vstd::utf8::encode_utf8(text)) {
        lit_str_value(text)
    } else {
        None
    }
}

/// The string that a literal's source text stands for, where the text is a
/// string literal.
pub fn string_of(text: &str) -> (value: Option<String>)
    ensures
        match value {
            Some(value) => string_in(text@) == Some(value@),
            None => string_in(text@) is None,
        },
{
    if is_plain_literal(text) {
        decode_lit_str(text)
    } else {
        None
    }
}

} // verus!
