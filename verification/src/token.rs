//! A plain model of Rust token trees, as an attribute's arguments hold them.

use vstd::prelude::*;
use crate::syntax::{string_in, string_of};
use crate::text::push_char;

verus! {

/// The brackets round a group of tokens.
#[derive(Clone, Copy, Debug, PartialEq, Eq, Structural)]
pub enum Delimiter {
    /// `( ... )`
    Parenthesis,
    /// `{ ... }`
    Brace,
    /// `[ ... ]`
    Bracket,
}

/// Whether a punctuation character is followed at once by another one, as the
/// first `:` of `::` is.
#[derive(Clone, Copy, Debug, PartialEq, Eq, Structural)]
pub enum Spacing {
    Alone,
    Joint,
}

/// One token, or a bracketed group of tokens.
#[derive(Debug, PartialEq, Eq)]
pub enum TokenTree {
    /// A bracketed run of tokens.
    Group(Delimiter, Vec<TokenTree>),
    /// A word: an identifier or a keyword.
    Ident(String),
    /// One punctuation character.
    Punct(char, Spacing),
    /// A string literal: its source text, quotes included, and the string it
    /// stands for.
    Str(String, String),
    /// Any other literal, as its source text.
    Literal(String),
}

impl Delimiter {
    /// The character that opens a group.
    pub open spec fn open(self) -> char {
        match self {
            Delimiter::Parenthesis => '(',
            Delimiter::Brace => '{',
            Delimiter::Bracket => '[',
        }
    }

    /// The character that closes a group.
    pub open spec fn close(self) -> char {
        match self {
            Delimiter::Parenthesis => ')',
            Delimiter::Brace => '}',
            Delimiter::Bracket => ']',
        }
    }

    /// The character that opens a group.
    pub fn opening(self) -> (c: char)
        ensures
            c == self.open(),
    {
        match self {
            Delimiter::Parenthesis => '(',
            Delimiter::Brace => '{',
            Delimiter::Bracket => '[',
        }
    }

    /// The character that closes a group.
    pub fn closing(self) -> (c: char)
        ensures
            c == self.close(),
    {
        match self {
            Delimiter::Parenthesis => ')',
            Delimiter::Brace => '}',
            Delimiter::Bracket => ']',
        }
    }
}

impl TokenTree {
    /// Whether the token is a punctuation character that runs into the next token.
    pub open spec fn is_joint(self) -> bool {
        self matches TokenTree::Punct(_, Spacing::Joint)
    }

    /// Whether the token is the punctuation character `c`, whatever follows it.
    pub open spec fn is_punct(self, c: char) -> bool {
        self matches TokenTree::Punct(p, _) && p == c
    }

    /// The string that a string literal stands for; `None` for any other token.
    pub open spec fn str_value(self) -> Option<Seq<char>> {
        match self {
            TokenTree::Str(_, value) => Some(value@),
            _ => None,
        }
    }

    /// The token of a literal with the source text `text`: a string literal with
    /// its value where [`string_in`] finds one, any other literal where not.
    pub fn literal(text: String) -> (token: TokenTree)
        ensures
            string_in(text@) is Some ==> (token matches TokenTree::Str(source, value) && source
                == text && value@ == string_in(text@)->0),
            string_in(text@) is None ==> token == TokenTree::Literal(text),
    {
        match string_of(text.as_str()) {
            Some(value) => TokenTree::Str(text, value),
            None => TokenTree::Literal(text),
        }
    }

    /// Whether the token is the punctuation character `c`, whatever follows it.
    pub fn punct_is(&self, c: char) -> (b: bool)
        ensures
            b == self.is_punct(c),
    {
        match self {
            TokenTree::Punct(p, _) => *p == c,
            _ => false,
        }
    }
}

/// The source text of one token. A group is its brackets round the text of its
/// tokens, with a blank inside each bracket.
pub open spec fn tree_text(tree: TokenTree) -> Seq<char>
    decreases tree,
{
    match tree {
        TokenTree::Group(delimiter, inner) => if inner@.len() == 0 {
            seq![delimiter.open(), ' ', delimiter.close()]
        } else {
            seq![delimiter.open(), ' '] + stream_text(inner@) + seq![' ', delimiter.close()]
        },
        TokenTree::Ident(name) => name@,
        TokenTree::Punct(c, _) => seq![c],
        TokenTree::Str(text, _) => text@,
        TokenTree::Literal(text) => text@,
    }
}

/// What stands between a run of tokens and the token after it: a blank, but
/// nothing at the start and nothing after a punctuation character that runs into
/// the next token.
pub open spec fn gap_after(front: Seq<TokenTree>) -> Seq<char> {
    if front.len() == 0 || front.last().is_joint() {
        Seq::empty()
    } else {
        seq![' ']
    }
}

/// The source text of a run of tokens: the tokens' texts with a blank between two
/// of them, but none after a punctuation character that runs into the next token.
pub open spec fn stream_text(tokens: Seq<TokenTree>) -> Seq<char>
    decreases tokens,
{
    if tokens.len() == 0 {
        Seq::empty()
    } else {
        stream_text(tokens.drop_last()) + gap_after(tokens.drop_last()) + tree_text(
            tokens.last(),
        )
    }
}

/// The text of a run of tokens with one more token behind it.
pub proof fn lemma_stream_text_push(front: Seq<TokenTree>, tree: TokenTree)
    ensures
        stream_text(front.push(tree)) == stream_text(front) + gap_after(front) + tree_text(tree),
{
    assert(front.push(tree).drop_last() =~= front);
}

/// Appends the source text of one token to `out`.
pub fn write_tree(tree: &TokenTree, out: &mut String)
    ensures
        final(out)@ == old(out)@ + tree_text(*tree),
    decreases *tree,
{
    match tree {
        TokenTree::Group(delimiter, inner) => {
            push_char(out, delimiter.opening());
            push_char(out, ' ');
            if inner.len() > 0 {
                let ghost opened = out@;
                write_stream(inner, 0, inner.len(), out);
                proof {
                    assert(inner@.subrange(0, inner.len() as int) =~= inner@);
                    assert(out@ == opened + stream_text(inner@));
                }
                push_char(out, ' ');
            }
            push_char(out, delimiter.closing());
            proof {
                assert(out@ =~= old(out)@ + tree_text(*tree));
            }
        },
        TokenTree::Ident(name) => {
            out.append(name.as_str());
        },
        TokenTree::Punct(c, _) => {
            push_char(out, *c);
            proof {
                assert(out@ =~= old(out)@ + tree_text(*tree));
            }
        },
        TokenTree::Str(text, _) => {
            out.append(text.as_str());
        },
        TokenTree::Literal(text) => {
            out.append(text.as_str());
        },
    }
}

/// Appends the source text of `tokens[from..to]` to `out`.
pub fn write_stream(tokens: &Vec<TokenTree>, from: usize, to: usize, out: &mut String)
    requires
        from <= to <= tokens.len(),
    ensures
        final(out)@ == old(out)@ + stream_text(tokens@.subrange(from as int, to as int)),
    decreases *tokens,
{
    let mut i: usize = from;
    proof {
        assert(stream_text(tokens@.subrange(from as int, from as int)) =~= Seq::<char>::empty());
    }
    while i < to
        invariant
            from <= i <= to <= tokens.len(),
            out@ == old(out)@ + stream_text(tokens@.subrange(from as int, i as int)),
        decreases to - i,
    {
        let ghost before = tokens@.subrange(from as int, i as int);
        let ghost start = out@;
        if i > from {
            let joint = match &tokens[i - 1] {
                TokenTree::Punct(_, Spacing::Joint) => true,
                _ => false,
            };
            proof {
                assert(before.last() == tokens@[i - 1]);
            }
            if !joint {
                push_char(out, ' ');
            }
        }
        let ghost gapped = out@;
        proof {
            assert(gapped =~= start + gap_after(before));
        }
        write_tree(&tokens[i], out);
        proof {
            lemma_stream_text_push(before, tokens@[i as int]);
            assert(before.push(tokens@[i as int]) =~= tokens@.subrange(from as int, i + 1));
            assert(out@ =~= old(out)@ + stream_text(tokens@.subrange(from as int, i + 1)));
        }
        i += 1;
    }
}

/// The source text of `tokens[from..to]`.
pub fn stream_to_string(tokens: &Vec<TokenTree>, from: usize, to: usize) -> (text: String)
    requires
        from <= to <= tokens.len(),
    ensures
        text@ == stream_text(tokens@.subrange(from as int, to as int)),
{
    let mut text = String::new();
    write_stream(tokens, from, to, &mut text);
    text
}

} // verus!
