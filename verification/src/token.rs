//! The token tree that the host hands in, and the order in which its pieces
//! of text are written out.

use vstd::prelude::*;

verus! {

/// How a group of tokens is delimited.
#[derive(Clone, Copy, Debug, PartialEq, Eq, Structural)]
pub enum Delimiter {
    /// `( ... )`
    Parenthesis,
    /// `{ ... }`
    Brace,
    /// `[ ... ]`
    Bracket,
    /// A grouping with no brackets in the text.
    Transparent,
}

/// A token of the host's input. `L` is the host's handle for a place in its
/// source: it is carried along and never looked into.
#[derive(Debug)]
pub enum Token<L> {
    /// An identifier, a literal or a piece of punctuation, as text.
    Leaf { text: String, location: L },
    /// A delimited group, with the places of its two brackets.
    Group { delimiter: Delimiter, open: L, close: L, children: Vec<Token<L>> },
}

/// A piece of text to write, and the place it is attributed to.
pub struct Leaf<L> {
    pub text: Seq<char>,
    pub location: L,
}

impl Delimiter {
    /// The opening bracket, if the delimiter has brackets.
    pub open spec fn opening(self) -> Option<char> {
        match self {
            Delimiter::Parenthesis => Some('('),
            Delimiter::Brace => Some('{'),
            Delimiter::Bracket => Some('['),
            Delimiter::Transparent => None,
        }
    }

    /// The closing bracket, if the delimiter has brackets.
    pub open spec fn closing(self) -> Option<char> {
        match self {
            Delimiter::Parenthesis => Some(')'),
            Delimiter::Brace => Some('}'),
            Delimiter::Bracket => Some(']'),
            Delimiter::Transparent => None,
        }
    }

    /// The text of the opening bracket.
    pub fn open_text(&self) -> (text: Option<&'static str>)
        ensures
            match text {
                Some(t) => self.opening() == Some(t@[0]) && t@.len() == 1,
                None => self.opening() is None,
            },
    {
        proof {
            reveal_strlit("(");
            reveal_strlit("{");
            reveal_strlit("[");
        }
        match self {
            Delimiter::Parenthesis => Some("("),
            Delimiter::Brace => Some("{"),
            Delimiter::Bracket => Some("["),
            Delimiter::Transparent => None,
        }
    }

    /// The text of the closing bracket.
    pub fn close_text(&self) -> (text: Option<&'static str>)
        ensures
            match text {
                Some(t) => self.closing() == Some(t@[0]) && t@.len() == 1,
                None => self.closing() is None,
            },
    {
        proof {
            reveal_strlit(")");
            reveal_strlit("}");
            reveal_strlit("]");
        }
        match self {
            Delimiter::Parenthesis => Some(")"),
            Delimiter::Brace => Some("}"),
            Delimiter::Bracket => Some("]"),
            Delimiter::Transparent => None,
        }
    }
}

/// The one leaf of a bracket, or nothing where there is no bracket.
pub open spec fn bracket<L>(c: Option<char>, location: L) -> Seq<Leaf<L>> {
    match c {
        Some(c) => seq![Leaf { text: seq![c], location }],
        None => Seq::empty(),
    }
}

impl<L> Token<L> {
    /// The leaves of the token in depth-first order. A group gives its
    /// opening bracket at the place `open`, then the leaves of its children,
    /// then its closing bracket at the place `close`.
    pub open spec fn leaves(self) -> Seq<Leaf<L>>
        decreases self,
    {
        match self {
            Token::Leaf { text, location } => seq![Leaf { text: text@, location }],
            Token::Group { delimiter, open, close, children } => bracket(delimiter.opening(), open)
                + leaves_of(children@) + bracket(delimiter.closing(), close),
        }
    }
}

/// The leaves of a sequence of tokens, token after token.
pub open spec fn leaves_of<L>(tokens: Seq<Token<L>>) -> Seq<Leaf<L>>
    decreases tokens,
{
    if tokens.len() == 0 {
        Seq::empty()
    } else {
        leaves_of(tokens.drop_last()) + tokens.last().leaves()
    }
}

/// The order of the tokens is the order of their leaves: the leaves of two
/// sequences of tokens, one after the other, are the leaves of the first
/// followed by the leaves of the second.
pub proof fn lemma_leaves_of_concat<L>(a: Seq<Token<L>>, b: Seq<Token<L>>)
    ensures
        leaves_of(a + b) == leaves_of(a) + leaves_of(b),
    decreases b.len(),
{
    if b.len() > 0 {
        assert((a + b).drop_last() == a + b.drop_last());
        lemma_leaves_of_concat(a, b.drop_last());
    }
}

} // verus!
