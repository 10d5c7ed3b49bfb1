//! The token taxonomy, the source-length table, and the decomposition
//! protocol that rewrites compound two-character operators into the ordered
//! single-character primitive tokens they are made of.

use vstd::prelude::*;

verus! {

/// One lexical unit: a keyword, an operator or punctuation mark, a literal,
/// or an identifier.
///
/// An identifier's name and a float literal's digits are not stored in the
/// token; they are recovered from the span attached to the token when it was
/// scanned. An integer literal carries its value as an unsigned 128-bit
/// magnitude.
#[derive(Clone, Copy, Debug, PartialEq, Eq, Structural)]
pub enum Token {
    /// The binding-declaration keyword `let`.
    Let,
    /// `+`
    Plus,
    /// `-`
    Minus,
    /// `*`
    Asterisk,
    /// `/`
    Divide,
    /// `^`
    Xor,
    /// `!`
    Not,
    /// `&`
    And,
    /// `&&`
    AndAnd,
    /// `|`
    Or,
    /// `||`
    OrOr,
    /// `=`
    Assign,
    /// `==`
    Eq,
    /// `!=`
    Ne,
    /// `<`
    Lt,
    /// `<=`
    Le,
    /// `>`
    Gt,
    /// `>=`
    Ge,
    /// `;`
    Semicolon,
    /// `(`
    LeftParen,
    /// `)`
    RightParen,
    /// `[`
    LeftSquare,
    /// `]`
    RightSquare,
    /// `{`
    LeftBrace,
    /// `}`
    RightBrace,
    /// An integer literal in any radix; the payload is its magnitude.
    Integer(u128),
    /// A float literal; its digits are the span text.
    Float,
    /// An identifier; its name is the span text.
    Ident,
}

/// The source length in bytes of each fixed-width token kind: `None` for the
/// three variable-width kinds (integer and float literals, identifiers),
/// whose length is read from their span instead.
pub open spec fn spec_len(t: Token) -> Option<usize> {
    match t {
        Token::Let => Some(3usize),
        Token::Plus => Some(1usize),
        Token::Minus => Some(1usize),
        Token::Asterisk => Some(1usize),
        Token::Divide => Some(1usize),
        Token::Xor => Some(1usize),
        Token::Not => Some(1usize),
        Token::And => Some(1usize),
        Token::AndAnd => Some(2usize),
        Token::Or => Some(1usize),
        Token::OrOr => Some(2usize),
        Token::Assign => Some(1usize),
        Token::Eq => Some(2usize),
        Token::Ne => Some(2usize),
        Token::Lt => Some(1usize),
        Token::Le => Some(2usize),
        Token::Gt => Some(1usize),
        Token::Ge => Some(2usize),
        Token::Semicolon => Some(1usize),
        Token::LeftParen => Some(1usize),
        Token::RightParen => Some(1usize),
        Token::LeftSquare => Some(1usize),
        Token::RightSquare => Some(1usize),
        Token::LeftBrace => Some(1usize),
        Token::RightBrace => Some(1usize),
        Token::Integer(_) => None,
        Token::Float => None,
        Token::Ident => None,
    }
}

/// True of the six compound two-character operator tokens, the only tokens
/// whose decomposition is not the singleton sequence of themselves.
pub open spec fn is_compound(t: Token) -> bool {
    t is AndAnd || t is OrOr || t is Eq || t is Ne || t is Le || t is Ge
}

/// The decomposition of a token: each compound two-character operator maps
/// to the ordered pair of single-character primitives it is made of; every
/// other token maps to the singleton sequence of itself.
pub open spec fn spec_split(t: Token) -> Seq<Token> {
    match t {
        Token::AndAnd => seq![Token::And, Token::And],
        Token::OrOr => seq![Token::Or, Token::Or],
        Token::Eq => seq![Token::Assign, Token::Assign],
        Token::Ne => seq![Token::Not, Token::Assign],
        Token::Le => seq![Token::Lt, Token::Assign],
        Token::Ge => seq![Token::Gt, Token::Assign],
        _ => seq![t],
    }
}

/// The total source length of a sequence of tokens: `None` as soon as one of
/// them is variable-width.
pub open spec fn spec_split_len_sum(s: Seq<Token>) -> Option<nat>
    decreases s.len(),
{
    if s.len() == 0 {
        Some(0nat)
    } else {
        match (spec_len(s.first()), spec_split_len_sum(s.drop_first())) {
            (Some(a), Some(b)) => Some((a + b) as nat),
            _ => None,
        }
    }
}

/// A cursor over the decomposition of one token, yielding the decomposed
/// tokens left to right.
#[derive(Clone, Copy, Debug)]
pub enum SplitIter {
    /// At most one token left to yield.
    Once(Option<Token>),
    /// A two-token decomposition; the index counts how many of the two have
    /// been yielded already.
    Multi(Token, Token, usize),
}

impl View for SplitIter {
    type V = Seq<Token>;

    /// The tokens still to be yielded, in order.
    open spec fn view(&self) -> Seq<Token> {
        match *self {
            SplitIter::Once(None) => seq![],
            SplitIter::Once(Some(t)) => seq![t],
            SplitIter::Multi(a, b, i) => (
                if i <= 2 {
                    seq![a, b].skip(i as int)
                } else {
                    seq![]
                }
            ),
        }
    }
}

impl SplitIter {
    /// Yields the next token of the decomposition, or `None` once all have
    /// been yielded.
    pub fn next(&mut self) -> (r: Option<Token>)
        ensures
            old(self)@.len() == 0 ==> r is None && final(self)@ == old(self)@,
            old(self)@.len() > 0 ==> r == Some(old(self)@.first()) && final(self)@ == old(self)@.drop_first(),
    {
        let cur = *self;
        match cur {
            SplitIter::Once(opt) => {
                *self = SplitIter::Once(None);
                proof {
                    if old(self)@.len() > 0 {
                        assert(final(self)@ =~= old(self)@.drop_first());
                    }
                }
                opt
            },
            SplitIter::Multi(a, b, i) => {
                if i == 0 {
                    *self = SplitIter::Multi(a, b, 1);
                    proof {
                        assert(final(self)@ =~= old(self)@.drop_first());
                    }
                    Some(a)
                } else if i == 1 {
                    *self = SplitIter::Multi(a, b, 2);
                    proof {
                        assert(final(self)@ =~= old(self)@.drop_first());
                    }
                    Some(b)
                } else {
                    None
                }
            },
        }
    }
}

impl Token {
    /// Decomposes this token: a compound two-character operator yields the
    /// two single-character primitives it is made of, in order; every other
    /// token yields only itself.
    pub fn split_tokens(self) -> (r: SplitIter)
        ensures
            r@ == spec_split(self),
    {
        let r = match self {
            Token::AndAnd => SplitIter::Multi(Token::And, Token::And, 0),
            Token::OrOr => SplitIter::Multi(Token::Or, Token::Or, 0),
            Token::Eq => SplitIter::Multi(Token::Assign, Token::Assign, 0),
            Token::Ne => SplitIter::Multi(Token::Not, Token::Assign, 0),
            Token::Le => SplitIter::Multi(Token::Lt, Token::Assign, 0),
            Token::Ge => SplitIter::Multi(Token::Gt, Token::Assign, 0),
            _ => SplitIter::Once(Some(self)),
        };
        proof {
            assert(r@ =~= spec_split(self));
        }
        r
    }

    /// The source length in bytes of this token's kind, or `None` for the
    /// variable-width kinds (integer and float literals, identifiers).
    pub fn len(self) -> (r: Option<usize>)
        ensures
            r == spec_len(self),
    {
        match self {
            Token::Let => Some(3),
            Token::Plus => Some(1),
            Token::Minus => Some(1),
            Token::Asterisk => Some(1),
            Token::Divide => Some(1),
            Token::Xor => Some(1),
            Token::Not => Some(1),
            Token::And => Some(1),
            Token::AndAnd => Some(2),
            Token::Or => Some(1),
            Token::OrOr => Some(2),
            Token::Assign => Some(1),
            Token::Eq => Some(2),
            Token::Ne => Some(2),
            Token::Lt => Some(1),
            Token::Le => Some(2),
            Token::Gt => Some(1),
            Token::Ge => Some(2),
            Token::Semicolon => Some(1),
            Token::LeftParen => Some(1),
            Token::RightParen => Some(1),
            Token::LeftSquare => Some(1),
            Token::RightSquare => Some(1),
            Token::LeftBrace => Some(1),
            Token::RightBrace => Some(1),
            Token::Integer(_) => None,
            Token::Float => None,
            Token::Ident => None,
        }
    }
}

/// The total source length of a singleton decomposition is the length of the
/// one token in it.
proof fn lemma_split_len_sum_singleton(t: Token)
    ensures
        spec_split_len_sum(seq![t]) == (match spec_len(t) {
            Some(n) => Some(n as nat),
            None => None::<nat>,
        }),
{
    assert(seq![t].drop_first() =~= Seq::<Token>::empty());
    assert(spec_split_len_sum(Seq::<Token>::empty()) == Some(0nat));
}

/// The total source length of a two-token decomposition is the sum of the
/// two tokens' lengths, when both are fixed-width.
proof fn lemma_split_len_sum_pair(a: Token, b: Token)
    requires
        spec_len(a) is Some,
        spec_len(b) is Some,
    ensures
        spec_split_len_sum(seq![a, b]) == Some(
            (spec_len(a).unwrap() + spec_len(b).unwrap()) as nat,
        ),
{
    assert(seq![a, b].drop_first() =~= seq![b]);
    lemma_split_len_sum_singleton(b);
}

/// The decomposition of every fixed-width token preserves total source
/// length: the lengths of the decomposed tokens sum to the length of the
/// original token. In particular each compound two-character operator
/// decomposes into two one-character primitives.
pub proof fn lemma_split_length_consistent(t: Token)
    requires
        spec_len(t) is Some,
    ensures
        spec_split_len_sum(spec_split(t)) == Some(spec_len(t).unwrap() as nat),
{
    match t {
        Token::AndAnd => lemma_split_len_sum_pair(Token::And, Token::And),
        Token::OrOr => lemma_split_len_sum_pair(Token::Or, Token::Or),
        Token::Eq => lemma_split_len_sum_pair(Token::Assign, Token::Assign),
        Token::Ne => lemma_split_len_sum_pair(Token::Not, Token::Assign),
        Token::Le => lemma_split_len_sum_pair(Token::Lt, Token::Assign),
        Token::Ge => lemma_split_len_sum_pair(Token::Gt, Token::Assign),
        _ => lemma_split_len_sum_singleton(t),
    }
}

/// Decomposition is the identity on every non-compound token: it yields the
/// singleton sequence holding only that token.
pub proof fn lemma_split_primitive_identity(t: Token)
    requires
        !is_compound(t),
    ensures
        spec_split(t) == seq![t],
{
}

} // verus!
