use vstd::prelude::*;
use vstd::string::StringSliceAdditionalSpecFns;

use crate::grammar::parse_partial_term;
use crate::lexer::{tokens, Token, TokenKind};

verus! {

/// How a stretch of input is to be shown.
#[derive(Clone, Copy, Debug, PartialEq, Eq, Structural)]
pub enum Category {
    Number,
    Operator,
    Variable,
    Comment,
    Whitespace,
    Punctuation,
    /// The line does not tokenize.
    Error,
}

/// The bytes `start..end` of a line, shown as `category`.
#[derive(Clone, Copy, Debug, PartialEq, Eq, Structural)]
pub struct Span {
    pub start: usize,
    pub end: usize,
    pub category: Category,
}

pub open spec fn category_of(k: TokenKind) -> Category {
    match k {
        TokenKind::Integer | TokenKind::Float => Category::Number,
        TokenKind::Plus | TokenKind::Minus | TokenKind::Star | TokenKind::Slash
        | TokenKind::Percent | TokenKind::Caret => Category::Operator,
        TokenKind::Identifier => Category::Variable,
        TokenKind::Comment => Category::Comment,
        TokenKind::Whitespace => Category::Whitespace,
        _ => Category::Punctuation,
    }
}

pub open spec fn span_of(tok: Token) -> Span {
    Span { start: tok.start, end: tok.end, category: category_of(tok.kind) }
}

/// Colours a line of input as it is typed.
pub struct ArithmeticHighlighter;

impl ArithmeticHighlighter {
    /// The span that shows one token.
    pub fn highlight_pair(&self, tok: Token) -> (r: Span)
        ensures
            r == span_of(tok),
    {
        let category = match tok.kind {
            TokenKind::Integer | TokenKind::Float => Category::Number,
            TokenKind::Plus | TokenKind::Minus | TokenKind::Star | TokenKind::Slash
            | TokenKind::Percent | TokenKind::Caret => Category::Operator,
            TokenKind::Identifier => Category::Variable,
            TokenKind::Comment => Category::Comment,
            TokenKind::Whitespace => Category::Whitespace,
            _ => Category::Punctuation,
        };
        Span { start: tok.start, end: tok.end, category }
    }

    /// One span per token of `line`, whitespace and comments included; where
    /// the line does not tokenize, one error span over all of it.
    pub fn highlight(&self, line: &str) -> (r: Vec<Span>)
        ensures
            match tokens(line.spec_bytes(), true) {
                Ok(t) => r@ == t.map_values(|tok: Token| span_of(tok)),
                Err(_) => r@ == seq![
                    Span { start: 0, end: line.spec_bytes().len() as usize, category: Category::Error },
                ],
            },
    {
        match parse_partial_term(line) {
            Ok(toks) => {
                let mut spans: Vec<Span> = Vec::new();
                let mut i: usize = 0;
                while i < toks.len()
                    invariant
                        0 <= i <= toks@.len(),
                        spans@ =~= toks@.take(i as int).map_values(|tok: Token| span_of(tok)),
                    decreases toks@.len() - i,
                {
                    spans.push(self.highlight_pair(toks[i]));
                    i = i + 1;
                }
                proof {
                    assert(toks@.take(toks@.len() as int) =~= toks@);
                }
                spans
            },
            Err(_) => {
                let spans = vec![Span { start: 0, end: line.len(), category: Category::Error }];
                assert(spans@ =~= seq![
                    Span { start: 0, end: line.spec_bytes().len() as usize, category: Category::Error },
                ]);
                spans
            },
        }
    }
}

} // verus!
