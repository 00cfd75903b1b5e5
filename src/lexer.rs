use vstd::prelude::*;

verus! {

/// The lexical categories of the expression language.
#[derive(Clone, Copy, Debug, PartialEq, Eq, Structural)]
pub enum TokenKind {
    Integer,
    Float,
    Identifier,
    Plus,
    Minus,
    Star,
    Slash,
    Percent,
    Caret,
    OpenParen,
    CloseParen,
    Equals,
    Colon,
    Whitespace,
    Comment,
}

impl TokenKind {
    /// Whitespace and comments may stand between any two tokens and carry no meaning.
    pub open spec fn spec_is_trivia(self) -> bool {
        self == TokenKind::Whitespace || self == TokenKind::Comment
    }

    pub fn is_trivia(&self) -> (r: bool)
        ensures
            r == self.spec_is_trivia(),
    {
        match self {
            TokenKind::Whitespace | TokenKind::Comment => true,
            _ => false,
        }
    }
}

/// A token: its category and the byte range `start..end` of the input it covers.
#[derive(Clone, Copy, Debug, PartialEq, Eq, Structural)]
pub struct Token {
    pub kind: TokenKind,
    pub start: usize,
    pub end: usize,
}

/// What the parser expected where it stopped.
#[derive(Clone, Copy, Debug, PartialEq, Eq, Structural)]
pub enum Expectation {
    /// A character that starts no token.
    Token,
    /// A number, a variable or an opening parenthesis.
    Operand,
    /// A closing parenthesis.
    CloseParen,
    /// The end of the input.
    EndOfInput,
    /// A command name after `:`.
    CommandName,
    /// An integer that fits in 32 bits.
    IntegerInRange,
}

/// A failed parse: the byte offset of the first character that could not be
/// parsed, and what was expected there.
#[derive(Clone, Copy, Debug, PartialEq, Eq, Structural)]
pub struct ParseError {
    pub offset: usize,
    pub expected: Expectation,
}

pub open spec fn is_digit(b: u8) -> bool {
    48 <= b <= 57
}

pub open spec fn is_alpha(b: u8) -> bool {
    (65 <= b <= 90) || (97 <= b <= 122)
}

pub open spec fn is_word_byte(b: u8) -> bool {
    is_alpha(b) || is_digit(b) || b == 95
}

pub open spec fn is_space(b: u8) -> bool {
    b == 32 || b == 9 || b == 10 || b == 13
}

/// The end of the run of digits that starts at `pos`.
pub open spec fn digits_end(s: Seq<u8>, pos: int) -> int
    decreases s.len() - pos,
{
    if 0 <= pos < s.len() && is_digit(s[pos]) {
        digits_end(s, pos + 1)
    } else {
        pos
    }
}

/// The end of the run of word bytes (letters, digits, `_`) that starts at `pos`.
pub open spec fn word_end(s: Seq<u8>, pos: int) -> int
    decreases s.len() - pos,
{
    if 0 <= pos < s.len() && is_word_byte(s[pos]) {
        word_end(s, pos + 1)
    } else {
        pos
    }
}

/// The end of the line that holds `pos`: the next newline or the end of the input.
pub open spec fn line_end(s: Seq<u8>, pos: int) -> int
    decreases s.len() - pos,
{
    if 0 <= pos < s.len() && s[pos] != 10 {
        line_end(s, pos + 1)
    } else {
        pos
    }
}

/// The single-byte symbols.
pub open spec fn symbol_kind(b: u8) -> Option<TokenKind> {
    if b == 43 {
        Some(TokenKind::Plus)
    } else if b == 45 {
        Some(TokenKind::Minus)
    } else if b == 42 {
        Some(TokenKind::Star)
    } else if b == 47 {
        Some(TokenKind::Slash)
    } else if b == 37 {
        Some(TokenKind::Percent)
    } else if b == 94 {
        Some(TokenKind::Caret)
    } else if b == 40 {
        Some(TokenKind::OpenParen)
    } else if b == 41 {
        Some(TokenKind::CloseParen)
    } else if b == 61 {
        Some(TokenKind::Equals)
    } else if b == 58 {
        Some(TokenKind::Colon)
    } else {
        None
    }
}

/// The token that starts at `pos`, if one does: a whitespace byte, a `#` comment
/// up to the end of the line, a number (a float has a `.` followed by digits), a
/// word that starts with a letter, or a symbol.
pub open spec fn scan(s: Seq<u8>, pos: int) -> Option<Token>
    recommends
        0 <= pos < s.len(),
{
    let b = s[pos];
    if is_space(b) {
        Some(Token { kind: TokenKind::Whitespace, start: pos as usize, end: (pos + 1) as usize })
    } else if b == 35 {
        Some(Token { kind: TokenKind::Comment, start: pos as usize, end: line_end(s, pos) as usize })
    } else if is_digit(b) {
        let d = digits_end(s, pos);
        if d + 1 < s.len() && s[d] == 46 && is_digit(s[d + 1]) {
            Some(Token { kind: TokenKind::Float, start: pos as usize, end: digits_end(s, d + 1) as usize })
        } else {
            Some(Token { kind: TokenKind::Integer, start: pos as usize, end: d as usize })
        }
    } else if is_alpha(b) {
        Some(Token { kind: TokenKind::Identifier, start: pos as usize, end: word_end(s, pos) as usize })
    } else {
        match symbol_kind(b) {
            Some(k) => Some(Token { kind: k, start: pos as usize, end: (pos + 1) as usize }),
            None => None,
        }
    }
}

pub(crate) proof fn lemma_ends(s: Seq<u8>, pos: int)
    requires
        0 <= pos <= s.len(),
    ensures
        pos <= digits_end(s, pos) <= s.len(),
        pos <= word_end(s, pos) <= s.len(),
        pos <= line_end(s, pos) <= s.len(),
    decreases s.len() - pos,
{
    if pos < s.len() {
        lemma_ends(s, pos + 1);
    }
}

proof fn lemma_scan_advances(s: Seq<u8>, pos: int)
    requires
        0 <= pos < s.len(),
        s.len() <= usize::MAX,
    ensures
        scan(s, pos) is Some ==> scan(s, pos)->0.start == pos && pos < scan(s, pos)->0.end
            <= s.len(),
{
    lemma_ends(s, pos);
    lemma_ends(s, pos + 1);
    let d = digits_end(s, pos);
    if 0 <= d + 1 <= s.len() {
        lemma_ends(s, d + 1);
    }
}

/// The tokens of `s` from `pos` on, with whitespace and comments where `keep_trivia`
/// holds; or the error at the first byte that starts no token.
pub open spec fn tokens_from(s: Seq<u8>, pos: int, keep_trivia: bool) -> Result<Seq<Token>, ParseError>
    decreases s.len() - pos,
{
    if pos < 0 || pos >= s.len() {
        Ok(Seq::empty())
    } else {
        match scan(s, pos) {
            None => Err(ParseError { offset: pos as usize, expected: Expectation::Token }),
            Some(t) => if t.end <= pos || t.end > s.len() {
                Ok(Seq::empty())
            } else {
                match tokens_from(s, t.end as int, keep_trivia) {
                    Ok(rest) => if keep_trivia || !t.kind.spec_is_trivia() {
                        Ok(seq![t] + rest)
                    } else {
                        Ok(rest)
                    },
                    Err(e) => Err(e),
                }
            },
        }
    }
}

pub open spec fn tokens(s: Seq<u8>, keep_trivia: bool) -> Result<Seq<Token>, ParseError> {
    tokens_from(s, 0, keep_trivia)
}


fn digits_end_exec(s: &[u8], pos: usize) -> (r: usize)
    requires
        pos <= s@.len(),
    ensures
        r == digits_end(s@, pos as int),
{
    let mut i: usize = pos;
    while i < s.len() && 48 <= s[i] && s[i] <= 57
        invariant
            pos <= i <= s@.len(),
            digits_end(s@, i as int) == digits_end(s@, pos as int),
        decreases s@.len() - i,
    {
        i = i + 1;
    }
    i
}

fn word_end_exec(s: &[u8], pos: usize) -> (r: usize)
    requires
        pos <= s@.len(),
    ensures
        r == word_end(s@, pos as int),
{
    let mut i: usize = pos;
    while i < s.len() && (is_alpha_exec(s[i]) || (48 <= s[i] && s[i] <= 57) || s[i] == 95)
        invariant
            pos <= i <= s@.len(),
            word_end(s@, i as int) == word_end(s@, pos as int),
        decreases s@.len() - i,
    {
        i = i + 1;
    }
    i
}

fn line_end_exec(s: &[u8], pos: usize) -> (r: usize)
    requires
        pos <= s@.len(),
    ensures
        r == line_end(s@, pos as int),
{
    let mut i: usize = pos;
    while i < s.len() && s[i] != 10
        invariant
            pos <= i <= s@.len(),
            line_end(s@, i as int) == line_end(s@, pos as int),
        decreases s@.len() - i,
    {
        i = i + 1;
    }
    i
}

fn is_alpha_exec(b: u8) -> (r: bool)
    ensures
        r == is_alpha(b),
{
    (65 <= b && b <= 90) || (97 <= b && b <= 122)
}

fn symbol_kind_exec(b: u8) -> (r: Option<TokenKind>)
    ensures
        r == symbol_kind(b),
{
    if b == 43 {
        Some(TokenKind::Plus)
    } else if b == 45 {
        Some(TokenKind::Minus)
    } else if b == 42 {
        Some(TokenKind::Star)
    } else if b == 47 {
        Some(TokenKind::Slash)
    } else if b == 37 {
        Some(TokenKind::Percent)
    } else if b == 94 {
        Some(TokenKind::Caret)
    } else if b == 40 {
        Some(TokenKind::OpenParen)
    } else if b == 41 {
        Some(TokenKind::CloseParen)
    } else if b == 61 {
        Some(TokenKind::Equals)
    } else if b == 58 {
        Some(TokenKind::Colon)
    } else {
        None
    }
}

fn scan_exec(s: &[u8], pos: usize) -> (r: Option<Token>)
    requires
        pos < s@.len(),
    ensures
        r == scan(s@, pos as int),
{
    let b = s[pos];
    if b == 32 || b == 9 || b == 10 || b == 13 {
        Some(Token { kind: TokenKind::Whitespace, start: pos, end: pos + 1 })
    } else if b == 35 {
        Some(Token { kind: TokenKind::Comment, start: pos, end: line_end_exec(s, pos) })
    } else if 48 <= b && b <= 57 {
        let d = digits_end_exec(s, pos);
        proof {
            lemma_ends(s@, pos as int);
        }
        if d < s.len() && d + 1 < s.len() && s[d] == 46 && 48 <= s[d + 1] && s[d + 1] <= 57 {
            Some(Token { kind: TokenKind::Float, start: pos, end: digits_end_exec(s, d + 1) })
        } else {
            Some(Token { kind: TokenKind::Integer, start: pos, end: d })
        }
    } else if is_alpha_exec(b) {
        Some(Token { kind: TokenKind::Identifier, start: pos, end: word_end_exec(s, pos) })
    } else {
        match symbol_kind_exec(b) {
            Some(k) => Some(Token { kind: k, start: pos, end: pos + 1 }),
            None => None,
        }
    }
}

/// Splits `s` into tokens, keeping whitespace and comments where `keep_trivia`
/// holds; fails at the first byte that starts no token.
pub fn tokenize(s: &[u8], keep_trivia: bool) -> (r: Result<Vec<Token>, ParseError>)
    ensures
        match r {
            Ok(v) => tokens(s@, keep_trivia) == Ok::<Seq<Token>, ParseError>(v@),
            Err(e) => tokens(s@, keep_trivia) == Err::<Seq<Token>, ParseError>(e),
        },
{
    let mut out: Vec<Token> = Vec::new();
    let mut pos: usize = 0;
    while pos < s.len()
        invariant
            pos <= s@.len(),
            match tokens_from(s@, pos as int, keep_trivia) {
                Ok(rest) => tokens(s@, keep_trivia) == Ok::<Seq<Token>, ParseError>(out@ + rest),
                Err(e) => tokens(s@, keep_trivia) == Err::<Seq<Token>, ParseError>(e),
            },
        decreases s@.len() - pos,
    {
        proof {
            lemma_scan_advances(s@, pos as int);
        }
        match scan_exec(s, pos) {
            None => {
                return Err(ParseError { offset: pos, expected: Expectation::Token });
            },
            Some(t) => {
                if keep_trivia || !t.kind.is_trivia() {
                    proof {
                        let rest = tokens_from(s@, t.end as int, keep_trivia);
                        if rest is Ok {
                            assert(out@.push(t) + rest->Ok_0 =~= out@ + (seq![t] + rest->Ok_0));
                        }
                    }
                    out.push(t);
                }
                pos = t.end;
            },
        }
    }
    proof {
        assert(out@ + Seq::<Token>::empty() =~= out@);
    }
    Ok(out)
}

} // verus!
