use vstd::prelude::*;
use crate::number::Number;

verus! {

/// The kind of a lexical token.
#[derive(Clone, Copy, Debug, PartialEq, Eq, Structural)]
pub enum TokenType {
    // Single-character tokens.
    LeftParen,
    RightParen,
    LeftBrace,
    RightBrace,
    Comma,
    Dot,
    Minus,
    Plus,
    Semicolon,
    Slash,
    Star,
    // One or two character tokens.
    Bang,
    BangEqual,
    Equal,
    EqualEqual,
    Greater,
    GreaterEqual,
    Less,
    LessEqual,
    // Literals.
    Identifier,
    String,
    Number,
    // Keywords.
    And,
    Class,
    Else,
    False,
    Fun,
    For,
    If,
    Nil,
    Or,
    Print,
    Return,
    Super,
    This,
    True,
    Var,
    While,
    // End of input.
    Eof,
}

/// The keyword table: the token type of a reserved word, if `w` is one.
pub open spec fn keyword_of(w: Seq<char>) -> Option<TokenType> {
    if w == seq!['a', 'n', 'd'] {
        Some(TokenType::And)
    } else if w == seq!['o', 'r'] {
        Some(TokenType::Or)
    } else if w == seq!['c', 'l', 'a', 's', 's'] {
        Some(TokenType::Class)
    } else if w == seq!['i', 'f'] {
        Some(TokenType::If)
    } else if w == seq!['e', 'l', 's', 'e'] {
        Some(TokenType::Else)
    } else if w == seq!['n', 'i', 'l'] {
        Some(TokenType::Nil)
    } else if w == seq!['p', 'r', 'i', 'n', 't'] {
        Some(TokenType::Print)
    } else if w == seq!['r', 'e', 't', 'u', 'r', 'n'] {
        Some(TokenType::Return)
    } else if w == seq!['s', 'u', 'p', 'e', 'r'] {
        Some(TokenType::Super)
    } else if w == seq!['t', 'h', 'i', 's'] {
        Some(TokenType::This)
    } else if w == seq!['t', 'r', 'u', 'e'] {
        Some(TokenType::True)
    } else if w == seq!['f', 'a', 'l', 's', 'e'] {
        Some(TokenType::False)
    } else if w == seq!['v', 'a', 'r'] {
        Some(TokenType::Var)
    } else if w == seq!['f', 'u', 'n'] {
        Some(TokenType::Fun)
    } else if w == seq!['f', 'o', 'r'] {
        Some(TokenType::For)
    } else if w == seq!['w', 'h', 'i', 'l', 'e'] {
        Some(TokenType::While)
    } else {
        None
    }
}

/// Whether the characters `w` spell out exactly `lit`.
fn chars_are(w: &Vec<char>, lit: &[char]) -> (r: bool)
    ensures
        r == (w@ == lit@),
{
    if w.len() != lit.len() {
        return false;
    }
    let mut i: usize = 0;
    while i < w.len()
        invariant
            w@.len() == lit@.len(),
            i <= w@.len(),
            forall|j: int| 0 <= j < i ==> w@[j] == lit@[j],
        decreases w@.len() - i,
    {
        if w[i] != lit[i] {
            return false;
        }
        i = i + 1;
    }
    assert(w@ =~= lit@);
    true
}

impl TokenType {
    /// The keyword whose spelling is `word`, if any.
    pub fn from_keyword(word: &Vec<char>) -> (r: Option<TokenType>)
        ensures
            r == keyword_of(word@),
    {
        proof {
            assert(['a', 'n', 'd']@ =~= seq!['a', 'n', 'd']);
            assert(['o', 'r']@ =~= seq!['o', 'r']);
            assert(['c', 'l', 'a', 's', 's']@ =~= seq!['c', 'l', 'a', 's', 's']);
            assert(['i', 'f']@ =~= seq!['i', 'f']);
            assert(['e', 'l', 's', 'e']@ =~= seq!['e', 'l', 's', 'e']);
            assert(['n', 'i', 'l']@ =~= seq!['n', 'i', 'l']);
            assert(['p', 'r', 'i', 'n', 't']@ =~= seq!['p', 'r', 'i', 'n', 't']);
            assert(['r', 'e', 't', 'u', 'r', 'n']@ =~= seq!['r', 'e', 't', 'u', 'r', 'n']);
            assert(['s', 'u', 'p', 'e', 'r']@ =~= seq!['s', 'u', 'p', 'e', 'r']);
            assert(['t', 'h', 'i', 's']@ =~= seq!['t', 'h', 'i', 's']);
            assert(['t', 'r', 'u', 'e']@ =~= seq!['t', 'r', 'u', 'e']);
            assert(['f', 'a', 'l', 's', 'e']@ =~= seq!['f', 'a', 'l', 's', 'e']);
            assert(['v', 'a', 'r']@ =~= seq!['v', 'a', 'r']);
            assert(['f', 'u', 'n']@ =~= seq!['f', 'u', 'n']);
            assert(['f', 'o', 'r']@ =~= seq!['f', 'o', 'r']);
            assert(['w', 'h', 'i', 'l', 'e']@ =~= seq!['w', 'h', 'i', 'l', 'e']);
        }
        if chars_are(word, &['a', 'n', 'd']) {
            Some(TokenType::And)
        } else if chars_are(word, &['o', 'r']) {
            Some(TokenType::Or)
        } else if chars_are(word, &['c', 'l', 'a', 's', 's']) {
            Some(TokenType::Class)
        } else if chars_are(word, &['i', 'f']) {
            Some(TokenType::If)
        } else if chars_are(word, &['e', 'l', 's', 'e']) {
            Some(TokenType::Else)
        } else if chars_are(word, &['n', 'i', 'l']) {
            Some(TokenType::Nil)
        } else if chars_are(word, &['p', 'r', 'i', 'n', 't']) {
            Some(TokenType::Print)
        } else if chars_are(word, &['r', 'e', 't', 'u', 'r', 'n']) {
            Some(TokenType::Return)
        } else if chars_are(word, &['s', 'u', 'p', 'e', 'r']) {
            Some(TokenType::Super)
        } else if chars_are(word, &['t', 'h', 'i', 's']) {
            Some(TokenType::This)
        } else if chars_are(word, &['t', 'r', 'u', 'e']) {
            Some(TokenType::True)
        } else if chars_are(word, &['f', 'a', 'l', 's', 'e']) {
            Some(TokenType::False)
        } else if chars_are(word, &['v', 'a', 'r']) {
            Some(TokenType::Var)
        } else if chars_are(word, &['f', 'u', 'n']) {
            Some(TokenType::Fun)
        } else if chars_are(word, &['f', 'o', 'r']) {
            Some(TokenType::For)
        } else if chars_are(word, &['w', 'h', 'i', 'l', 'e']) {
            Some(TokenType::While)
        } else {
            None
        }
    }
}

/// The payload that a literal token carries.
#[derive(Debug)]
pub enum TokenLiteral {
    Nothing,
    String(Vec<char>),
    Number(Number),
}

/// What a token's payload denotes.
pub enum LiteralView {
    Nothing,
    String(Seq<char>),
    Number(Number),
}

impl View for TokenLiteral {
    type V = LiteralView;

    open spec fn view(&self) -> LiteralView {
        match self {
            TokenLiteral::Nothing => LiteralView::Nothing,
            TokenLiteral::String(t) => LiteralView::String(t@),
            TokenLiteral::Number(n) => LiteralView::Number(*n),
        }
    }
}

impl TokenLiteral {
    pub fn duplicate(&self) -> (r: TokenLiteral)
        ensures
            r@ == self@,
    {
        match self {
            TokenLiteral::Nothing => TokenLiteral::Nothing,
            TokenLiteral::String(t) => TokenLiteral::String(t.clone()),
            TokenLiteral::Number(n) => TokenLiteral::Number(*n),
        }
    }
}

/// A classified lexeme with its payload and the line (counting from 1) where it ends.
#[derive(Debug)]
pub struct Token {
    pub token_type: TokenType,
    pub lexeme: Vec<char>,
    pub literal: TokenLiteral,
    pub line: usize,
}

pub struct TokenView {
    pub token_type: TokenType,
    pub lexeme: Seq<char>,
    pub literal: LiteralView,
    pub line: nat,
}

impl View for Token {
    type V = TokenView;

    open spec fn view(&self) -> TokenView {
        TokenView {
            token_type: self.token_type,
            lexeme: self.lexeme@,
            literal: self.literal@,
            line: self.line as nat,
        }
    }
}

impl Token {
    pub fn new(token_type: TokenType, lexeme: Vec<char>, literal: TokenLiteral, line: usize) -> (r:
        Token)
        ensures
            r.token_type == token_type,
            r.lexeme@ == lexeme@,
            r.literal@ == literal@,
            r.line == line,
    {
        Token { token_type, lexeme, literal, line }
    }

    pub fn duplicate(&self) -> (r: Token)
        ensures
            r@ == self@,
    {
        Token {
            token_type: self.token_type,
            lexeme: self.lexeme.clone(),
            literal: self.literal.duplicate(),
            line: self.line,
        }
    }
}

} // verus!
