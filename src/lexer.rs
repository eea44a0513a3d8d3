use vstd::prelude::*;
use crate::lex_error::{LexerError, LexerErrorMessage};
use crate::number::{decimal_of, is_digit, Number};
use crate::token::{keyword_of, LiteralView, Token, TokenLiteral, TokenType, TokenView};

verus! {

pub open spec fn is_alpha(c: char) -> bool {
    ('a' <= c && c <= 'z') || ('A' <= c && c <= 'Z') || c == '_'
}

pub open spec fn is_alphanumeric(c: char) -> bool {
    is_digit(c) || is_alpha(c)
}

/// End of the run of digits that starts at `i`.
pub open spec fn digits_end(s: Seq<char>, i: int) -> int
    decreases s.len() - i,
{
    if 0 <= i < s.len() && is_digit(s[i]) {
        digits_end(s, i + 1)
    } else {
        i
    }
}

/// End of the run of letters, digits and underscores that starts at `i`.
pub open spec fn word_end(s: Seq<char>, i: int) -> int
    decreases s.len() - i,
{
    if 0 <= i < s.len() && is_alphanumeric(s[i]) {
        word_end(s, i + 1)
    } else {
        i
    }
}

/// Start of the next line (the position of the newline) or the end of input.
pub open spec fn line_end(s: Seq<char>, i: int) -> int
    decreases s.len() - i,
{
    if 0 <= i < s.len() && s[i] != '\n' {
        line_end(s, i + 1)
    } else {
        i
    }
}

/// Position of the closing quote of a string body that starts at `i` (or the end of input),
/// and the line reached there.
pub open spec fn string_end(s: Seq<char>, i: int, line: int) -> (int, int)
    decreases s.len() - i,
{
    if 0 <= i < s.len() && s[i] != '"' {
        string_end(s, i + 1, if s[i] == '\n' { line + 1 } else { line })
    } else {
        (i, line)
    }
}

/// The outcome of scanning from one position: where scanning resumes, the line there, and the
/// token or error produced, if any.
pub struct ScanStep {
    pub next: int,
    pub line: int,
    pub token: Option<TokenView>,
    pub error: Option<LexerError>,
}

pub open spec fn plain(t: TokenType, s: Seq<char>, p: int, len: int, line: int) -> ScanStep {
    ScanStep {
        next: p + len,
        line,
        token: Some(
            TokenView {
                token_type: t,
                lexeme: s.subrange(p, p + len),
                literal: LiteralView::Nothing,
                line: line as nat,
            },
        ),
        error: None,
    }
}

pub open spec fn skip(p: int, line: int) -> ScanStep {
    ScanStep { next: p, line, token: None, error: None }
}

/// One of the two tokens `one` and `two`, as the next character is `=` or not.
pub open spec fn with_equal(
    t1: TokenType,
    t2: TokenType,
    s: Seq<char>,
    p: int,
    line: int,
) -> ScanStep {
    if p + 1 < s.len() && s[p + 1] == '=' {
        plain(t2, s, p, 2, line)
    } else {
        plain(t1, s, p, 1, line)
    }
}

pub open spec fn number_step(s: Seq<char>, p: int, line: int) -> ScanStep {
    let e1 = digits_end(s, p);
    let has_frac = e1 + 1 < s.len() && s[e1] == '.' && is_digit(s[e1 + 1]);
    let e2 = if has_frac { digits_end(s, e1 + 1) } else { e1 };
    let fp = if has_frac { s.subrange(e1 + 1, e2) } else { Seq::empty() };
    ScanStep {
        next: e2,
        line,
        token: Some(
            TokenView {
                token_type: TokenType::Number,
                lexeme: s.subrange(p, e2),
                literal: LiteralView::Number(decimal_of(s.subrange(p, e1), fp)),
                line: line as nat,
            },
        ),
        error: None,
    }
}

pub open spec fn word_step(s: Seq<char>, p: int, line: int) -> ScanStep {
    let e = word_end(s, p);
    let w = s.subrange(p, e);
    ScanStep {
        next: e,
        line,
        token: Some(
            TokenView {
                token_type: match keyword_of(w) {
                    Some(k) => k,
                    None => TokenType::Identifier,
                },
                lexeme: w,
                literal: LiteralView::Nothing,
                line: line as nat,
            },
        ),
        error: None,
    }
}

pub open spec fn string_step(s: Seq<char>, p: int, line: int) -> ScanStep {
    let (q, l) = string_end(s, p + 1, line);
    if q >= s.len() {
        ScanStep {
            next: q,
            line: l,
            token: None,
            error: Some(
                LexerError { line: l as usize, message: LexerErrorMessage::UnterminatedString },
            ),
        }
    } else {
        ScanStep {
            next: q + 1,
            line: l,
            token: Some(
                TokenView {
                    token_type: TokenType::String,
                    lexeme: s.subrange(p, q + 1),
                    literal: LiteralView::String(s.subrange(p + 1, q)),
                    line: l as nat,
                },
            ),
            error: None,
        }
    }
}

/// Scanning at position `p` (with `p < s.len()`), by maximal munch.
pub open spec fn scan_step(s: Seq<char>, p: int, line: int) -> ScanStep {
    let c = s[p];
    if c == '(' {
        plain(TokenType::LeftParen, s, p, 1, line)
    } else if c == ')' {
        plain(TokenType::RightParen, s, p, 1, line)
    } else if c == '{' {
        plain(TokenType::LeftBrace, s, p, 1, line)
    } else if c == '}' {
        plain(TokenType::RightBrace, s, p, 1, line)
    } else if c == ',' {
        plain(TokenType::Comma, s, p, 1, line)
    } else if c == '.' {
        plain(TokenType::Dot, s, p, 1, line)
    } else if c == '-' {
        plain(TokenType::Minus, s, p, 1, line)
    } else if c == '+' {
        plain(TokenType::Plus, s, p, 1, line)
    } else if c == ';' {
        plain(TokenType::Semicolon, s, p, 1, line)
    } else if c == '*' {
        plain(TokenType::Star, s, p, 1, line)
    } else if c == '!' {
        with_equal(TokenType::Bang, TokenType::BangEqual, s, p, line)
    } else if c == '=' {
        with_equal(TokenType::Equal, TokenType::EqualEqual, s, p, line)
    } else if c == '<' {
        with_equal(TokenType::Less, TokenType::LessEqual, s, p, line)
    } else if c == '>' {
        with_equal(TokenType::Greater, TokenType::GreaterEqual, s, p, line)
    } else if c == '/' {
        if p + 1 < s.len() && s[p + 1] == '/' {
            skip(line_end(s, p + 2), line)
        } else {
            plain(TokenType::Slash, s, p, 1, line)
        }
    } else if c == ' ' || c == '\r' || c == '\t' {
        skip(p + 1, line)
    } else if c == '\n' {
        skip(p + 1, line + 1)
    } else if c == '"' {
        string_step(s, p, line)
    } else if is_digit(c) {
        number_step(s, p, line)
    } else if is_alpha(c) {
        word_step(s, p, line)
    } else {
        ScanStep {
            next: p + 1,
            line,
            token: None,
            error: Some(LexerError { line: line as usize, message: LexerErrorMessage::UnexpectedCharacter }),
        }
    }
}

pub open spec fn opt_seq<A>(o: Option<A>) -> Seq<A> {
    match o {
        Some(a) => seq![a],
        None => Seq::empty(),
    }
}

/// The tokens and errors of scanning `s` from position `p` at line `line`, ending with the
/// end-of-input token.
pub open spec fn scan_from(s: Seq<char>, p: int, line: int) -> (Seq<TokenView>, Seq<LexerError>)
    decreases s.len() - p,
{
    if p < 0 || p >= s.len() {
        (
            seq![
                TokenView {
                    token_type: TokenType::Eof,
                    lexeme: Seq::empty(),
                    literal: LiteralView::Nothing,
                    line: line as nat,
                },
            ],
            Seq::empty(),
        )
    } else {
        let st = scan_step(s, p, line);
        if st.next <= p || st.next > s.len() {
            (Seq::empty(), Seq::empty())
        } else {
            let rest = scan_from(s, st.next, st.line);
            (opt_seq(st.token) + rest.0, opt_seq(st.error) + rest.1)
        }
    }
}

/// The tokens and errors of scanning the whole source text.
pub open spec fn scan(s: Seq<char>) -> (Seq<TokenView>, Seq<LexerError>) {
    scan_from(s, 0, 1)
}

proof fn lemma_digits_end(s: Seq<char>, i: int)
    requires
        0 <= i <= s.len(),
    ensures
        i <= digits_end(s, i) <= s.len(),
        forall|k: int| i <= k < digits_end(s, i) ==> is_digit(#[trigger] s[k]),
    decreases s.len() - i,
{
    if i < s.len() && is_digit(s[i]) {
        lemma_digits_end(s, i + 1);
    }
}

proof fn lemma_word_end(s: Seq<char>, i: int)
    requires
        0 <= i <= s.len(),
    ensures
        i <= word_end(s, i) <= s.len(),
    decreases s.len() - i,
{
    if i < s.len() && is_alphanumeric(s[i]) {
        lemma_word_end(s, i + 1);
    }
}

proof fn lemma_line_end(s: Seq<char>, i: int)
    requires
        0 <= i <= s.len(),
    ensures
        i <= line_end(s, i) <= s.len(),
    decreases s.len() - i,
{
    if i < s.len() && s[i] != '\n' {
        lemma_line_end(s, i + 1);
    }
}

proof fn lemma_string_end(s: Seq<char>, i: int, line: int)
    requires
        0 <= i <= s.len(),
    ensures
        i <= string_end(s, i, line).0 <= s.len(),
        line <= string_end(s, i, line).1 <= line + (string_end(s, i, line).0 - i),
    decreases s.len() - i,
{
    if i < s.len() && s[i] != '"' {
        lemma_string_end(s, i + 1, if s[i] == '\n' { line + 1 } else { line });
    }
}

fn scan_digits(s: &Vec<char>, i: usize) -> (r: usize)
    requires
        i <= s@.len(),
    ensures
        r == digits_end(s@, i as int),
{
    let mut j = i;
    while j < s.len() && is_digit_char(s[j])
        invariant
            i <= j <= s@.len(),
            digits_end(s@, j as int) == digits_end(s@, i as int),
        decreases s@.len() - j,
    {
        j = j + 1;
    }
    j
}

fn scan_word(s: &Vec<char>, i: usize) -> (r: usize)
    requires
        i <= s@.len(),
    ensures
        r == word_end(s@, i as int),
{
    let mut j = i;
    while j < s.len() && is_alphanumeric_char(s[j])
        invariant
            i <= j <= s@.len(),
            word_end(s@, j as int) == word_end(s@, i as int),
        decreases s@.len() - j,
    {
        j = j + 1;
    }
    j
}

fn scan_line(s: &Vec<char>, i: usize) -> (r: usize)
    requires
        i <= s@.len(),
    ensures
        r == line_end(s@, i as int),
{
    let mut j = i;
    while j < s.len() && s[j] != '\n'
        invariant
            i <= j <= s@.len(),
            line_end(s@, j as int) == line_end(s@, i as int),
        decreases s@.len() - j,
    {
        j = j + 1;
    }
    j
}

fn scan_string(s: &Vec<char>, i: usize, line: usize) -> (r: (usize, usize))
    requires
        i <= s@.len(),
        line <= i,
        s@.len() < usize::MAX,
    ensures
        (r.0 as int, r.1 as int) == string_end(s@, i as int, line as int),
{
    let mut j = i;
    let mut l = line;
    proof {
        lemma_string_end(s@, i as int, line as int);
    }
    while j < s.len() && s[j] != '"'
        invariant
            i <= j <= s@.len(),
            line <= l <= line + (j - i),
            line <= i,
            s@.len() < usize::MAX,
            string_end(s@, j as int, l as int) == string_end(s@, i as int, line as int),
        decreases s@.len() - j,
    {
        if s[j] == '\n' {
            l = l + 1;
        }
        j = j + 1;
    }
    (j, l)
}

pub fn is_digit_char(c: char) -> (r: bool)
    ensures
        r == is_digit(c),
{
    '0' <= c && c <= '9'
}

pub fn is_alpha_char(c: char) -> (r: bool)
    ensures
        r == is_alpha(c),
{
    ('a' <= c && c <= 'z') || ('A' <= c && c <= 'Z') || c == '_'
}

pub fn is_alphanumeric_char(c: char) -> (r: bool)
    ensures
        r == is_alphanumeric(c),
{
    is_digit_char(c) || is_alpha_char(c)
}

fn copy_range(s: &Vec<char>, a: usize, b: usize) -> (r: Vec<char>)
    requires
        a <= b <= s@.len(),
    ensures
        r@ == s@.subrange(a as int, b as int),
{
    let mut r: Vec<char> = Vec::new();
    let mut i = a;
    while i < b
        invariant
            a <= i <= b <= s@.len(),
            r@ == s@.subrange(a as int, i as int),
        decreases b - i,
    {
        r.push(s[i]);
        i = i + 1;
        assert(r@ =~= s@.subrange(a as int, i as int));
    }
    r
}

pub open spec fn token_opt_view(o: Option<Token>) -> Option<TokenView> {
    match o {
        Some(t) => Some(t@),
        None => None,
    }
}

fn plain_token(t: TokenType, s: &Vec<char>, p: usize, len: usize, line: usize) -> (r: (
    usize,
    usize,
    Option<Token>,
    Option<LexerError>,
))
    requires
        p + len <= s@.len(),
        s@.len() < usize::MAX,
    ensures
        r.0 == plain(t, s@, p as int, len as int, line as int).next,
        r.1 == plain(t, s@, p as int, len as int, line as int).line,
        token_opt_view(r.2) == plain(t, s@, p as int, len as int, line as int).token,
        r.3 == plain(t, s@, p as int, len as int, line as int).error,
{
    let lexeme = copy_range(s, p, p + len);
    (p + len, line, Some(Token { token_type: t, lexeme, literal: TokenLiteral::Nothing, line }), None)
}

fn equal_token(t1: TokenType, t2: TokenType, s: &Vec<char>, p: usize, line: usize) -> (r: (
    usize,
    usize,
    Option<Token>,
    Option<LexerError>,
))
    requires
        p < s@.len(),
        s@.len() < usize::MAX,
    ensures
        r.0 == with_equal(t1, t2, s@, p as int, line as int).next,
        r.1 == with_equal(t1, t2, s@, p as int, line as int).line,
        token_opt_view(r.2) == with_equal(t1, t2, s@, p as int, line as int).token,
        r.3 == with_equal(t1, t2, s@, p as int, line as int).error,
{
    if p + 1 < s.len() && s[p + 1] == '=' {
        plain_token(t2, s, p, 2, line)
    } else {
        plain_token(t1, s, p, 1, line)
    }
}

/// Scans one token (or comment, blank, or error) at position `p`.
fn scan_token(s: &Vec<char>, p: usize, line: usize) -> (r: (
    usize,
    usize,
    Option<Token>,
    Option<LexerError>,
))
    requires
        p < s@.len(),
        line <= p + 1,
        s@.len() < usize::MAX,
    ensures
        r.0 == scan_step(s@, p as int, line as int).next,
        r.1 == scan_step(s@, p as int, line as int).line,
        token_opt_view(r.2) == scan_step(s@, p as int, line as int).token,
        r.3 == scan_step(s@, p as int, line as int).error,
        p < r.0 <= s@.len(),
        line <= r.1 <= r.0 + 1,
{
    let c = s[p];
    if c == '(' {
        plain_token(TokenType::LeftParen, s, p, 1, line)
    } else if c == ')' {
        plain_token(TokenType::RightParen, s, p, 1, line)
    } else if c == '{' {
        plain_token(TokenType::LeftBrace, s, p, 1, line)
    } else if c == '}' {
        plain_token(TokenType::RightBrace, s, p, 1, line)
    } else if c == ',' {
        plain_token(TokenType::Comma, s, p, 1, line)
    } else if c == '.' {
        plain_token(TokenType::Dot, s, p, 1, line)
    } else if c == '-' {
        plain_token(TokenType::Minus, s, p, 1, line)
    } else if c == '+' {
        plain_token(TokenType::Plus, s, p, 1, line)
    } else if c == ';' {
        plain_token(TokenType::Semicolon, s, p, 1, line)
    } else if c == '*' {
        plain_token(TokenType::Star, s, p, 1, line)
    } else if c == '!' {
        equal_token(TokenType::Bang, TokenType::BangEqual, s, p, line)
    } else if c == '=' {
        equal_token(TokenType::Equal, TokenType::EqualEqual, s, p, line)
    } else if c == '<' {
        equal_token(TokenType::Less, TokenType::LessEqual, s, p, line)
    } else if c == '>' {
        equal_token(TokenType::Greater, TokenType::GreaterEqual, s, p, line)
    } else if c == '/' {
        if p + 1 < s.len() && s[p + 1] == '/' {
            proof {
                lemma_line_end(s@, p + 2);
            }
            (scan_line(s, p + 2), line, None, None)
        } else {
            plain_token(TokenType::Slash, s, p, 1, line)
        }
    } else if c == ' ' || c == '\r' || c == '\t' {
        (p + 1, line, None, None)
    } else if c == '\n' {
        (p + 1, line + 1, None, None)
    } else if c == '"' {
        proof {
            lemma_string_end(s@, p + 1, line as int);
        }
        let (q, l) = scan_string(s, p + 1, line);
        if q >= s.len() {
            (q, l, None, Some(LexerError { line: l, message: LexerErrorMessage::UnterminatedString }))
        } else {
            let lexeme = copy_range(s, p, q + 1);
            let text = copy_range(s, p + 1, q);
            (
                q + 1,
                l,
                Some(
                    Token {
                        token_type: TokenType::String,
                        lexeme,
                        literal: TokenLiteral::String(text),
                        line: l,
                    },
                ),
                None,
            )
        }
    } else if is_digit_char(c) {
        proof {
            lemma_digits_end(s@, p as int);
            lemma_digits_end(s@, p + 1);
        }
        let e1 = scan_digits(s, p);
        let has_frac = e1 + 1 < s.len() && s[e1] == '.' && is_digit_char(s[e1 + 1]);
        let e2 = if has_frac {
            proof {
                lemma_digits_end(s@, e1 + 1);
            }
            scan_digits(s, e1 + 1)
        } else {
            e1
        };
        let flo = if has_frac { e1 + 1 } else { e2 };
        let value = Number::parse_decimal(s, p, e1, flo, e2);
        proof {
            if !has_frac {
                assert(s@.subrange(flo as int, e2 as int) =~= Seq::<char>::empty());
            }
        }
        let lexeme = copy_range(s, p, e2);
        (
            e2,
            line,
            Some(
                Token {
                    token_type: TokenType::Number,
                    lexeme,
                    literal: TokenLiteral::Number(value),
                    line,
                },
            ),
            None,
        )
    } else if is_alpha_char(c) {
        proof {
            lemma_word_end(s@, p as int);
            lemma_word_end(s@, p + 1);
        }
        let e = scan_word(s, p);
        let lexeme = copy_range(s, p, e);
        let token_type = match TokenType::from_keyword(&lexeme) {
            Some(k) => k,
            None => TokenType::Identifier,
        };
        (e, line, Some(Token { token_type, lexeme, literal: TokenLiteral::Nothing, line }), None)
    } else {
        (p + 1, line, None, Some(LexerError { line, message: LexerErrorMessage::UnexpectedCharacter }))
    }
}

pub open spec fn token_views(ts: Seq<Token>) -> Seq<TokenView> {
    ts.map_values(|t: Token| t@)
}

/// Turns source text into tokens.
pub struct Lexer {
    pub source: Vec<char>,
}

impl Lexer {
    pub fn new(source: Vec<char>) -> (r: Lexer)
        ensures
            r.source@ == source@,
    {
        Lexer { source }
    }

    /// Scans the whole source: every token, ending with the end-of-input token, and every
    /// lexical error, in order. Scanning never stops at an error.
    pub fn scan_tokens(&self) -> (r: (Vec<Token>, Vec<LexerError>))
        requires
            self.source@.len() < usize::MAX,
        ensures
            token_views(r.0@) == scan(self.source@).0,
            r.1@ == scan(self.source@).1,
    {
        let s = &self.source;
        let mut tokens: Vec<Token> = Vec::new();
        let mut errors: Vec<LexerError> = Vec::new();
        let mut p: usize = 0;
        let mut line: usize = 1;
        assert(token_views(tokens@) =~= Seq::<TokenView>::empty());
        assert(scan(s@).0 =~= Seq::<TokenView>::empty() + scan_from(s@, 0, 1).0);
        assert(scan(s@).1 =~= errors@ + scan_from(s@, 0, 1).1);
        while p < s.len()
            invariant
                p <= s@.len() < usize::MAX,
                1 <= line <= p + 1,
                scan(s@).0 == token_views(tokens@) + scan_from(s@, p as int, line as int).0,
                scan(s@).1 == errors@ + scan_from(s@, p as int, line as int).1,
            decreases s@.len() - p,
        {
            let (next, nline, tok, err) = scan_token(s, p, line);
            let ghost old_tokens = tokens@;
            let ghost old_errors = errors@;
            let ghost rest = scan_from(s@, next as int, nline as int);
            match tok {
                Some(t) => {
                    tokens.push(t);
                },
                None => {},
            }
            match err {
                Some(e) => {
                    errors.push(e);
                },
                None => {},
            }
            proof {
                let st = scan_step(s@, p as int, line as int);
                assert(scan_from(s@, p as int, line as int) == (opt_seq(st.token) + rest.0, opt_seq(
                    st.error,
                ) + rest.1));
                assert(token_views(tokens@) =~= token_views(old_tokens) + opt_seq(st.token));
                assert(errors@ =~= old_errors + opt_seq(st.error));
                assert(scan(s@).0 =~= token_views(tokens@) + rest.0);
                assert(scan(s@).1 =~= errors@ + rest.1);
            }
            p = next;
            line = nline;
        }
        let ghost before = tokens@;
        tokens.push(
            Token {
                token_type: TokenType::Eof,
                lexeme: Vec::new(),
                literal: TokenLiteral::Nothing,
                line,
            },
        );
        proof {
            assert(token_views(tokens@) =~= token_views(before) + scan_from(
                s@,
                p as int,
                line as int,
            ).0);
            assert(errors@ =~= errors@ + scan_from(s@, p as int, line as int).1);
        }
        (tokens, errors)
    }
}

proof fn lemma_scan_step_advances(s: Seq<char>, p: int, line: int)
    requires
        0 <= p < s.len(),
    ensures
        p < scan_step(s, p, line).next <= s.len(),
{
    lemma_digits_end(s, p);
    lemma_digits_end(s, p + 1);
    lemma_word_end(s, p);
    lemma_word_end(s, p + 1);
    lemma_string_end(s, p + 1, line);
    if p + 2 <= s.len() {
        lemma_line_end(s, p + 2);
    }
    let e1 = digits_end(s, p);
    if e1 + 1 < s.len() {
        lemma_digits_end(s, e1 + 1);
    }
}

/// Scanning always ends with the end-of-input token.
pub proof fn lemma_scan_ends_with_eof(s: Seq<char>, p: int, line: int)
    requires
        0 <= p <= s.len(),
    ensures
        scan_from(s, p, line).0.len() > 0,
        scan_from(s, p, line).0.last().token_type == TokenType::Eof,
    decreases s.len() - p,
{
    if p < s.len() {
        lemma_scan_step_advances(s, p, line);
        let st = scan_step(s, p, line);
        lemma_scan_ends_with_eof(s, st.next, st.line);
    }
}

} // verus!
