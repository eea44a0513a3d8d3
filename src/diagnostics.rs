use vstd::prelude::*;
use vstd::string::StrSliceExecFns;
use crate::lex_error::{LexerError, LexerErrorMessage};
use crate::number::{dec_digits, push_digits};
use crate::parse_error::{ExpectAfter, ParseError, ParseErrorMessage};
use crate::runtime_error::{MessageView, RuntimeError, RuntimeErrorMessage};
use crate::token::{TokenType, TokenView};

verus! {

/// Appends the characters of `s`.
pub fn push_str(out: &mut Vec<char>, s: &str)
    ensures
        final(out)@ == old(out)@ + s@,
{
    let n = s.unicode_len();
    let mut i: usize = 0;
    while i < n
        invariant
            n == s@.len(),
            i <= n,
            out@ == old(out)@ + s@.subrange(0, i as int),
        decreases n - i,
    {
        out.push(s.get_char(i));
        i = i + 1;
        assert(out@ =~= old(out)@ + s@.subrange(0, i as int));
    }
    assert(s@.subrange(0, n as int) =~= s@);
}

/// The canonical diagnostic line: `[line <line>] Error<location>: <message>`.
pub open spec fn diagnostic_text(line: nat, location: Seq<char>, message: Seq<char>) -> Seq<char> {
    "[line "@ + dec_digits(line) + "] Error"@ + location + ": "@ + message
}

/// Renders one diagnostic.
pub fn report_error(line: usize, location: &Vec<char>, message: &Vec<char>) -> (r: Vec<char>)
    ensures
        r@ == diagnostic_text(line as nat, location@, message@),
{
    let mut out: Vec<char> = Vec::new();
    push_str(&mut out, "[line ");
    push_digits(line as u64, &mut out);
    push_str(&mut out, "] Error");
    let mut i: usize = 0;
    let ghost base = out@;
    while i < location.len()
        invariant
            i <= location@.len(),
            out@ == base + location@.subrange(0, i as int),
        decreases location@.len() - i,
    {
        out.push(location[i]);
        i = i + 1;
        assert(out@ =~= base + location@.subrange(0, i as int));
    }
    assert(location@.subrange(0, location@.len() as int) =~= location@);
    push_str(&mut out, ": ");
    let mut j: usize = 0;
    let ghost base2 = out@;
    while j < message.len()
        invariant
            j <= message@.len(),
            out@ == base2 + message@.subrange(0, j as int),
        decreases message@.len() - j,
    {
        out.push(message[j]);
        j = j + 1;
        assert(out@ =~= base2 + message@.subrange(0, j as int));
    }
    assert(message@.subrange(0, message@.len() as int) =~= message@);
    assert(out@ =~= diagnostic_text(line as nat, location@, message@));
    out
}

pub open spec fn lexer_message_text(m: LexerErrorMessage) -> Seq<char> {
    match m {
        LexerErrorMessage::UnterminatedString => "Unterminated string."@,
        LexerErrorMessage::UnexpectedCharacter => "Unexpected character."@,
    }
}

pub open spec fn after_text(a: ExpectAfter) -> Seq<char> {
    match a {
        ExpectAfter::While => "'while'"@,
        ExpectAfter::Expression => "expression"@,
        ExpectAfter::If => "'if'"@,
        ExpectAfter::Condition => "condition"@,
        ExpectAfter::For => "'for'"@,
        ExpectAfter::ForClauses => "for clauses"@,
        ExpectAfter::Value => "value"@,
        ExpectAfter::Declaration => "declaration"@,
        ExpectAfter::LoopCondition => "loop condition"@,
    }
}

pub open spec fn parse_message_text(m: ParseErrorMessage) -> Seq<char> {
    match m {
        ParseErrorMessage::ExpectLeftParen(a) => "Expect '(' after "@ + after_text(a) + "."@,
        ParseErrorMessage::ExpectRightParen(a) => "Expect ')' after "@ + after_text(a) + "."@,
        ParseErrorMessage::ExpectExpression => "Expect expression."@,
        ParseErrorMessage::ExpectSemicolon(a) => "Expect ';' after "@ + after_text(a) + "."@,
        ParseErrorMessage::ExpectBraceAfterBlock => "Expect '}' after block."@,
        ParseErrorMessage::ExpectVariableName => "Expect variable name."@,
        ParseErrorMessage::InvalidAssignmentTarget => "Invalid assignment target."@,
    }
}

pub open spec fn runtime_message_text(m: MessageView) -> Seq<char> {
    match m {
        MessageView::OperandMustBeNumber => "Operand must be a number."@,
        MessageView::OperandsMustBeNumbers => "Operands must be numbers."@,
        MessageView::OperandsMustBeNumberOrString => "Operands must be two numbers or two strings"@,
        MessageView::UndefinedVariable(n) => "Undefined variable '"@ + n + "'."@,
    }
}

/// Where a syntax error points: ` at end` for the end of input, else ` at '<lexeme>'`.
pub open spec fn location_text(t: TokenView) -> Seq<char> {
    if t.token_type == TokenType::Eof {
        " at end"@
    } else {
        " at '"@ + t.lexeme + "'"@
    }
}

fn after_str(a: ExpectAfter) -> (r: &'static str)
    ensures
        r@ == after_text(a),
{
    match a {
        ExpectAfter::While => "'while'",
        ExpectAfter::Expression => "expression",
        ExpectAfter::If => "'if'",
        ExpectAfter::Condition => "condition",
        ExpectAfter::For => "'for'",
        ExpectAfter::ForClauses => "for clauses",
        ExpectAfter::Value => "value",
        ExpectAfter::Declaration => "declaration",
        ExpectAfter::LoopCondition => "loop condition",
    }
}

fn push_expect(out: &mut Vec<char>, what: &str, a: ExpectAfter)
    ensures
        final(out)@ == old(out)@ + (what@ + after_text(a) + "."@),
{
    push_str(out, what);
    push_str(out, after_str(a));
    push_str(out, ".");
    assert(final(out)@ =~= old(out)@ + (what@ + after_text(a) + "."@));
}

/// The diagnostic line of a lexical error; it names no location.
pub fn report_lexer_error(error: &LexerError) -> (r: Vec<char>)
    ensures
        r@ == diagnostic_text(error.line as nat, Seq::empty(), lexer_message_text(error.message)),
{
    let mut message: Vec<char> = Vec::new();
    match error.message {
        LexerErrorMessage::UnterminatedString => push_str(&mut message, "Unterminated string."),
        LexerErrorMessage::UnexpectedCharacter => push_str(&mut message, "Unexpected character."),
    }
    assert(message@ =~= lexer_message_text(error.message));
    let location: Vec<char> = Vec::new();
    assert(location@ =~= Seq::<char>::empty());
    report_error(error.line, &location, &message)
}

/// The diagnostic line of a syntax error, located at its token.
pub fn report_parser_error(error: &ParseError) -> (r: Vec<char>)
    ensures
        r@ == diagnostic_text(error.token.line as nat, location_text(error.token@), parse_message_text(error.message)),
{
    let mut message: Vec<char> = Vec::new();
    match error.message {
        ParseErrorMessage::ExpectLeftParen(a) => push_expect(&mut message, "Expect '(' after ", a),
        ParseErrorMessage::ExpectRightParen(a) => push_expect(&mut message, "Expect ')' after ", a),
        ParseErrorMessage::ExpectExpression => push_str(&mut message, "Expect expression."),
        ParseErrorMessage::ExpectSemicolon(a) => push_expect(&mut message, "Expect ';' after ", a),
        ParseErrorMessage::ExpectBraceAfterBlock => push_str(&mut message, "Expect '}' after block."),
        ParseErrorMessage::ExpectVariableName => push_str(&mut message, "Expect variable name."),
        ParseErrorMessage::InvalidAssignmentTarget => push_str(&mut message, "Invalid assignment target."),
    }
    assert(message@ =~= parse_message_text(error.message));
    let mut location: Vec<char> = Vec::new();
    if error.token.token_type == TokenType::Eof {
        push_str(&mut location, " at end");
    } else {
        push_str(&mut location, " at '");
        let mut i: usize = 0;
        let ghost base = location@;
        while i < error.token.lexeme.len()
            invariant
                i <= error.token.lexeme@.len(),
                location@ == base + error.token.lexeme@.subrange(0, i as int),
            decreases error.token.lexeme@.len() - i,
        {
            location.push(error.token.lexeme[i]);
            i = i + 1;
            assert(location@ =~= base + error.token.lexeme@.subrange(0, i as int));
        }
        assert(error.token.lexeme@.subrange(0, error.token.lexeme@.len() as int) =~= error.token.lexeme@);
        push_str(&mut location, "'");
    }
    assert(location@ =~= location_text(error.token@));
    report_error(error.token.line, &location, &message)
}

/// The diagnostic line of a runtime error; it names no location.
pub fn report_runtime_error(error: &RuntimeError) -> (r: Vec<char>)
    ensures
        r@ == diagnostic_text(error.token.line as nat, Seq::empty(), runtime_message_text(error.message@)),
{
    let mut message: Vec<char> = Vec::new();
    match &error.message {
        RuntimeErrorMessage::OperandMustBeNumber => push_str(&mut message, "Operand must be a number."),
        RuntimeErrorMessage::OperandsMustBeNumbers => push_str(&mut message, "Operands must be numbers."),
        RuntimeErrorMessage::OperandsMustBeNumberOrString => push_str(
            &mut message,
            "Operands must be two numbers or two strings",
        ),
        RuntimeErrorMessage::UndefinedVariable(n) => {
            push_str(&mut message, "Undefined variable '");
            let mut i: usize = 0;
            let ghost base = message@;
            while i < n.len()
                invariant
                    i <= n@.len(),
                    message@ == base + n@.subrange(0, i as int),
                decreases n@.len() - i,
            {
                message.push(n[i]);
                i = i + 1;
                assert(message@ =~= base + n@.subrange(0, i as int));
            }
            assert(n@.subrange(0, n@.len() as int) =~= n@);
            push_str(&mut message, "'.");
        },
    }
    assert(message@ =~= runtime_message_text(error.message@));
    let location: Vec<char> = Vec::new();
    assert(location@ =~= Seq::<char>::empty());
    report_error(error.token.line, &location, &message)
}

} // verus!
