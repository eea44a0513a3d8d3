use rloxi::ast::{LiteralValue, Stmt};
use rloxi::diagnostics::report_error;
use rloxi::interpreter::{run, RunReport};
use rloxi::lex_error::LexerErrorMessage;
use rloxi::lexer::Lexer;
use rloxi::number::Number;
use rloxi::parse_error::{ExpectAfter, ParseErrorMessage};
use rloxi::parser::Parser;
use rloxi::runtime_error::{Interrupt, RuntimeErrorMessage};
use rloxi::prompt::{prompt_step, PromptAction};
use rloxi::token::{TokenLiteral, TokenType};

fn chars(s: &str) -> Vec<char> {
    s.chars().collect()
}

fn text(v: &[char]) -> String {
    v.iter().collect()
}

fn lines(report: &RunReport) -> Vec<String> {
    report.output.iter().map(|l| text(l)).collect()
}

fn diagnostics(report: &RunReport) -> Vec<String> {
    report.diagnostics().iter().map(|l| text(l)).collect()
}

fn go(src: &str) -> RunReport {
    run(src.to_string())
}

fn printed_expression(src: &str) -> String {
    let (tokens, errors) = Lexer::new(chars(src)).scan_tokens();
    assert!(errors.is_empty());
    let (program, diags) = Parser::new(tokens).parse();
    assert!(diags.is_empty());
    let program = program.expect("parses");
    assert_eq!(program.len(), 1);
    match &program[0] {
        Stmt::ExpressionStmt(s) => text(&s.expression.print()),
        other => panic!("not an expression statement: {:?}", other),
    }
}

#[test]
fn lexes_string_literal() {
    let (tokens, errors) = Lexer::new(chars("\"foo\"")).scan_tokens();
    assert!(errors.is_empty());
    assert_eq!(tokens.len(), 2);
    assert_eq!(tokens[0].token_type, TokenType::String);
    match &tokens[0].literal {
        TokenLiteral::String(t) => assert_eq!(text(t), "foo"),
        other => panic!("unexpected literal {:?}", other),
    }
    assert_eq!(text(&tokens[0].lexeme), "\"foo\"");
    assert_eq!(tokens[1].token_type, TokenType::Eof);
}

#[test]
fn lexes_number_literal() {
    let (tokens, errors) = Lexer::new(chars("123.45")).scan_tokens();
    assert!(errors.is_empty());
    assert_eq!(tokens.len(), 2);
    assert_eq!(tokens[0].token_type, TokenType::Number);
    match &tokens[0].literal {
        TokenLiteral::Number(Number::Finite(u)) => assert_eq!(*u, 123450000),
        other => panic!("unexpected literal {:?}", other),
    }
}

#[test]
fn trailing_dot_is_not_part_of_number() {
    let (tokens, _) = Lexer::new(chars("12.")).scan_tokens();
    let kinds: Vec<TokenType> = tokens.iter().map(|t| t.token_type).collect();
    assert_eq!(kinds, vec![TokenType::Number, TokenType::Dot, TokenType::Eof]);
}

#[test]
fn lexes_operators_keywords_and_comments() {
    let (tokens, errors) = Lexer::new(chars("!= <= == ! and foo_1 // note\nwhile")).scan_tokens();
    assert!(errors.is_empty());
    let kinds: Vec<TokenType> = tokens.iter().map(|t| t.token_type).collect();
    assert_eq!(
        kinds,
        vec![
            TokenType::BangEqual,
            TokenType::LessEqual,
            TokenType::EqualEqual,
            TokenType::Bang,
            TokenType::And,
            TokenType::Identifier,
            TokenType::While,
            TokenType::Eof,
        ]
    );
    assert_eq!(tokens[6].line, 2);
}

#[test]
fn keyword_table_lookup() {
    assert_eq!(TokenType::from_keyword(&chars("while")), Some(TokenType::While));
    assert_eq!(TokenType::from_keyword(&chars("class")), Some(TokenType::Class));
    assert_eq!(TokenType::from_keyword(&chars("whilst")), None);
    assert_eq!(TokenType::from_keyword(&chars("")), None);
}

#[test]
fn lexer_reports_unexpected_characters_and_continues() {
    let (tokens, errors) = Lexer::new(chars("@ 1 #")).scan_tokens();
    assert_eq!(errors.len(), 2);
    assert_eq!(errors[0].message, LexerErrorMessage::UnexpectedCharacter);
    assert_eq!(tokens.len(), 2);
}

#[test]
fn lexer_reports_unterminated_string_at_current_line() {
    let (tokens, errors) = Lexer::new(chars("\"abc\ndef")).scan_tokens();
    assert_eq!(errors.len(), 1);
    assert_eq!(errors[0].message, LexerErrorMessage::UnterminatedString);
    assert_eq!(errors[0].line, 2);
    assert_eq!(tokens.len(), 1);
    let r = go("\"abc");
    assert_eq!(diagnostics(&r), vec!["[line 1] Error: Unterminated string.".to_string()]);
    assert!(!r.succeeded);
}

#[test]
fn pretty_prints_unary_and_grouping() {
    assert_eq!(printed_expression("-123 * (45.67);"), "(* (- 123) (group 45.67))");
}

#[test]
fn multiplication_binds_tighter_than_addition() {
    assert_eq!(printed_expression("1 + 2 * 3;"), "(+ 1 (* 2 3))");
    assert_eq!(printed_expression("1 - 2 - 3;"), "(- (- 1 2) 3)");
}

#[test]
fn invalid_assignment_target_is_reported_once_and_later_code_runs() {
    let r = go("1 = 2; print 3;");
    assert_eq!(r.parse_errors.len(), 1);
    assert_eq!(r.parse_errors[0].message, ParseErrorMessage::InvalidAssignmentTarget);
    assert_eq!(lines(&r), vec!["3"]);
    assert_eq!(
        diagnostics(&r),
        vec!["[line 1] Error at '=': Invalid assignment target.".to_string()]
    );
    assert!(!r.succeeded);
}

#[test]
fn inner_declaration_shadows_outer() {
    let r = go("var a = 1;\n{ var a = 2; print a; }\nprint a;");
    assert_eq!(lines(&r), vec!["2", "1"]);
    assert!(r.succeeded);
}

#[test]
fn for_loop_counts_and_terminates() {
    let r = go("for (var i = 0; i < 3; i = i + 1) print i;");
    assert_eq!(lines(&r), vec!["0", "1", "2"]);
    assert!(r.succeeded);
}

#[test]
fn undefined_variable_fails_without_output() {
    let r = go("print undeclared_name;");
    assert!(r.output.is_empty());
    match &r.interrupt {
        Some(Interrupt::Error(e)) => match &e.message {
            RuntimeErrorMessage::UndefinedVariable(n) => assert_eq!(text(n), "undeclared_name"),
            other => panic!("unexpected message {:?}", other),
        },
        other => panic!("unexpected end {:?}", other),
    }
    assert_eq!(
        diagnostics(&r),
        vec!["[line 1] Error: Undefined variable 'undeclared_name'.".to_string()]
    );
    assert!(!r.succeeded);
}

#[test]
fn zero_is_truthy() {
    let r = go("if (0) print \"yes\"; else print \"no\";");
    assert_eq!(lines(&r), vec!["yes"]);
}

#[test]
fn nil_and_false_are_falsy() {
    let r = go("if (nil) print 1; else print 2; if (false) print 3; if (\"\") print 4; print !nil;");
    assert_eq!(lines(&r), vec!["2", "4", "true"]);
}

#[test]
fn equality_across_variants_is_false() {
    let r = go("print 1 == \"1\"; print nil == false; print 1 != \"1\"; print \"a\" == \"a\";");
    assert_eq!(lines(&r), vec!["false", "false", "true", "true"]);
    assert!(r.succeeded);
}

#[test]
fn fresh_runs_repeat_exactly() {
    let src = "var a = 1; print a; a = a + 1; print a; print b; 1 = 2;";
    let first = go(src);
    let second = go(src);
    assert_eq!(lines(&first), lines(&second));
    assert_eq!(diagnostics(&first), diagnostics(&second));
    let third = go("print a;");
    assert!(third.interrupt.is_some());
}

#[test]
fn arithmetic_results() {
    let r = go("print 7 / 2; print 2.5 * 2; print 1 - 1.25; print 10 - 4 * 2; print -(3);");
    assert_eq!(lines(&r), vec!["3.5", "5", "-0.25", "2", "-3"]);
}

#[test]
fn division_by_zero_is_not_fatal() {
    let r = go("print 1 / 0; print -1 / 0; var n = 0 / 0; print n; print n == n;");
    assert_eq!(lines(&r), vec!["inf", "-inf", "NaN", "false"]);
    assert!(r.succeeded);
}

#[test]
fn comparisons() {
    let r = go("print 1 < 2; print 2 <= 2; print 3 > 4; print 4 >= 5;");
    assert_eq!(lines(&r), vec!["true", "true", "false", "false"]);
}

#[test]
fn string_concatenation() {
    let r = go("var s = \"ab\" + \"cd\"; print s;");
    assert_eq!(lines(&r), vec!["abcd"]);
}

#[test]
fn logical_operators_return_operands() {
    let r = go("print nil or \"x\"; print false and 1; print 1 and 2; print 1 or 2;");
    assert_eq!(lines(&r), vec!["x", "false", "2", "1"]);
}

#[test]
fn assignment_updates_the_defining_scope() {
    let r = go("var a = 1; { a = 5; var b = a = 7; print b; } print a;");
    assert_eq!(lines(&r), vec!["7", "7"]);
}

#[test]
fn assignment_to_undeclared_name_fails() {
    let r = go("x = 1;");
    match &r.interrupt {
        Some(Interrupt::Error(e)) => match &e.message {
            RuntimeErrorMessage::UndefinedVariable(n) => assert_eq!(text(n), "x"),
            other => panic!("unexpected message {:?}", other),
        },
        other => panic!("unexpected end {:?}", other),
    }
}

#[test]
fn while_loop_and_redeclaration() {
    let r = go("var i = 0; while (i < 2) { print i; i = i + 1; } var i = \"again\"; print i;");
    assert_eq!(lines(&r), vec!["0", "1", "again"]);
}

#[test]
fn uninitialized_variable_is_nil() {
    let r = go("var a; print a;");
    assert_eq!(lines(&r), vec!["nil"]);
}

#[test]
fn runtime_error_stops_execution() {
    let r = go("print 1; print -\"a\"; print 2;");
    assert_eq!(lines(&r), vec!["1"]);
    match &r.interrupt {
        Some(Interrupt::Error(e)) => {
            assert!(matches!(e.message, RuntimeErrorMessage::OperandMustBeNumber));
            assert_eq!(e.token.token_type, TokenType::Minus);
        }
        other => panic!("unexpected end {:?}", other),
    }
    assert_eq!(diagnostics(&r), vec!["[line 1] Error: Operand must be a number.".to_string()]);
}

#[test]
fn operands_must_be_numbers() {
    let r = go("print 1 - \"a\";");
    match &r.interrupt {
        Some(Interrupt::Error(e)) => {
            assert!(matches!(e.message, RuntimeErrorMessage::OperandsMustBeNumbers))
        }
        other => panic!("unexpected end {:?}", other),
    }
    let r = go("print 1 < nil;");
    assert!(matches!(
        &r.interrupt,
        Some(Interrupt::Error(e)) if matches!(e.message, RuntimeErrorMessage::OperandsMustBeNumbers)
    ));
}

#[test]
fn plus_needs_two_numbers_or_two_strings() {
    let r = go("print 1 + \"a\";");
    assert!(matches!(
        &r.interrupt,
        Some(Interrupt::Error(e)) if matches!(e.message, RuntimeErrorMessage::OperandsMustBeNumberOrString)
    ));
    assert_eq!(
        diagnostics(&r),
        vec!["[line 1] Error: Operands must be two numbers or two strings".to_string()]
    );
}

#[test]
fn missing_semicolon_is_reported_at_end() {
    let r = go("print 1");
    assert!(r.program.is_none());
    assert_eq!(r.parse_errors.len(), 1);
    assert_eq!(r.parse_errors[0].message, ParseErrorMessage::ExpectSemicolon(ExpectAfter::Value));
    assert_eq!(diagnostics(&r), vec!["[line 1] Error at end: Expect ';' after value.".to_string()]);
    assert!(r.output.is_empty());
}

#[test]
fn recovery_reports_several_errors() {
    let r = go("var = 1;\nprint (1;\nvar x = ;\nprint 2;");
    let messages: Vec<ParseErrorMessage> = r.parse_errors.iter().map(|e| e.message).collect();
    assert_eq!(
        messages,
        vec![
            ParseErrorMessage::ExpectVariableName,
            ParseErrorMessage::ExpectRightParen(ExpectAfter::Expression),
            ParseErrorMessage::ExpectExpression,
        ]
    );
    assert!(r.program.is_none());
    assert!(r.output.is_empty());
    assert_eq!(
        diagnostics(&r),
        vec![
            "[line 1] Error at '=': Expect variable name.".to_string(),
            "[line 2] Error at ';': Expect ')' after expression.".to_string(),
            "[line 3] Error at ';': Expect expression.".to_string(),
        ]
    );
}

#[test]
fn statement_syntax_errors() {
    let r = go("if 1) print 1;");
    assert_eq!(r.parse_errors[0].message, ParseErrorMessage::ExpectLeftParen(ExpectAfter::If));
    let r = go("while (true print 1;");
    assert_eq!(r.parse_errors[0].message, ParseErrorMessage::ExpectRightParen(ExpectAfter::Condition));
    let r = go("{ print 1;");
    assert_eq!(r.parse_errors[0].message, ParseErrorMessage::ExpectBraceAfterBlock);
    let r = go("for (var i = 0; i < 1 i = i + 1) print i;");
    assert_eq!(
        r.parse_errors[0].message,
        ParseErrorMessage::ExpectSemicolon(ExpectAfter::LoopCondition)
    );
}

#[test]
fn number_display_and_equality() {
    let mut out = Vec::new();
    Number::Finite(-500000).write_to(&mut out);
    assert_eq!(text(&out), "-0.5");
    let mut out = Vec::new();
    Number::Finite(12000000).write_to(&mut out);
    assert_eq!(text(&out), "12");
    assert!(!Number::NaN.equals(Number::NaN));
    assert!(Number::Finite(3).less_than(Number::PosInf));
    assert!(matches!(Number::PosInf.plus(Number::NegInf), Number::NaN));
    assert!(matches!(Number::Finite(i64::MAX).plus(Number::Finite(1)), Number::PosInf));
}

#[test]
fn value_equality_and_text() {
    assert!(LiteralValue::Nil.equals(&LiteralValue::Nil));
    assert!(!LiteralValue::Bool(false).equals(&LiteralValue::Nil));
    assert_eq!(text(&LiteralValue::Bool(true).text()), "true");
}

#[test]
fn diagnostic_line_format() {
    assert_eq!(
        text(&report_error(12, &chars(" at 'x'"), &chars("Oops."))),
        "[line 12] Error at 'x': Oops."
    );
}

fn program_of(src: &str) -> Vec<Stmt> {
    let (tokens, _) = Lexer::new(chars(src)).scan_tokens();
    let (program, diags) = Parser::new(tokens).parse();
    assert!(diags.is_empty());
    program.expect("parses")
}

#[test]
fn for_loop_without_clauses_is_a_bare_loop_on_true() {
    let program = program_of("for (;;) print 1;");
    assert_eq!(program.len(), 1);
    match &program[0] {
        Stmt::WhileStmt(w) => {
            assert_eq!(text(&w.condition.print()), "true");
            assert!(matches!(w.body, Stmt::PrintStmt(_)));
        }
        other => panic!("not a loop: {:?}", other),
    }
}

#[test]
fn for_loop_desugars_into_blocks() {
    let program = program_of("for (var i = 0; i < 3; i = i + 1) print i;");
    match &program[0] {
        Stmt::BlockStmt(outer) => {
            assert_eq!(outer.statements.len(), 2);
            assert!(matches!(outer.statements[0], Stmt::VarStmt(_)));
            match &outer.statements[1] {
                Stmt::WhileStmt(w) => {
                    assert_eq!(text(&w.condition.print()), "(< i 3)");
                    match &w.body {
                        Stmt::BlockStmt(inner) => {
                            assert_eq!(inner.statements.len(), 2);
                            assert!(matches!(inner.statements[0], Stmt::PrintStmt(_)));
                            match &inner.statements[1] {
                                Stmt::ExpressionStmt(e) => {
                                    assert_eq!(text(&e.expression.print()), "(= i (+ i 1))")
                                }
                                other => panic!("not the increment: {:?}", other),
                            }
                        }
                        other => panic!("not a block: {:?}", other),
                    }
                }
                other => panic!("not a loop: {:?}", other),
            }
        }
        other => panic!("not a block: {:?}", other),
    }
}

#[test]
fn grouped_target_is_not_assignable() {
    let r = go("var a = 1; (a) = 2; print a;");
    assert_eq!(r.parse_errors.len(), 1);
    assert_eq!(r.parse_errors[0].message, ParseErrorMessage::InvalidAssignmentTarget);
    assert_eq!(lines(&r), vec!["1"]);
}

#[test]
fn error_inside_block_skips_to_next_statement() {
    let r = go("{ var x = 1 print x; }\nprint 2;");
    assert!(r.program.is_none());
    assert_eq!(r.parse_errors[0].message, ParseErrorMessage::ExpectSemicolon(ExpectAfter::Declaration));
    assert_eq!(text(&r.parse_errors[0].token.lexeme), "print");
}

#[test]
fn logical_expressions_print_with_their_operator() {
    assert_eq!(printed_expression("a or b and c;"), "(or a (and b c))");
}

#[test]
fn long_loop_finishes() {
    let r = go("var i = 0; var s = 0; while (i < 20000) { s = s + i; i = i + 1; } print s;");
    assert_eq!(lines(&r), vec!["199990000"]);
}

#[test]
fn prompt_stops_at_exit_and_trims_lines() {
    assert!(matches!(prompt_step(&chars("exit\n")), PromptAction::Exit));
    assert!(matches!(prompt_step(&chars("  exit \r\n")), PromptAction::Exit));
    match prompt_step(&chars("  print 1;\n")) {
        PromptAction::Run(t) => assert_eq!(text(&t), "print 1;"),
        PromptAction::Exit => panic!("stopped on a statement"),
    }
    match prompt_step(&chars("exits\n")) {
        PromptAction::Run(t) => assert_eq!(text(&t), "exits"),
        PromptAction::Exit => panic!("stopped on another word"),
    }
}
