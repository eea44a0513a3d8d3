use vstd::prelude::*;
use vstd::std_specs::iter::IteratorSpec;
use crate::ast::{stmts_view, Stmt, StmtView};
use crate::environment::Environment;
use crate::interpret::{exec_block, lines_view, unit_result_view, Machine};
use crate::lex_error::LexerError;
use crate::lexer::{lemma_scan_ends_with_eof, scan, token_views, Lexer};
use crate::parse_error::{ParseError, ParseErrorView};
use crate::parser::{diag_views, parse_tokens, Parser};
use crate::runtime_error::{Interrupt, InterruptView};
use crate::diagnostics::{
    diagnostic_text, lexer_message_text, location_text, parse_message_text, push_str,
    report_error, report_lexer_error, report_parser_error, report_runtime_error,
    runtime_message_text,
};

verus! {

/// The step budget of a run: loop iterations allowed to each loop.
pub const STEP_LIMIT: u64 = 18446744073709551615;

/// The state a program starts in: one empty global scope, nothing printed.
pub open spec fn fresh_machine() -> Machine {
    Machine { env: seq![Seq::empty()], out: Seq::empty() }
}

/// Running a program's statements in order from a fresh state.
pub open spec fn program_result(
    ss: Seq<StmtView>,
    fuel: nat,
) -> (Machine, Result<(), InterruptView>) {
    exec_block(ss, 0, fresh_machine(), fuel)
}

/// Executes a program from a fresh global scope: the printed lines and how execution ended.
pub fn execute(statements: &Vec<Stmt>, fuel: u64) -> (r: (Vec<Vec<char>>, Result<(), Interrupt>))
    ensures
        lines_view(r.0@) == program_result(stmts_view(statements@), fuel as nat).0.out,
        unit_result_view(r.1) == program_result(stmts_view(statements@), fuel as nat).1,
{
    let mut env = Environment::new();
    assert(env.wf());
    let mut out: Vec<Vec<char>> = Vec::new();
    assert(lines_view(out@) =~= Seq::<Seq<char>>::empty());
    let ghost ss = stmts_view(statements@);
    let mut i: usize = 0;
    while i < statements.len()
        invariant
            env.wf(),
            ss == stmts_view(statements@),
            i <= ss.len(),
            program_result(ss, fuel as nat) == exec_block(ss, i as int, Machine { env: env@, out: lines_view(out@) }, fuel as nat),
        decreases ss.len() - i,
    {
        let r = statements[i].evaluate(&mut env, &mut out, fuel);
        match r {
            Ok(_) => {
                i = i + 1;
            },
            Err(e) => {
                return (out, Err(e));
            },
        }
    }
    (out, Ok(()))
}

/// Everything one run of a source text produced.
pub struct RunReport {
    /// The lines printed, in order.
    pub output: Vec<Vec<char>>,
    pub lexer_errors: Vec<LexerError>,
    pub parse_errors: Vec<ParseError>,
    /// The program that ran, when parsing succeeded.
    pub program: Option<Vec<Stmt>>,
    /// Why execution stopped early, if it did.
    pub interrupt: Option<Interrupt>,
    pub succeeded: bool,
}

fn chars_of(source: &str) -> (r: Vec<char>)
    ensures
        r@ == source@,
{
    broadcast use vstd::string::axiom_spec_iter, vstd::string::next_postcondition;

    let mut r: Vec<char> = Vec::new();
    let mut it = source.chars();
    loop
        invariant
            r@ + it.remaining() == source@,
            it.decrease() is Some,
        decreases it.decrease()->0,
    {
        match it.next() {
            Some(c) => {
                r.push(c);
                assert(r@ + it.remaining() =~= source@);
            },
            None => {
                assert(r@ =~= source@);
                return r;
            },
        }
    }
}

/// What a run reports.
pub struct RunView {
    pub output: Seq<Seq<char>>,
    pub lexer_errors: Seq<LexerError>,
    pub parse_errors: Seq<ParseErrorView>,
    pub program: Option<Seq<StmtView>>,
    pub interrupt: Option<InterruptView>,
    pub succeeded: bool,
}

impl View for RunReport {
    type V = RunView;

    open spec fn view(&self) -> RunView {
        RunView {
            output: lines_view(self.output@),
            lexer_errors: self.lexer_errors@,
            parse_errors: diag_views(self.parse_errors@),
            program: match self.program {
                Some(v) => Some(stmts_view(v@)),
                None => None,
            },
            interrupt: match self.interrupt {
                Some(i) => Some(i@),
                None => None,
            },
            succeeded: self.succeeded,
        }
    }
}

/// One full pass over a source text: scan; parse; when parsing succeeded, execute from a fresh
/// global scope. It succeeds only when no lexical, syntax or runtime error occurred.
pub open spec fn run_spec(src: Seq<char>) -> RunView {
    let (tokens, lexer_errors) = scan(src);
    let (program, parse_errors) = parse_tokens(tokens);
    match program {
        Some(ss) => {
            let (m, r) = program_result(ss, STEP_LIMIT as nat);
            RunView {
                output: m.out,
                lexer_errors,
                parse_errors,
                program,
                interrupt: match r {
                    Ok(_) => None,
                    Err(i) => Some(i),
                },
                succeeded: lexer_errors.len() == 0 && parse_errors.len() == 0 && r is Ok,
            }
        },
        None => RunView {
            output: Seq::empty(),
            lexer_errors,
            parse_errors,
            program: None,
            interrupt: None,
            succeeded: false,
        },
    }
}

/// Running the same source text twice reports the same output, the same diagnostics and the
/// same outcome both times: nothing carries over from one run to the next.
pub proof fn lemma_runs_repeat(src: Seq<char>, first: RunView, second: RunView)
    requires
        first == run_spec(src),
        second == run_spec(src),
    ensures
        first.output == second.output,
        first.lexer_errors == second.lexer_errors,
        first.parse_errors == second.parse_errors,
        first.interrupt == second.interrupt,
        first.succeeded == second.succeeded,
{
}

/// Runs a source text. What it reports is `run_spec` of the text: it depends on the text
/// alone, so running the same text again reports the same output and the same diagnostics.
pub fn run(source: String) -> (r: RunReport)
    requires
        source@.len() < usize::MAX,
    ensures
        r@ == run_spec(source@),
{
    let chars = chars_of(source.as_str());
    let lexer = Lexer::new(chars);
    let (tokens, lexer_errors) = lexer.scan_tokens();
    proof {
        lemma_scan_ends_with_eof(lexer.source@, 0, 1);
        let tv = token_views(tokens@);
        assert(tv.len() == tokens@.len());
        assert(tv[tv.len() - 1] == tokens@[tokens@.len() - 1]@);
    }
    let parser = Parser::new(tokens);
    let (program, parse_errors) = parser.parse();
    proof {
        assert(diag_views(parse_errors@).len() == parse_errors@.len());
    }
    match program {
        Some(statements) => {
            let (output, result) = execute(&statements, STEP_LIMIT);
            let interrupt = match result {
                Ok(_) => None,
                Err(e) => Some(e),
            };
            let succeeded = lexer_errors.len() == 0 && parse_errors.len() == 0 && interrupt.is_none();
            RunReport { output, lexer_errors, parse_errors, program: Some(statements), interrupt, succeeded }
        },
        None => {
            let r = RunReport {
                output: Vec::new(),
                lexer_errors,
                parse_errors,
                program: None,
                interrupt: None,
                succeeded: false,
            };
            assert(lines_view(r.output@) =~= Seq::<Seq<char>>::empty());
            r
        },
    }
}

/// The diagnostic line of an interrupted run.
pub open spec fn interrupt_text(i: Interrupt) -> Seq<char> {
    match i {
        Interrupt::Error(e) => diagnostic_text(e.token.line as nat, Seq::empty(), runtime_message_text(e.message@)),
        Interrupt::StepLimit => diagnostic_text(0, Seq::empty(), "Loop step limit reached."@),
    }
}

impl RunReport {
    /// Every diagnostic of the run as its canonical line: lexical errors, then syntax errors,
    /// then the runtime error, each in the order found.
    pub fn diagnostics(&self) -> (r: Vec<Vec<char>>)
        ensures
            r@.len() == self.lexer_errors@.len() + self.parse_errors@.len() + if self.interrupt is Some { 1int } else { 0int },
            forall|i: int| 0 <= i < self.lexer_errors@.len() ==> (#[trigger] r@[i])@ == diagnostic_text(
                self.lexer_errors@[i].line as nat, Seq::empty(), lexer_message_text(self.lexer_errors@[i].message)),
            forall|i: int| 0 <= i < self.parse_errors@.len() ==> (#[trigger] r@[self.lexer_errors@.len() + i])@
                == diagnostic_text(self.parse_errors@[i].token.line as nat, location_text(self.parse_errors@[i].token@),
                parse_message_text(self.parse_errors@[i].message)),
            self.interrupt is Some ==> r@.last()@ == interrupt_text(self.interrupt->0),
    {
        let mut r: Vec<Vec<char>> = Vec::new();
        let mut i: usize = 0;
        while i < self.lexer_errors.len()
            invariant
                i <= self.lexer_errors@.len(),
                r@.len() == i,
                forall|k: int| 0 <= k < i ==> (#[trigger] r@[k])@ == diagnostic_text(
                    self.lexer_errors@[k].line as nat, Seq::empty(), lexer_message_text(self.lexer_errors@[k].message)),
            decreases self.lexer_errors@.len() - i,
        {
            r.push(report_lexer_error(&self.lexer_errors[i]));
            i = i + 1;
        }
        let n = self.lexer_errors.len();
        let mut j: usize = 0;
        while j < self.parse_errors.len()
            invariant
                n == self.lexer_errors@.len(),
                j <= self.parse_errors@.len(),
                r@.len() == n + j,
                forall|k: int| 0 <= k < n ==> (#[trigger] r@[k])@ == diagnostic_text(
                    self.lexer_errors@[k].line as nat, Seq::empty(), lexer_message_text(self.lexer_errors@[k].message)),
                forall|k: int| 0 <= k < j ==> (#[trigger] r@[n + k])@
                    == diagnostic_text(self.parse_errors@[k].token.line as nat, location_text(self.parse_errors@[k].token@),
                    parse_message_text(self.parse_errors@[k].message)),
            decreases self.parse_errors@.len() - j,
        {
            r.push(report_parser_error(&self.parse_errors[j]));
            proof {
                assert(r@[n + j] == r@.last());
            }
            j = j + 1;
        }
        match &self.interrupt {
            Some(Interrupt::Error(e)) => {
                r.push(report_runtime_error(e));
            },
            Some(Interrupt::StepLimit) => {
                let mut message: Vec<char> = Vec::new();
                push_str(&mut message, "Loop step limit reached.");
                let location: Vec<char> = Vec::new();
                assert(location@ =~= Seq::<char>::empty());
                r.push(report_error(0, &location, &message));
            },
            None => {},
        }
        r
    }
}

} // verus!
