//! The commands of the interpreter on a whole source text: `tokenize`,
//! `parse`, `evaluate` and `run`, each giving what it prints on standard
//! output and on standard error, and its exit status.

use vstd::prelude::*;
use crate::ast_printer::{ast_text, AstPrinter};
use crate::error::ErrorSink;
use crate::interp_spec::{clock_readings, extends, run_expr, run_program, Feed};
use crate::interpreter::Interpreter;
use crate::parser::{ParseError, Parser};
use crate::parser_spec::{parse_expression, parse_program, tokens_wf};
use crate::resolver::Resolver;
use crate::resolver_spec::resolve_program;
use crate::scanner::{at_end, eof_token, opt_seq, scan_from, scan_spec, scan_step, tokens_view, ScanResult, Scanner};
use crate::text::{push_char, text_of};
use crate::token::{token_text, Token, TokenType, TokenView};

verus! {

/// How the process ends: success, a usage error, a lexical or syntax (or
/// resolution) error, a runtime error, or an interrupt.
#[derive(Debug, Clone, Copy, PartialEq, Eq, Structural)]
pub enum ExitValue {
    Success,
    Usage,
    SyntaxError,
    RuntimeError,
    Termination,
}

pub open spec fn exit_code(e: ExitValue) -> u8 {
    match e {
        ExitValue::Success => 0,
        ExitValue::Usage => 64,
        ExitValue::SyntaxError => 65,
        ExitValue::RuntimeError => 70,
        ExitValue::Termination => 130,
    }
}

impl ExitValue {
    /// The process exit status.
    pub fn code(&self) -> (c: u8)
        ensures
            c == exit_code(*self),
    {
        match self {
            ExitValue::Success => 0,
            ExitValue::Usage => 64,
            ExitValue::SyntaxError => 65,
            ExitValue::RuntimeError => 70,
            ExitValue::Termination => 130,
        }
    }
}

/// What a command printed, and how it ended; and, for the contracts, the
/// readings of the clock the program took.
pub struct Outcome {
    pub stdout: String,
    pub stderr: String,
    pub exit: ExitValue,
    pub clock: Ghost<Feed>,
}

/// The texts, each followed by a newline.
pub open spec fn lines(ls: Seq<Seq<char>>) -> Seq<char>
    decreases ls.len(),
{
    if ls.len() == 0 {
        Seq::empty()
    } else {
        lines(ls.drop_last()) + ls.last() + seq!['\n']
    }
}

/// How `tokenize` prints tokens: one per line.
pub open spec fn token_lines(ts: Seq<TokenView>) -> Seq<char> {
    lines(ts.map_values(|t: TokenView| token_text(t)))
}

/// A number or string token carries its value.
pub open spec fn token_ok(t: TokenView) -> bool {
    (t.token_type == TokenType::NUMBER || t.token_type == TokenType::STRING) ==> t.literal is Some
}

proof fn lemma_scan_from_ok(s: Seq<char>, pos: int, line: nat)
    requires
        0 <= pos,
    ensures
        forall|i: int| 0 <= i < scan_from(s, pos, line).tokens.len() ==> token_ok(#[trigger] scan_from(s, pos, line).tokens[i]),
    decreases s.len() - pos,
{
    if !at_end(s, pos) {
        crate::scanner::lemma_scan_step(s, pos, line);
        let st = scan_step(s, pos, line);
        lemma_scan_from_ok(s, st.next, st.line);
        let rest = scan_from(s, st.next, st.line);
        assert(st.token matches Some(t) ==> token_ok(t));
        let all = opt_seq(st.token) + rest.tokens;
        assert forall|i: int| 0 <= i < all.len() implies token_ok(#[trigger] all[i]) by {
            if i < opt_seq(st.token).len() {
                assert(all[i] == st.token->0);
            } else {
                assert(all[i] == rest.tokens[i - opt_seq(st.token).len()]);
            }
        }
    }
}

/// The tokens of any source can be walked by the parser.
pub proof fn lemma_scan_tokens_wf(s: Seq<char>)
    ensures
        tokens_wf(scan_spec(s).0),
{
    lemma_scan_from_ok(s, 0, 1);
    let o = scan_from(s, 0, 1);
    let ts = o.tokens.push(eof_token(o.line));
    assert forall|i: int| 0 <= i < ts.len() && (#[trigger] ts[i].token_type == TokenType::NUMBER || ts[i].token_type == TokenType::STRING)
        implies ts[i].literal is Some by {
        if i < o.tokens.len() {
            assert(token_ok(o.tokens[i]));
        }
    }
}

/// The texts of `v`, each followed by a newline.
fn join_lines(v: &Vec<String>) -> (s: String)
    ensures
        s@ == lines(v@.map_values(|e: String| e@)),
{
    let ghost ls = v@.map_values(|e: String| e@);
    let mut s = String::new();
    let mut i: usize = 0;
    while i < v.len()
        invariant
            i <= v@.len(),
            ls == v@.map_values(|e: String| e@),
            s@ == lines(ls.take(i as int)),
        decreases v.len() - i,
    {
        s.append(v[i].as_str());
        push_char(&mut s, '\n');
        proof {
            assert(ls.take(i + 1).drop_last() =~= ls.take(i as int));
            assert(ls.take(i + 1).last() == v@[i as int]@);
        }
        i += 1;
    }
    assert(ls.take(v@.len() as int) =~= ls);
    s
}

/// The tokens, one per line, as `tokenize` prints them.
fn token_lines_exec(tokens: &Vec<Token>) -> (s: String)
    ensures
        s@ == token_lines(tokens_view(tokens@)),
{
    let ghost ls = tokens_view(tokens@).map_values(|t: TokenView| token_text(t));
    let mut s = String::new();
    let mut i: usize = 0;
    while i < tokens.len()
        invariant
            i <= tokens@.len(),
            ls == tokens_view(tokens@).map_values(|t: TokenView| token_text(t)),
            ls.len() == tokens@.len(),
            s@ == lines(ls.take(i as int)),
        decreases tokens.len() - i,
    {
        let t = tokens[i].to_text();
        s.append(t.as_str());
        push_char(&mut s, '\n');
        proof {
            assert(ls.take(i + 1).drop_last() =~= ls.take(i as int));
            assert(ls.take(i + 1).last() == token_text(tokens@[i as int]@));
        }
        i += 1;
    }
    assert(ls.take(tokens@.len() as int) =~= ls);
    s
}

/// `tokenize`: every token, one per line; the lexical errors go to
/// standard error, and make the status a syntax error.
pub fn tokenize(source: &str) -> (r: Outcome)
    requires
        source@.len() < usize::MAX,
    ensures
        r.stdout@ == token_lines(scan_spec(source@).0),
        r.stderr@ == lines(scan_spec(source@).1),
        r.exit == (if scan_spec(source@).1.len() == 0 { ExitValue::Success } else { ExitValue::SyntaxError }),
{
    match Scanner::scan(source) {
        ScanResult::Clean(tokens) => {
            let stdout = token_lines_exec(&tokens);
            let ghost es = scan_spec(source@).1;
            assert(es =~= Seq::<Seq<char>>::empty());
            Outcome { stdout, stderr: String::new(), exit: ExitValue::Success, clock: Ghost(Seq::empty()) }
        },
        ScanResult::WithErrors(errors, tokens) => {
            let stdout = token_lines_exec(&tokens);
            let stderr = join_lines(errors.errors());
            Outcome { stdout, stderr, exit: ExitValue::SyntaxError, clock: Ghost(Seq::empty()) }
        },
    }
}

/// The tokens of a source with no lexical error, ready for the parser.
fn clean_tokens(source: &str) -> (r: Option<Vec<Token>>)
    requires
        source@.len() < usize::MAX,
    ensures
        r is Some <==> scan_spec(source@).1.len() == 0,
        r matches Some(ts) ==> tokens_view(ts@) == scan_spec(source@).0 && tokens_wf(tokens_view(ts@)),
{
    proof {
        lemma_scan_tokens_wf(source@);
    }
    match Scanner::scan(source) {
        ScanResult::Clean(tokens) => Some(tokens),
        ScanResult::WithErrors(_, tokens) => None,
    }
}

/// `parse`: the prefix form of the expression the source starts with. A
/// lexical or syntax error prints nothing and makes the status a syntax error.
pub fn parse(source: &str) -> (r: Outcome)
    requires
        source@.len() < usize::MAX,
    ensures
        r.stderr@ == Seq::<char>::empty(),
        clock_readings(r.clock@),
        scan_spec(source@).1.len() > 0 ==> r.exit == ExitValue::SyntaxError && r.stdout@ == Seq::<char>::empty(),
        scan_spec(source@).1.len() == 0 ==> match parse_expression(scan_spec(source@).0) {
            Ok(e) => r.exit == ExitValue::Success && r.stdout@ == ast_text(e) + seq!['\n'],
            Err(_) => r.exit == ExitValue::SyntaxError && r.stdout@ == Seq::<char>::empty(),
        },
{
    let tokens = match clean_tokens(source) {
        Some(t) => t,
        None => {
            return Outcome { stdout: String::new(), stderr: String::new(), exit: ExitValue::SyntaxError, clock: Ghost(Seq::empty()) };
        },
    };
    let mut parser = Parser::new(tokens);
    match parser.parse_expr() {
        Ok(expr) => {
            let printer = AstPrinter::new(&expr);
            let mut stdout = printer.print();
            push_char(&mut stdout, '\n');
            Outcome { stdout, stderr: String::new(), exit: ExitValue::Success, clock: Ghost(Seq::empty()) }
        },
        Err(_) => Outcome { stdout: String::new(), stderr: String::new(), exit: ExitValue::SyntaxError, clock: Ghost(Seq::empty()) },
    }
}

/// `evaluate`: the value of the expression the source starts with, as
/// `print` writes it, after what the evaluation printed. A lexical or
/// syntax error makes the status a syntax error, a runtime error a runtime
/// error; neither prints a report. The outcome is the one the evaluation
/// has in `interp_spec`, given the clock's readings it took.
pub fn evaluate(source: &str) -> (r: Outcome)
    requires
        source@.len() < usize::MAX,
    ensures
        r.stderr@ == Seq::<char>::empty(),
        clock_readings(r.clock@),
        scan_spec(source@).1.len() > 0 ==> r.exit == ExitValue::SyntaxError && r.stdout@ == Seq::<char>::empty(),
        scan_spec(source@).1.len() == 0 ==> match parse_expression(scan_spec(source@).0) {
            Ok(e) => forall|feed: Feed| extends(feed, r.clock@) ==> match #[trigger] run_expr(crate::interp_spec::initial_state(), e, feed) {
                (st, Ok(text)) => r.exit == ExitValue::Success && r.stdout@ == st.output + text + seq!['\n'],
                (st, Err(_)) => r.exit == ExitValue::RuntimeError && r.stdout@ == st.output,
            },
            Err(_) => r.exit == ExitValue::SyntaxError && r.stdout@ == Seq::<char>::empty(),
        },
{
    let tokens = match clean_tokens(source) {
        Some(t) => t,
        None => {
            return Outcome { stdout: String::new(), stderr: String::new(), exit: ExitValue::SyntaxError, clock: Ghost(Seq::empty()) };
        },
    };
    let mut parser = Parser::new(tokens);
    let expr = match parser.parse_expr() {
        Ok(e) => e,
        Err(_) => {
            return Outcome { stdout: String::new(), stderr: String::new(), exit: ExitValue::SyntaxError, clock: Ghost(Seq::empty()) };
        },
    };
    let mut interpreter = Interpreter::new();
    let ghost s0 = interpreter.state();
    let result = interpreter.interpret_expr(&expr);
    let ghost s1 = interpreter.state();
    let ghost log = interpreter.clock_log();
    let mut stdout = interpreter.take_output();
    match result {
        Ok(text) => {
            stdout.append(text.as_str());
            push_char(&mut stdout, '\n');
            let r = Outcome { stdout, stderr: String::new(), exit: ExitValue::Success, clock: Ghost(log) };
            proof {
                assert forall|feed: Feed| extends(feed, r.clock@) implies match #[trigger] run_expr(crate::interp_spec::initial_state(), expr@, feed) {
                    (st, Ok(text)) => r.exit == ExitValue::Success && r.stdout@ == st.output + text + seq!['\n'],
                    (st, Err(_)) => r.exit == ExitValue::RuntimeError && r.stdout@ == st.output,
                } by {
                    assert(run_expr(s0, expr@, feed).0 == s1);
                }
            }
            r
        },
        Err(_) => {
            let r = Outcome { stdout, stderr: String::new(), exit: ExitValue::RuntimeError, clock: Ghost(log) };
            proof {
                assert forall|feed: Feed| extends(feed, r.clock@) implies match #[trigger] run_expr(crate::interp_spec::initial_state(), expr@, feed) {
                    (st, Ok(text)) => r.exit == ExitValue::Success && r.stdout@ == st.output + text + seq!['\n'],
                    (st, Err(_)) => r.exit == ExitValue::RuntimeError && r.stdout@ == st.output,
                } by {
                    assert(run_expr(s0, expr@, feed).0 == s1);
                }
            }
            r
        },
    }
}

/// `run`: the program's output. A lexical error makes the status a syntax
/// error and prints nothing; a syntax or resolution error is reported on
/// standard error with the status of a syntax error; a runtime error is
/// reported there after the output printed before it, with its own status.
/// The run is the one `interp_spec` describes for the resolved program,
/// given the clock's readings it took. What the program prints is collected
/// and handed back when the run ends: a program that never ends, or whose
/// process dies, shows none of it.
pub fn run(source: &str) -> (r: Outcome)
    requires
        source@.len() < usize::MAX,
    ensures
        scan_spec(source@).1.len() > 0 ==> r.exit == ExitValue::SyntaxError && r.stdout@ == Seq::<char>::empty()
            && r.stderr@ == Seq::<char>::empty(),
        scan_spec(source@).1.len() == 0 ==> match parse_program(scan_spec(source@).0) {
            Err(e) => r.exit == ExitValue::SyntaxError && r.stdout@ == Seq::<char>::empty() && r.stderr@ == e + seq!['\n'],
            Ok(prog) => match resolve_program(prog) {
                Err(e) => r.exit == ExitValue::SyntaxError && r.stdout@ == Seq::<char>::empty() && r.stderr@ == e + seq!['\n'],
                Ok(resolved) => forall|feed: Feed| extends(feed, r.clock@) ==> match #[trigger] run_program(
                    crate::interp_spec::initial_state(), resolved, feed) {
                    (st, Ok(_)) => r.exit == ExitValue::Success && r.stdout@ == st.output && r.stderr@ == Seq::<char>::empty(),
                    (st, Err(m)) => r.exit == ExitValue::RuntimeError && r.stdout@ == st.output && r.stderr@ == m + seq!['\n'],
                },
            },
        },
        r.exit == ExitValue::Success ==> r.stderr@ == Seq::<char>::empty(),
        clock_readings(r.clock@),
{
    let tokens = match clean_tokens(source) {
        Some(t) => t,
        None => {
            return Outcome { stdout: String::new(), stderr: String::new(), exit: ExitValue::SyntaxError, clock: Ghost(Seq::empty()) };
        },
    };
    let mut parser = Parser::new(tokens);
    let statements = match parser.parse() {
        Ok(s) => s,
        Err(e) => {
            let mut stderr = e.0;
            push_char(&mut stderr, '\n');
            return Outcome { stdout: String::new(), stderr, exit: ExitValue::SyntaxError, clock: Ghost(Seq::empty()) };
        },
    };
    let mut resolver = Resolver::new();
    let statements = match resolver.resolve(statements) {
        Ok(s) => s,
        Err(e) => {
            let mut stderr = e.0;
            push_char(&mut stderr, '\n');
            return Outcome { stdout: String::new(), stderr, exit: ExitValue::SyntaxError, clock: Ghost(Seq::empty()) };
        },
    };
    let mut interpreter = Interpreter::new();
    let ghost s0 = interpreter.state();
    let result = interpreter.interpret(&statements);
    let ghost s1 = interpreter.state();
    let ghost log = interpreter.clock_log();
    let ghost prog = crate::stmt::stmts_view(statements@);
    let stdout = interpreter.take_output();
    match result {
        Ok(()) => {
            let r = Outcome { stdout, stderr: String::new(), exit: ExitValue::Success, clock: Ghost(log) };
            proof {
                assert forall|feed: Feed| extends(feed, r.clock@) implies match #[trigger] run_program(
                    crate::interp_spec::initial_state(), prog, feed) {
                    (st, Ok(_)) => r.exit == ExitValue::Success && r.stdout@ == st.output && r.stderr@ == Seq::<char>::empty(),
                    (st, Err(m)) => r.exit == ExitValue::RuntimeError && r.stdout@ == st.output && r.stderr@ == m + seq!['\n'],
                } by {
                    assert(run_program(s0, prog, feed) == (s1, Ok::<(), Seq<char>>(())));
                }
            }
            r
        },
        Err(e) => {
            let ghost m = e.0@;
            let mut stderr = e.0;
            push_char(&mut stderr, '\n');
            let r = Outcome { stdout, stderr, exit: ExitValue::RuntimeError, clock: Ghost(log) };
            proof {
                assert forall|feed: Feed| extends(feed, r.clock@) implies match #[trigger] run_program(
                    crate::interp_spec::initial_state(), prog, feed) {
                    (st, Ok(_)) => r.exit == ExitValue::Success && r.stdout@ == st.output && r.stderr@ == Seq::<char>::empty(),
                    (st, Err(m)) => r.exit == ExitValue::RuntimeError && r.stdout@ == st.output && r.stderr@ == m + seq!['\n'],
                } by {
                    assert(run_program(s0, prog, feed) == (s1, Err::<(), Seq<char>>(m)));
                }
            }
            r
        },
    }
}

/// One source text run by a lasting interpreter (as the prompt does), with
/// no resolution. What it prints stays in the interpreter's output. The
/// error is the runtime or syntax report; lexical reports come each after a
/// newline. The run is the one `interp_spec` describes, from the
/// interpreter's state, given the clock's readings it took.
pub fn run_with_interpreter(source: &str, interpreter: &mut Interpreter) -> (r: Result<(), String>)
    requires
        source@.len() < usize::MAX,
        old(interpreter).wf(),
    ensures
        final(interpreter).wf(),
        Interpreter::grows(*old(interpreter), *final(interpreter)),
        scan_spec(source@).1.len() > 0 ==> (r matches Err(e) && e@ == lexical_reports(scan_spec(source@).1))
            && final(interpreter).state() == old(interpreter).state(),
        scan_spec(source@).1.len() == 0 ==> match parse_program(scan_spec(source@).0) {
            Err(m) => (r matches Err(e) && e@ == m) && final(interpreter).state() == old(interpreter).state(),
            Ok(prog) => forall|feed: Feed| extends(feed, final(interpreter).clock_log()) ==> #[trigger] run_program(
                old(interpreter).state(), prog, feed) == (final(interpreter).state(), match r {
                    Ok(_) => Ok::<(), Seq<char>>(()),
                    Err(e) => Err(e@),
                }),
        },
{
    proof {
        lemma_scan_tokens_wf(source@);
    }
    let tokens = match Scanner::scan(source) {
        ScanResult::Clean(tokens) => tokens,
        ScanResult::WithErrors(errors, _) => {
            return Err(prefix_lines(errors.errors()));
        },
    };
    let mut parser = Parser::new(tokens);
    let statements = match parser.parse() {
        Ok(s) => s,
        Err(e) => {
            return Err(e.0);
        },
    };
    let ghost s0 = interpreter.state();
    let ghost prog = crate::stmt::stmts_view(statements@);
    let result = interpreter.interpret(&statements);
    let r = match result {
        Ok(()) => Ok(()),
        Err(e) => Err(e.0),
    };
    proof {
        assert forall|feed: Feed| extends(feed, interpreter.clock_log()) implies #[trigger] run_program(s0, prog, feed)
            == (interpreter.state(), match r {
                Ok(_) => Ok::<(), Seq<char>>(()),
                Err(e) => Err(e@),
            }) by {
            assert(run_program(s0, prog, feed) == (interpreter.state(), crate::interpreter::unit_view(result)));
        }
    }
    r
}

/// The reports, each after a newline.
pub open spec fn lexical_reports(es: Seq<Seq<char>>) -> Seq<char>
    decreases es.len(),
{
    if es.len() == 0 {
        Seq::empty()
    } else {
        lexical_reports(es.drop_last()) + seq!['\n'] + es.last()
    }
}

fn prefix_lines(v: &Vec<String>) -> (s: String)
    ensures
        s@ == lexical_reports(v@.map_values(|e: String| e@)),
{
    let ghost ls = v@.map_values(|e: String| e@);
    let mut s = String::new();
    let mut i: usize = 0;
    while i < v.len()
        invariant
            i <= v@.len(),
            ls == v@.map_values(|e: String| e@),
            s@ == lexical_reports(ls.take(i as int)),
        decreases v.len() - i,
    {
        push_char(&mut s, '\n');
        s.append(v[i].as_str());
        proof {
            assert(ls.take(i + 1).drop_last() =~= ls.take(i as int));
            assert(ls.take(i + 1).last() == v@[i as int]@);
        }
        i += 1;
    }
    assert(ls.take(v@.len() as int) =~= ls);
    s
}

} // verus!
