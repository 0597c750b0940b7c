//! The scanner: source text to tokens, with the reports of lexical errors.
//!
//! `scan_spec` states the lexical grammar as a function of the source; the
//! scanner below is proved to compute it.

use vstd::prelude::*;
use crate::error::ErrorSink;
use crate::lox::{error_text, fmt_error};
use crate::number::{ieee_parse, plain_numeral, Number};
use crate::text::{chars_of, is_digit, is_digit_spec, push_char, text_from_chars, text_of};
use crate::token::{keyword_spec, keyword_type, Literal, LiteralView, Token, TokenType, TokenType as TT, TokenView};

verus! {

// ---------------------------------------------------------------------------
// The lexical grammar.

/// The character at `i`, or the end marker `'\0'` past the end.
pub open spec fn peek_at(s: Seq<char>, i: int) -> char {
    if 0 <= i < s.len() { s[i] } else { '\0' }
}

/// Scanning stops at the end of the source or at a `'\0'` in it.
pub open spec fn at_end(s: Seq<char>, i: int) -> bool {
    peek_at(s, i) == '\0'
}

pub open spec fn is_alpha_spec(c: char) -> bool {
    ('a' <= c && c <= 'z') || ('A' <= c && c <= 'Z') || c == '_'
}

pub open spec fn is_alnum_spec(c: char) -> bool {
    is_alpha_spec(c) || is_digit_spec(c)
}

/// The end of the run of digits that starts at `i`.
pub open spec fn digits_end(s: Seq<char>, i: int) -> int
    decreases s.len() - i,
{
    if 0 <= i < s.len() && is_digit_spec(s[i]) {
        digits_end(s, i + 1)
    } else {
        i
    }
}

/// The end of the run of letters, digits and `_` that starts at `i`.
pub open spec fn word_end(s: Seq<char>, i: int) -> int
    decreases s.len() - i,
{
    if 0 <= i < s.len() && is_alnum_spec(s[i]) {
        word_end(s, i + 1)
    } else {
        i
    }
}

/// The end of a `//` comment whose text starts at `i`: the next newline, or the end.
pub open spec fn line_comment_end(s: Seq<char>, i: int) -> int
    decreases s.len() - i,
{
    if at_end(s, i) || s[i] == '\n' {
        i
    } else {
        line_comment_end(s, i + 1)
    }
}

/// The position of the closing quote of a string whose text starts at `i`,
/// or the end of the source.
pub open spec fn string_end(s: Seq<char>, i: int) -> int
    decreases s.len() - i,
{
    if at_end(s, i) || s[i] == '"' {
        i
    } else {
        string_end(s, i + 1)
    }
}

/// The number of newlines in `s[from..to]`.
pub open spec fn newlines(s: Seq<char>, from: int, to: int) -> nat
    decreases to - from,
{
    if to <= from {
        0
    } else {
        newlines(s, from, to - 1) + if s[to - 1] == '\n' { 1nat } else { 0nat }
    }
}

/// Where a block comment ends and the line there, given its text from `i` on,
/// `depth` comments open: `/*` and `*/` nest; an unclosed comment runs to the end.
pub open spec fn block_comment_end(s: Seq<char>, i: int, depth: nat, line: nat) -> (int, nat)
    decreases s.len() - i,
{
    if at_end(s, i) {
        (i, line)
    } else if s[i] == '*' && peek_at(s, i + 1) == '/' {
        if depth <= 1 {
            (i + 2, line)
        } else {
            block_comment_end(s, i + 2, (depth - 1) as nat, line)
        }
    } else if s[i] == '/' && peek_at(s, i + 1) == '*' {
        block_comment_end(s, i + 2, depth + 1, line)
    } else if s[i] == '\n' {
        block_comment_end(s, i + 1, depth, line + 1)
    } else {
        block_comment_end(s, i + 1, depth, line)
    }
}

/// The end of a number literal whose first digit is at `start`.
pub open spec fn number_end(s: Seq<char>, start: int) -> int {
    let d = digits_end(s, start + 1);
    if peek_at(s, d) == '.' && is_digit_spec(peek_at(s, d + 1)) {
        digits_end(s, d + 1)
    } else {
        d
    }
}

/// What one scanning step does: where it stops, the line there, and the
/// token or the report it adds, if any.
pub struct ScanStep {
    pub next: int,
    pub line: nat,
    pub token: Option<TokenView>,
    pub error: Option<Seq<char>>,
}

pub open spec fn token_step(s: Seq<char>, start: int, next: int, line: nat, tt: TokenType) -> ScanStep {
    ScanStep {
        next,
        line,
        token: Some(TokenView { token_type: tt, lexeme: s.subrange(start, next), literal: None, line }),
        error: None,
    }
}

pub open spec fn skip_step(next: int, line: nat) -> ScanStep {
    ScanStep { next, line, token: None, error: None }
}

/// The single-character token kinds.
pub open spec fn single_char_token(c: char) -> Option<TokenType> {
    if c == '(' { Some(TT::LEFT_PAREN) }
    else if c == ')' { Some(TT::RIGHT_PAREN) }
    else if c == '{' { Some(TT::LEFT_BRACE) }
    else if c == '}' { Some(TT::RIGHT_BRACE) }
    else if c == ',' { Some(TT::COMMA) }
    else if c == '.' { Some(TT::DOT) }
    else if c == '-' { Some(TT::MINUS) }
    else if c == '+' { Some(TT::PLUS) }
    else if c == ';' { Some(TT::SEMICOLON) }
    else if c == '*' { Some(TT::STAR) }
    else if c == '?' { Some(TT::QUESTION) }
    else if c == ':' { Some(TT::COLON) }
    else { None }
}

/// The token kinds of `!`, `=`, `<`, `>`, alone and followed by `=`.
pub open spec fn operator_tokens(c: char) -> Option<(TokenType, TokenType)> {
    if c == '!' { Some((TT::BANG_EQUAL, TT::BANG)) }
    else if c == '=' { Some((TT::EQUAL_EQUAL, TT::EQUAL)) }
    else if c == '<' { Some((TT::LESS_EQUAL, TT::LESS)) }
    else if c == '>' { Some((TT::GREATER_EQUAL, TT::GREATER)) }
    else { None }
}

/// The step of a `/`: a line comment, a (nesting) block comment, or the slash token.
pub open spec fn slash_step(s: Seq<char>, start: int, line: nat) -> ScanStep {
    let i = start + 1;
    if peek_at(s, i) == '/' {
        skip_step(line_comment_end(s, i), line)
    } else if peek_at(s, i) == '*' {
        let (e, l) = block_comment_end(s, i + 1, 1, line);
        skip_step(e, l)
    } else {
        token_step(s, start, i, line, TT::SLASH)
    }
}

/// The step of a `"`: a string token, with the lines it spans, or the report
/// of an unterminated string.
pub open spec fn string_step(s: Seq<char>, start: int, line: nat) -> ScanStep {
    let i = start + 1;
    let e = string_end(s, i);
    let l = line + newlines(s, i, e);
    if at_end(s, e) {
        ScanStep { next: e, line: l, token: None, error: Some(error_text(l, Seq::empty(), "Unterminated string."@)) }
    } else {
        ScanStep {
            next: e + 1,
            line: l,
            token: Some(TokenView {
                token_type: TT::STRING,
                lexeme: s.subrange(start, e + 1),
                literal: Some(LiteralView::Str(s.subrange(i, e))),
                line: l,
            }),
            error: None,
        }
    }
}

/// The step of a digit: a number token, `digits ( '.' digits )?`, with its value.
pub open spec fn number_step(s: Seq<char>, start: int, line: nat) -> ScanStep {
    let e = number_end(s, start);
    let lexeme = s.subrange(start, e);
    ScanStep {
        next: e,
        line,
        token: Some(TokenView {
            token_type: TT::NUMBER,
            lexeme,
            literal: Some(LiteralView::Num(ieee_parse(lexeme)->0)),
            line,
        }),
        error: None,
    }
}

/// The step of a letter or `_`: a keyword or an identifier.
pub open spec fn identifier_step(s: Seq<char>, start: int, line: nat) -> ScanStep {
    let e = word_end(s, start + 1);
    let lexeme = s.subrange(start, e);
    let tt = match keyword_spec(lexeme) {
        Some(k) => k,
        None => TT::IDENTIFIER,
    };
    token_step(s, start, e, line, tt)
}

/// One scanning step from `start`, which is not at the end, on `line`.
pub open spec fn scan_step(s: Seq<char>, start: int, line: nat) -> ScanStep {
    let c = s[start];
    let i = start + 1;
    if single_char_token(c) is Some {
        token_step(s, start, i, line, single_char_token(c)->0)
    } else if operator_tokens(c) is Some {
        let (two, one) = operator_tokens(c)->0;
        if peek_at(s, i) == '=' {
            token_step(s, start, i + 1, line, two)
        } else {
            token_step(s, start, i, line, one)
        }
    } else if c == '/' {
        slash_step(s, start, line)
    } else if c == ' ' || c == '\r' || c == '\t' {
        skip_step(i, line)
    } else if c == '\n' {
        skip_step(i, line + 1)
    } else if c == '"' {
        string_step(s, start, line)
    } else if is_digit_spec(c) {
        number_step(s, start, line)
    } else if is_alpha_spec(c) {
        identifier_step(s, start, line)
    } else {
        ScanStep { next: i, line, token: None, error: Some(error_text(line, Seq::empty(), "Unexpected character: "@ + seq![c])) }
    }
}

pub open spec fn opt_seq<A>(o: Option<A>) -> Seq<A> {
    match o {
        Some(a) => seq![a],
        None => Seq::empty(),
    }
}

/// The tokens and reports of scanning from `pos` on `line`, and the last line.
pub struct ScanOutcome {
    pub tokens: Seq<TokenView>,
    pub errors: Seq<Seq<char>>,
    pub line: nat,
}

pub open spec fn scan_from(s: Seq<char>, pos: int, line: nat) -> ScanOutcome
    decreases s.len() - pos,
{
    if at_end(s, pos) {
        ScanOutcome { tokens: Seq::empty(), errors: Seq::empty(), line }
    } else {
        let st = scan_step(s, pos, line);
        proof {
            lemma_scan_step(s, pos, line);
        }
        let rest = scan_from(s, st.next, st.line);
        ScanOutcome {
            tokens: opt_seq(st.token) + rest.tokens,
            errors: opt_seq(st.error) + rest.errors,
            line: rest.line,
        }
    }
}

/// The end-of-file token on `line`.
pub open spec fn eof_token(line: nat) -> TokenView {
    TokenView { token_type: TT::EOF, lexeme: Seq::empty(), literal: None, line }
}

/// The tokens of a whole source, ending with the end-of-file token, and the
/// reports of its lexical errors, in order.
pub open spec fn scan_spec(s: Seq<char>) -> (Seq<TokenView>, Seq<Seq<char>>) {
    let o = scan_from(s, 0, 1);
    (o.tokens.push(eof_token(o.line)), o.errors)
}

pub open spec fn tokens_view(v: Seq<Token>) -> Seq<TokenView> {
    v.map_values(|t: Token| t@)
}

// ---------------------------------------------------------------------------
// Facts about the grammar.

proof fn lemma_digits_end(s: Seq<char>, i: int)
    requires
        0 <= i <= s.len(),
    ensures
        i <= digits_end(s, i) <= s.len(),
        forall|k: int| i <= k < digits_end(s, i) ==> is_digit_spec(#[trigger] s[k]),
    decreases s.len() - i,
{
    if 0 <= i < s.len() && is_digit_spec(s[i]) {
        lemma_digits_end(s, i + 1);
    }
}

proof fn lemma_word_end(s: Seq<char>, i: int)
    requires
        0 <= i <= s.len(),
    ensures
        i <= word_end(s, i) <= s.len(),
    decreases s.len() - i,
{
    if 0 <= i < s.len() && is_alnum_spec(s[i]) {
        lemma_word_end(s, i + 1);
    }
}

proof fn lemma_line_comment_end(s: Seq<char>, i: int)
    requires
        0 <= i <= s.len(),
    ensures
        i <= line_comment_end(s, i) <= s.len(),
    decreases s.len() - i,
{
    if !(at_end(s, i) || s[i] == '\n') {
        lemma_line_comment_end(s, i + 1);
    }
}

proof fn lemma_string_end(s: Seq<char>, i: int)
    requires
        0 <= i <= s.len(),
    ensures
        i <= string_end(s, i) <= s.len(),
        newlines(s, i, string_end(s, i)) <= string_end(s, i) - i,
    decreases s.len() - i,
{
    if !(at_end(s, i) || s[i] == '"') {
        lemma_string_end(s, i + 1);
        lemma_newlines_shift(s, i, string_end(s, i));
    }
}

/// Counting newlines from `i` is the first character's count plus the rest's.
proof fn lemma_newlines_shift(s: Seq<char>, i: int, to: int)
    requires
        0 <= i < to <= s.len(),
    ensures
        newlines(s, i, to) == newlines(s, i + 1, to) + if s[i] == '\n' { 1nat } else { 0nat },
        newlines(s, i, to) <= to - i,
    decreases to - i,
{
    if to - 1 > i {
        lemma_newlines_shift(s, i, to - 1);
        assert(newlines(s, i + 1, to) == newlines(s, i + 1, to - 1) + if s[to - 1] == '\n' { 1nat } else { 0nat });
    } else {
        assert(newlines(s, i, i) == 0);
        assert(newlines(s, i + 1, i + 1) == 0);
    }
}

proof fn lemma_block_comment_end(s: Seq<char>, i: int, depth: nat, line: nat)
    requires
        0 <= i <= s.len(),
    ensures
        i <= block_comment_end(s, i, depth, line).0 <= s.len(),
        line <= block_comment_end(s, i, depth, line).1,
        block_comment_end(s, i, depth, line).1 - line <= block_comment_end(s, i, depth, line).0 - i,
    decreases s.len() - i,
{
    if at_end(s, i) {
    } else if s[i] == '*' && peek_at(s, i + 1) == '/' {
        if depth > 1 {
            lemma_block_comment_end(s, i + 2, (depth - 1) as nat, line);
        }
    } else if s[i] == '/' && peek_at(s, i + 1) == '*' {
        lemma_block_comment_end(s, i + 2, depth + 1, line);
    } else if s[i] == '\n' {
        lemma_block_comment_end(s, i + 1, depth, line + 1);
    } else {
        lemma_block_comment_end(s, i + 1, depth, line);
    }
}

proof fn lemma_number(s: Seq<char>, start: int)
    requires
        0 <= start < s.len(),
        is_digit_spec(s[start]),
    ensures
        start < number_end(s, start) <= s.len(),
        plain_numeral(s.subrange(start, number_end(s, start))),
{
    lemma_digits_end(s, start + 1);
    let d = digits_end(s, start + 1);
    let e = number_end(s, start);
    let lex = s.subrange(start, e);
    if peek_at(s, d) == '.' && is_digit_spec(peek_at(s, d + 1)) {
        lemma_digits_end(s, d + 1);
        assert forall|i: int| 0 <= i < lex.len() implies is_digit_spec(#[trigger] lex[i]) || lex[i] == '.' by {
            if start + i != d && i > 0 {
                assert(is_digit_spec(s[start + i]));
            }
        }
        assert forall|i: int, j: int| #![trigger lex[i], lex[j]] 0 <= i < j < lex.len() && lex[i] == '.' implies lex[j] != '.' by {
            if i > 0 && start + i != d {
                assert(is_digit_spec(s[start + i]));
            }
            if start + i == d {
                assert(is_digit_spec(s[start + j]));
            }
        }
    } else {
        assert forall|i: int| 0 <= i < lex.len() implies is_digit_spec(#[trigger] lex[i]) || lex[i] == '.' by {
            if i > 0 {
                assert(is_digit_spec(s[start + i]));
            }
        }
        assert forall|i: int, j: int| #![trigger lex[i], lex[j]] 0 <= i < j < lex.len() && lex[i] == '.' implies lex[j] != '.' by {
            if i > 0 {
                assert(is_digit_spec(s[start + i]));
            }
        }
    }
}

/// Each step advances, stays within the source, and counts at most one line
/// per character it passes.
pub proof fn lemma_scan_step(s: Seq<char>, start: int, line: nat)
    requires
        0 <= start < s.len(),
        !at_end(s, start),
    ensures
        start < scan_step(s, start, line).next <= s.len(),
        line <= scan_step(s, start, line).line,
        scan_step(s, start, line).line - line <= scan_step(s, start, line).next - start,
{
    let c = s[start];
    let i = start + 1;
    if single_char_token(c) is Some {
    } else if operator_tokens(c) is Some {
    } else if c == '/' {
        if peek_at(s, i) == '/' {
            lemma_line_comment_end(s, i);
        } else if peek_at(s, i) == '*' {
            lemma_block_comment_end(s, i + 1, 1, line);
        }
    } else if c == ' ' || c == '\r' || c == '\t' {
    } else if c == '\n' {
    } else if c == '"' {
        lemma_string_end(s, i);
    } else if is_digit_spec(c) {
        lemma_number(s, start);
    } else if is_alpha_spec(c) {
        lemma_word_end(s, i);
    }
}

// ---------------------------------------------------------------------------
// The scanner.

/// The character end marker that `peek` returns past the end.
pub const EOF_CHAR: char = '\0';

/// A position in the source characters.
pub struct Cursor {
    pub chars: Vec<char>,
    pub current: usize,
}

impl Cursor {
    /// Takes the current character and moves past it.
    pub fn advance(&mut self) -> (c: char)
        requires
            old(self).current < old(self).chars.len(),
        ensures
            c == old(self).chars@[old(self).current as int],
            final(self).chars == old(self).chars,
            final(self).current == old(self).current + 1,
    {
        let c = self.chars[self.current];
        self.current = self.current + 1;
        c
    }

    /// The current character, or `'\0'` at the end.
    pub fn peek(&self) -> (c: char)
        ensures
            c == peek_at(self.chars@, self.current as int),
    {
        if self.current < self.chars.len() {
            self.chars[self.current]
        } else {
            EOF_CHAR
        }
    }

    /// The character after the current one, or `'\0'` past the end.
    pub fn peek_next(&self) -> (c: char)
        ensures
            c == peek_at(self.chars@, self.current + 1),
    {
        if self.current < self.chars.len() && self.current + 1 < self.chars.len() {
            self.chars[self.current + 1]
        } else {
            EOF_CHAR
        }
    }

    /// The scanning is at its end: the end of the source or a `'\0'`.
    pub fn is_at_end(&self) -> (r: bool)
        ensures
            r == at_end(self.chars@, self.current as int),
    {
        self.peek() == EOF_CHAR
    }
}

/// The scanner's state: the source, the tokens and reports so far, the
/// start of the current lexeme, and the current line.
pub struct Scanner {
    cursor: Cursor,
    tokens: Vec<Token>,
    start: usize,
    line: usize,
    pub has_error: bool,
    errors: ErrorSink,
}

/// What a whole scan gives: the tokens, and the reports where there were any.
pub enum ScanResult {
    Clean(Vec<Token>),
    WithErrors(ErrorSink, Vec<Token>),
}

impl Scanner {
    /// The source characters.
    pub closed spec fn source(&self) -> Seq<char> {
        self.cursor.chars@
    }

    /// Where scanning stands.
    pub closed spec fn position(&self) -> int {
        self.cursor.current as int
    }

    /// The current line.
    pub closed spec fn current_line(&self) -> nat {
        self.line as nat
    }

    /// The tokens so far.
    pub closed spec fn tokens_so_far(&self) -> Seq<TokenView> {
        tokens_view(self.tokens@)
    }

    /// The reports so far.
    pub closed spec fn errors_so_far(&self) -> Seq<Seq<char>> {
        self.errors@
    }

    /// The state is consistent: the position is within the source, the line
    /// count is bounded by the characters passed, and counting fits a `usize`.
    pub closed spec fn wf(&self) -> bool {
        &&& self.cursor.current <= self.cursor.chars.len()
        &&& self.start <= self.cursor.current
        &&& 1 <= self.line <= self.cursor.current + 1
        &&& self.cursor.chars.len() < usize::MAX
        &&& self.has_error == (self.errors@.len() > 0)
    }

    /// A scanner at the start of `source`.
    pub fn new(source: &str) -> (r: Scanner)
        requires
            source@.len() < usize::MAX,
        ensures
            r.wf(),
            r.source() == source@,
            r.position() == 0,
            r.current_line() == 1,
            r.tokens_so_far() == Seq::<TokenView>::empty(),
            r.errors_so_far() == Seq::<Seq<char>>::empty(),
    {
        let chars = chars_of(source);
        let r = Scanner {
            cursor: Cursor { chars, current: 0 },
            tokens: Vec::new(),
            start: 0,
            line: 1,
            has_error: false,
            errors: ErrorSink::new(),
        };
        assert(r.tokens_so_far() =~= Seq::<TokenView>::empty());
        r
    }

    /// Scans the rest of the source and adds the end-of-file token.
    pub fn scan_tokens(&mut self)
        requires
            old(self).wf(),
        ensures
            final(self).wf(),
            final(self).source() == old(self).source(),
            ({
                let o = scan_from(old(self).source(), old(self).position(), old(self).current_line());
                &&& final(self).tokens_so_far() == old(self).tokens_so_far() + o.tokens.push(eof_token(o.line))
                &&& final(self).errors_so_far() == old(self).errors_so_far() + o.errors
            }),
    {
        let ghost s = self.cursor.chars@;
        let ghost o = scan_from(s, self.cursor.current as int, self.line as nat);
        let ghost toks0 = tokens_view(self.tokens@);
        let ghost errs0 = self.errors@;
        while !self.is_at_end()
            invariant
                self.wf(),
                self.cursor.chars@ == s,
                ({
                    let rest = scan_from(s, self.cursor.current as int, self.line as nat);
                    &&& toks0 + o.tokens == tokens_view(self.tokens@) + rest.tokens
                    &&& errs0 + o.errors == self.errors@ + rest.errors
                    &&& rest.line == o.line
                }),
            decreases s.len() - self.cursor.current,
        {
            let ghost pos = self.cursor.current as int;
            let ghost ln = self.line as nat;
            proof {
                lemma_scan_step(s, pos, ln);
            }
            self.start = self.cursor.current;
            self.scan_token();
            proof {
                let st = scan_step(s, pos, ln);
                let rest = scan_from(s, st.next, st.line);
                assert(scan_from(s, pos, ln).tokens == opt_seq(st.token) + rest.tokens);
                assert(toks0 + o.tokens =~= tokens_view(self.tokens@) + rest.tokens);
                assert(errs0 + o.errors =~= self.errors@ + rest.errors);
            }
        }
        assert(tokens_view(self.tokens@) =~= toks0 + o.tokens);
        let ghost before = tokens_view(self.tokens@);
        let eof = Token::new(TT::EOF, String::new(), None, self.line);
        self.tokens.push(eof);
        proof {
            assert(tokens_view(self.tokens@) =~= before.push(eof_token(o.line)));
            assert(tokens_view(self.tokens@) =~= toks0 + o.tokens.push(eof_token(o.line)));
            assert(self.errors@ =~= errs0 + o.errors);
        }
    }

    /// The tokens so far.
    pub fn tokens(&self) -> (r: &Vec<Token>)
        ensures
            tokens_view(r@) == self.tokens_so_far(),
    {
        &self.tokens
    }

    /// The reports so far.
    pub fn errors(&self) -> (r: &ErrorSink)
        ensures
            r@ == self.errors_so_far(),
    {
        &self.errors
    }

    /// Scans a whole source: its tokens, with its reports where there were any.
    pub fn scan(source: &str) -> (r: ScanResult)
        requires
            source@.len() < usize::MAX,
        ensures
            match r {
                ScanResult::Clean(tokens) => tokens_view(tokens@) == scan_spec(source@).0
                    && scan_spec(source@).1.len() == 0,
                ScanResult::WithErrors(errors, tokens) => tokens_view(tokens@) == scan_spec(source@).0
                    && errors@ == scan_spec(source@).1 && errors@.len() > 0,
            },
    {
        let mut scanner = Scanner::new(source);
        scanner.scan_tokens();
        proof {
            assert(scanner.tokens_so_far() =~= scan_spec(source@).0);
            assert(scanner.errors_so_far() =~= scan_spec(source@).1);
        }
        let Scanner { tokens, errors, has_error, .. } = scanner;
        if has_error {
            ScanResult::WithErrors(errors, tokens)
        } else {
            ScanResult::Clean(tokens)
        }
    }

    fn scan_token(&mut self)
        requires
            old(self).wf(),
            old(self).start == old(self).cursor.current,
            !at_end(old(self).cursor.chars@, old(self).cursor.current as int),
        ensures
            Self::stepped(*old(self), *final(self), scan_step(old(self).cursor.chars@, old(self).cursor.current as int, old(self).line as nat)),
    {
        let ghost s = self.cursor.chars@;
        let ghost start = self.cursor.current as int;
        let ghost st = scan_step(s, start, self.line as nat);
        proof {
            lemma_scan_step(s, start, self.line as nat);
        }
        let c = self.advance();
        if c == '(' {
            self.add_token(TT::LEFT_PAREN);
        } else if c == ')' {
            self.add_token(TT::RIGHT_PAREN);
        } else if c == '{' {
            self.add_token(TT::LEFT_BRACE);
        } else if c == '}' {
            self.add_token(TT::RIGHT_BRACE);
        } else if c == ',' {
            self.add_token(TT::COMMA);
        } else if c == '.' {
            self.add_token(TT::DOT);
        } else if c == '-' {
            self.add_token(TT::MINUS);
        } else if c == '+' {
            self.add_token(TT::PLUS);
        } else if c == ';' {
            self.add_token(TT::SEMICOLON);
        } else if c == '*' {
            self.add_token(TT::STAR);
        } else if c == '?' {
            self.add_token(TT::QUESTION);
        } else if c == ':' {
            self.add_token(TT::COLON);
        } else if c == '!' {
            self.add_token_if('=', TT::BANG_EQUAL, TT::BANG);
        } else if c == '=' {
            self.add_token_if('=', TT::EQUAL_EQUAL, TT::EQUAL);
        } else if c == '<' {
            self.add_token_if('=', TT::LESS_EQUAL, TT::LESS);
        } else if c == '>' {
            self.add_token_if('=', TT::GREATER_EQUAL, TT::GREATER);
        } else if c == '/' {
            self.comment_or_slash();
        } else if c == ' ' || c == '\r' || c == '\t' {
        } else if c == '\n' {
            self.line = self.line + 1;
        } else if c == '"' {
            self.string();
        } else if is_digit(c) {
            self.number();
        } else if Self::is_alpha(c) {
            self.identifier();
        } else {
            let mut msg = text_of("Unexpected character: ");
            push_char(&mut msg, c);
            self.error(msg.as_str());
            assert(msg@ == "Unexpected character: "@ + seq![c]);
        }
        assert(tokens_view(self.tokens@) =~= tokens_view(old(self).tokens@) + opt_seq(st.token));
        assert(self.errors@ =~= old(self).errors@ + opt_seq(st.error));
    }

    fn advance(&mut self) -> (c: char)
        requires
            old(self).cursor.current < old(self).cursor.chars.len(),
            old(self).wf(),
        ensures
            c == old(self).cursor.chars@[old(self).cursor.current as int],
            final(self).cursor.chars == old(self).cursor.chars,
            final(self).cursor.current == old(self).cursor.current + 1,
            final(self).tokens == old(self).tokens,
            final(self).errors == old(self).errors,
            final(self).line == old(self).line,
            final(self).start == old(self).start,
            final(self).has_error == old(self).has_error,
    {
        self.cursor.advance()
    }

    fn peek(&self) -> (c: char)
        ensures
            c == peek_at(self.cursor.chars@, self.cursor.current as int),
    {
        self.cursor.peek()
    }

    fn peek_next(&self) -> (c: char)
        ensures
            c == peek_at(self.cursor.chars@, self.cursor.current + 1),
    {
        self.cursor.peek_next()
    }

    fn is_at_end(&self) -> (r: bool)
        ensures
            r == at_end(self.cursor.chars@, self.cursor.current as int),
    {
        self.cursor.is_at_end()
    }

    fn error(&mut self, message: &str)
        requires
            old(self).wf(),
        ensures
            final(self).wf(),
            final(self).errors@ == old(self).errors@.push(error_text(old(self).line as nat, Seq::empty(), message@)),
            final(self).cursor == old(self).cursor,
            final(self).tokens == old(self).tokens,
            final(self).line == old(self).line,
            final(self).start == old(self).start,
    {
        let report = fmt_error(self.line, message);
        self.errors.append(report.as_str());
        self.has_error = true;
    }

    fn add_token(&mut self, token_type: TokenType)
        requires
            old(self).wf(),
        ensures
            final(self).wf(),
            tokens_view(final(self).tokens@) == tokens_view(old(self).tokens@).push(TokenView {
                token_type,
                lexeme: old(self).cursor.chars@.subrange(old(self).start as int, old(self).cursor.current as int),
                literal: None,
                line: old(self).line as nat,
            }),
            final(self).cursor == old(self).cursor,
            final(self).errors == old(self).errors,
            final(self).line == old(self).line,
            final(self).start == old(self).start,
    {
        self.add_token_with_literal(token_type, None);
    }

    fn add_token_with_literal(&mut self, token_type: TokenType, literal: Option<Literal>)
        requires
            old(self).wf(),
        ensures
            final(self).wf(),
            tokens_view(final(self).tokens@) == tokens_view(old(self).tokens@).push(TokenView {
                token_type,
                lexeme: old(self).cursor.chars@.subrange(old(self).start as int, old(self).cursor.current as int),
                literal: match literal {
                    Some(l) => Some(l@),
                    None => None,
                },
                line: old(self).line as nat,
            }),
            final(self).cursor == old(self).cursor,
            final(self).errors == old(self).errors,
            final(self).line == old(self).line,
            final(self).start == old(self).start,
    {
        let lexeme = text_from_chars(&self.cursor.chars, self.start, self.cursor.current);
        let token = Token::new(token_type, lexeme, literal, self.line);
        self.tokens.push(token);
        assert(tokens_view(self.tokens@) =~= tokens_view(old(self).tokens@).push(token@));
    }

    /// `new` is `old` after the step `st` from the start of the lexeme.
    closed spec fn stepped(old: Scanner, new: Scanner, st: ScanStep) -> bool {
        &&& new.wf()
        &&& new.cursor.chars@ == old.cursor.chars@
        &&& new.cursor.current == st.next
        &&& new.line == st.line
        &&& tokens_view(new.tokens@) == tokens_view(old.tokens@) + opt_seq(st.token)
        &&& new.errors@ == old.errors@ + opt_seq(st.error)
    }

    fn add_token_if(&mut self, expected_next: char, left: TokenType, right: TokenType)
        requires
            old(self).wf(),
            old(self).start + 1 == old(self).cursor.current,
            expected_next != EOF_CHAR,
        ensures
            ({
                let s = old(self).cursor.chars@;
                let i = old(self).cursor.current as int;
                Self::stepped(*old(self), *final(self), if peek_at(s, i) == expected_next {
                    token_step(s, old(self).start as int, i + 1, old(self).line as nat, left)
                } else {
                    token_step(s, old(self).start as int, i, old(self).line as nat, right)
                })
            }),
    {
        let ghost s = self.cursor.chars@;
        let ghost i = self.cursor.current as int;
        let ghost st = if peek_at(s, i) == expected_next {
            token_step(s, self.start as int, i + 1, self.line as nat, left)
        } else {
            token_step(s, self.start as int, i, self.line as nat, right)
        };
        if self.peek() == expected_next {
            self.advance();
            self.add_token(left);
        } else {
            self.add_token(right);
        }
        assert(tokens_view(self.tokens@) =~= tokens_view(old(self).tokens@) + opt_seq(st.token));
        assert(self.errors@ =~= old(self).errors@ + Seq::<Seq<char>>::empty());
    }

    fn comment_or_slash(&mut self)
        requires
            old(self).wf(),
            old(self).start + 1 == old(self).cursor.current,
        ensures
            Self::stepped(*old(self), *final(self), slash_step(old(self).cursor.chars@, old(self).start as int, old(self).line as nat)),
    {
        let ghost s = self.cursor.chars@;
        let ghost i = self.cursor.current as int;
        let ch = self.peek();
        if ch == '/' {
            proof {
                lemma_line_comment_end(s, i);
            }
            while self.peek() != '\n' && !self.is_at_end()
                invariant
                    self.wf(),
                    self.cursor.chars@ == s,
                    i <= self.cursor.current,
                    line_comment_end(s, self.cursor.current as int) == line_comment_end(s, i),
                    self.tokens == old(self).tokens,
                    self.errors == old(self).errors,
                    self.line == old(self).line,
                decreases s.len() - self.cursor.current,
            {
                self.advance();
            }
        } else if ch == '*' {
            self.advance();
            self.block_comment();
        } else {
            self.add_token(TT::SLASH);
        }
        assert(tokens_view(self.tokens@) =~= tokens_view(old(self).tokens@) + opt_seq(slash_step(s, old(self).start as int, old(self).line as nat).token));
        assert(self.errors@ =~= old(self).errors@ + Seq::<Seq<char>>::empty());
    }

    /// Skips a block comment whose `/*` was just read; comments nest.
    fn block_comment(&mut self)
        requires
            old(self).wf(),
        ensures
            final(self).wf(),
            ({
                let (e, l) = block_comment_end(old(self).cursor.chars@, old(self).cursor.current as int, 1, old(self).line as nat);
                &&& final(self).cursor.chars@ == old(self).cursor.chars@
                &&& final(self).cursor.current == e
                &&& final(self).line == l
            }),
            final(self).tokens == old(self).tokens,
            final(self).errors == old(self).errors,
    {
        let ghost s = self.cursor.chars@;
        let ghost target = block_comment_end(s, self.cursor.current as int, 1, self.line as nat);
        let mut depth: usize = 1;
        let mut done = false;
        proof {
            lemma_block_comment_end(s, self.cursor.current as int, 1, self.line as nat);
        }
        while !done && !self.is_at_end()
            invariant
                self.wf(),
                self.cursor.chars@ == s,
                1 <= depth <= self.cursor.current + 1,
                !done ==> block_comment_end(s, self.cursor.current as int, depth as nat, self.line as nat) == target,
                done ==> (self.cursor.current as int, self.line as nat) == target,
                self.tokens == old(self).tokens,
                self.errors == old(self).errors,
            decreases s.len() - self.cursor.current,
        {
            proof {
                lemma_block_comment_end(s, self.cursor.current as int, depth as nat, self.line as nat);
            }
            let c = self.peek();
            let d = self.peek_next();
            if c == '*' && d == '/' {
                self.advance();
                self.advance();
                if depth <= 1 {
                    done = true;
                } else {
                    depth = depth - 1;
                }
            } else if c == '/' && d == '*' {
                self.advance();
                self.advance();
                depth = depth + 1;
            } else if c == '\n' {
                self.advance();
                self.line = self.line + 1;
            } else {
                self.advance();
            }
        }
    }

    fn string(&mut self)
        requires
            old(self).wf(),
            old(self).start + 1 == old(self).cursor.current,
        ensures
            Self::stepped(*old(self), *final(self), string_step(old(self).cursor.chars@, old(self).start as int, old(self).line as nat)),
    {
        let ghost s = self.cursor.chars@;
        let ghost i = self.cursor.current as int;
        proof {
            lemma_string_end(s, i);
        }
        while self.peek() != '"' && !self.is_at_end()
            invariant
                self.wf(),
                self.cursor.chars@ == s,
                0 <= i <= self.cursor.current,
                string_end(s, self.cursor.current as int) == string_end(s, i),
                self.line == old(self).line + newlines(s, i, self.cursor.current as int),
                self.tokens == old(self).tokens,
                self.errors == old(self).errors,
                self.start == old(self).start,
            decreases s.len() - self.cursor.current,
        {
            proof {
                lemma_newlines_shift(s, i, self.cursor.current as int + 1);
            }
            let c = self.advance();
            if c == '\n' {
                self.line = self.line + 1;
            }
        }
        if self.is_at_end() {
            self.error("Unterminated string.");
            assert(tokens_view(self.tokens@) =~= tokens_view(old(self).tokens@) + Seq::<TokenView>::empty());
            assert(self.errors@ =~= old(self).errors@ + opt_seq(string_step(s, old(self).start as int, old(self).line as nat).error));
            return;
        }
        self.advance();
        let value = text_from_chars(&self.cursor.chars, self.start + 1, self.cursor.current - 1);
        self.add_token_with_literal(TT::STRING, Some(Literal::Str(value)));
        assert(tokens_view(self.tokens@) =~= tokens_view(old(self).tokens@) + opt_seq(string_step(s, old(self).start as int, old(self).line as nat).token));
        assert(self.errors@ =~= old(self).errors@ + Seq::<Seq<char>>::empty());
    }

    fn number(&mut self)
        requires
            old(self).wf(),
            old(self).start + 1 == old(self).cursor.current,
            is_digit_spec(old(self).cursor.chars@[old(self).start as int]),
        ensures
            Self::stepped(*old(self), *final(self), number_step(old(self).cursor.chars@, old(self).start as int, old(self).line as nat)),
    {
        let ghost s = self.cursor.chars@;
        let ghost start = self.start as int;
        proof {
            lemma_number(s, start);
        }
        while is_digit(self.peek())
            invariant
                self.wf(),
                self.cursor.chars@ == s,
                start + 1 <= self.cursor.current,
                digits_end(s, self.cursor.current as int) == digits_end(s, start + 1),
                self.tokens == old(self).tokens,
                self.errors == old(self).errors,
                self.line == old(self).line,
                self.start == old(self).start,
            decreases s.len() - self.cursor.current,
        {
            self.advance();
        }
        let ghost d = self.cursor.current as int;
        if self.peek() == '.' && is_digit(self.peek_next()) {
            self.advance();
            while is_digit(self.peek())
                invariant
                    self.wf(),
                    self.cursor.chars@ == s,
                    d + 1 <= self.cursor.current,
                    digits_end(s, self.cursor.current as int) == digits_end(s, d + 1),
                    self.tokens == old(self).tokens,
                    self.errors == old(self).errors,
                    self.line == old(self).line,
                    self.start == old(self).start,
                decreases s.len() - self.cursor.current,
            {
                self.advance();
            }
        }
        let lexeme = text_from_chars(&self.cursor.chars, self.start, self.cursor.current);
        let value = Number::parse_decimal(lexeme.as_str());
        match value {
            Some(n) => {
                self.add_token_with_literal(TT::NUMBER, Some(Literal::Num(n)));
            }
            None => {
                assert(false);
            }
        }
        assert(tokens_view(self.tokens@) =~= tokens_view(old(self).tokens@) + opt_seq(number_step(s, start, old(self).line as nat).token));
        assert(self.errors@ =~= old(self).errors@ + Seq::<Seq<char>>::empty());
    }

    fn is_alpha(c: char) -> (r: bool)
        ensures
            r == is_alpha_spec(c),
    {
        ('a' <= c && c <= 'z') || ('A' <= c && c <= 'Z') || c == '_'
    }

    fn is_alphanumeric(c: char) -> (r: bool)
        ensures
            r == is_alnum_spec(c),
    {
        Self::is_alpha(c) || is_digit(c)
    }

    fn identifier(&mut self)
        requires
            old(self).wf(),
            old(self).start + 1 == old(self).cursor.current,
        ensures
            Self::stepped(*old(self), *final(self), identifier_step(old(self).cursor.chars@, old(self).start as int, old(self).line as nat)),
    {
        let ghost s = self.cursor.chars@;
        let ghost start = self.start as int;

        while Self::is_alphanumeric(self.peek())
            invariant
                self.wf(),
                self.cursor.chars@ == s,
                start + 1 <= self.cursor.current,
                word_end(s, self.cursor.current as int) == word_end(s, start + 1),
                self.tokens == old(self).tokens,
                self.errors == old(self).errors,
                self.line == old(self).line,
                self.start == old(self).start,
            decreases s.len() - self.cursor.current,
        {
            self.advance();
        }
        let lexeme = text_from_chars(&self.cursor.chars, self.start, self.cursor.current);
        let token_type = match keyword_type(&lexeme) {
            Some(k) => k,
            None => TT::IDENTIFIER,
        };
        self.add_token(token_type);
        assert(tokens_view(self.tokens@) =~= tokens_view(old(self).tokens@) + opt_seq(identifier_step(s, start, old(self).line as nat).token));
        assert(self.errors@ =~= old(self).errors@ + Seq::<Seq<char>>::empty());
    }
}

} // verus!

verus! {

/// A step's token is on the line the step ends on.
proof fn lemma_step_token_line(s: Seq<char>, start: int, line: nat)
    requires
        0 <= start < s.len(),
    ensures
        scan_step(s, start, line).token matches Some(t) ==> t.line == scan_step(s, start, line).line,
{
}

proof fn lemma_scan_lines(s: Seq<char>, pos: int, line: nat)
    requires
        0 <= pos,
    ensures
        line <= scan_from(s, pos, line).line,
        forall|i: int| 0 <= i < scan_from(s, pos, line).tokens.len() ==>
            line <= #[trigger] scan_from(s, pos, line).tokens[i].line <= scan_from(s, pos, line).line,
        forall|i: int, j: int| 0 <= i <= j < scan_from(s, pos, line).tokens.len() ==>
            #[trigger] scan_from(s, pos, line).tokens[i].line <= #[trigger] scan_from(s, pos, line).tokens[j].line,
    decreases s.len() - pos,
{
    if !at_end(s, pos) {
        lemma_scan_step(s, pos, line);
        lemma_step_token_line(s, pos, line);
        let st = scan_step(s, pos, line);
        lemma_scan_lines(s, st.next, st.line);
        let rest = scan_from(s, st.next, st.line);
        let ts = scan_from(s, pos, line).tokens;
        assert(ts == opt_seq(st.token) + rest.tokens);
        let h = opt_seq(st.token).len();
        assert forall|i: int| 0 <= i < ts.len() implies line <= #[trigger] ts[i].line <= scan_from(s, pos, line).line by {
            if i >= h {
                assert(ts[i] == rest.tokens[i - h]);
            }
        }
        assert forall|i: int, j: int| 0 <= i <= j < ts.len() implies #[trigger] ts[i].line <= #[trigger] ts[j].line by {
            if i >= h {
                assert(ts[i] == rest.tokens[i - h]);
                assert(ts[j] == rest.tokens[j - h]);
            } else if j >= h {
                assert(ts[j] == rest.tokens[j - h]);
            }
        }
    }
}

/// The tokens' lines start at 1 and never go down, and the end-of-file
/// token comes last, on the line where scanning stopped.
pub proof fn law_token_lines_ordered(s: Seq<char>)
    ensures
        scan_spec(s).0.len() >= 1,
        scan_spec(s).0.last().token_type == TT::EOF,
        scan_spec(s).0.last().line == scan_from(s, 0, 1).line,
        forall|i: int| 0 <= i < scan_spec(s).0.len() ==> 1 <= #[trigger] scan_spec(s).0[i].line,
        forall|i: int, j: int| 0 <= i <= j < scan_spec(s).0.len() ==>
            #[trigger] scan_spec(s).0[i].line <= #[trigger] scan_spec(s).0[j].line,
{
    lemma_scan_lines(s, 0, 1);
    let o = scan_from(s, 0, 1);
    let ts = scan_spec(s).0;
    assert(ts == o.tokens.push(eof_token(o.line)));
    assert forall|i: int| 0 <= i < ts.len() implies 1 <= #[trigger] ts[i].line by {
        if i < o.tokens.len() {
            assert(ts[i] == o.tokens[i]);
        }
    }
    assert forall|i: int, j: int| 0 <= i <= j < ts.len() implies #[trigger] ts[i].line <= #[trigger] ts[j].line by {
        if j < o.tokens.len() {
            assert(ts[i] == o.tokens[i]);
            assert(ts[j] == o.tokens[j]);
        } else if i < o.tokens.len() {
            assert(ts[i] == o.tokens[i]);
        }
    }
}

} // verus!
