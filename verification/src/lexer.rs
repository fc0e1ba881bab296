//! The lexical scanner: turns a character stream into tokens, one per
//! call, with a single position of state. Its behaviour is pinned by
//! the `scan` model below: every call returns exactly the token (or
//! scanner fault) that `scan` assigns to the current position, and
//! moves to exactly the position `scan` assigns.

use vstd::prelude::*;
use vstd::string::StrSliceExecFns;
use vstd::string::StringExecFns;
use crate::errors::ScanError;
use crate::token::SpecToken;
use crate::token::Token;

verus! {

/// Whitespace: space, tab, newline, carriage return.
pub open spec fn is_ws_char(c: char) -> bool {
    c == ' ' || c == '\t' || c == '\n' || c == '\r'
}

/// A decimal digit.
pub open spec fn is_digit_char(c: char) -> bool {
    48 <= c as int <= 57
}

/// The numeric value of a decimal digit character.
pub open spec fn digit_val(c: char) -> int {
    c as int - 48
}

/// A character that may start an identifier: an ASCII letter or an
/// underscore.
pub open spec fn is_ident_start(c: char) -> bool {
    (97 <= c as int <= 122) || (65 <= c as int <= 90) || c == '_'
}

/// A character that may continue an identifier.
pub open spec fn is_ident_char(c: char) -> bool {
    is_ident_start(c) || is_digit_char(c)
}

/// A single-character structural symbol.
pub open spec fn is_symbol_char(c: char) -> bool {
    c == ';' || c == '{' || c == '}' || c == '(' || c == ')' || c == ','
}

/// A single-character operator other than the slash.
pub open spec fn is_op_char(c: char) -> bool {
    c == '+' || c == '-' || c == '*' || c == '=' || c == '<' || c == '>'
}

/// A character at which a token begins. Every other character is
/// skipped silently: a deliberate permissive policy, not an error.
pub open spec fn is_token_start(c: char) -> bool {
    ||| is_ws_char(c)
    ||| is_ident_start(c)
    ||| is_digit_char(c)
    ||| c == '"'
    ||| is_symbol_char(c)
    ||| c == '/'
    ||| is_op_char(c)
}

/// The reserved words of the language.
pub open spec fn is_keyword(t: Seq<char>) -> bool {
    ||| t == "fn"@
    ||| t == "let"@
    ||| t == "if"@
    ||| t == "else"@
    ||| t == "while"@
    ||| t == "for"@
    ||| t == "struct"@
    ||| t == "impl"@
    ||| t == "enum"@
    ||| t == "pub"@
}

/// The end of the whitespace run beginning at `i`.
pub open spec fn ws_end(s: Seq<char>, i: int) -> int
    decreases s.len() - i,
{
    if 0 <= i < s.len() && is_ws_char(s[i]) {
        ws_end(s, i + 1)
    } else {
        i
    }
}

/// The end of the identifier run beginning at `i`.
pub open spec fn ident_end(s: Seq<char>, i: int) -> int
    decreases s.len() - i,
{
    if 0 <= i < s.len() && is_ident_char(s[i]) {
        ident_end(s, i + 1)
    } else {
        i
    }
}

/// The end of the digit run beginning at `i`.
pub open spec fn digit_end(s: Seq<char>, i: int) -> int
    decreases s.len() - i,
{
    if 0 <= i < s.len() && is_digit_char(s[i]) {
        digit_end(s, i + 1)
    } else {
        i
    }
}

/// The first newline at or after `i`, or the end of the input.
pub open spec fn newline_end(s: Seq<char>, i: int) -> int
    decreases s.len() - i,
{
    if 0 <= i < s.len() {
        if s[i] == '\n' {
            i
        } else {
            newline_end(s, i + 1)
        }
    } else {
        s.len() as int
    }
}

/// The first closing quote at or after `i`, or the end of the input.
pub open spec fn quote_end(s: Seq<char>, i: int) -> int
    decreases s.len() - i,
{
    if 0 <= i < s.len() {
        if s[i] == '"' {
            i
        } else {
            quote_end(s, i + 1)
        }
    } else {
        s.len() as int
    }
}

/// The first character at or after `i` where a token begins, or the
/// end of the input.
pub open spec fn skip_end(s: Seq<char>, i: int) -> int
    decreases s.len() - i,
{
    if 0 <= i < s.len() {
        if is_token_start(s[i]) {
            i
        } else {
            skip_end(s, i + 1)
        }
    } else {
        s.len() as int
    }
}

/// The decimal value of the digit run `s[a..b]`.
pub open spec fn run_value(s: Seq<char>, a: int, b: int) -> int
    decreases b - a,
{
    if b <= a {
        0
    } else {
        run_value(s, a, b - 1) * 10 + digit_val(s[b - 1])
    }
}

/// One step of the scanner model: the result of the next call and the
/// position the scanner stands at afterwards.
pub struct ScanStep {
    pub res: Result<SpecToken, ScanError>,
    pub end: int,
}

/// What one call of `next_token` at position `i` returns and where it
/// leaves the scanner.
pub open spec fn scan(s: Seq<char>, i: int) -> ScanStep {
    let j = skip_end(s, i);
    if j >= s.len() {
        ScanStep { res: Ok(SpecToken::Eof), end: s.len() as int }
    } else {
        let c = s[j];
        if is_ws_char(c) {
            ScanStep { res: Ok(SpecToken::Whitespace), end: ws_end(s, j) }
        } else if is_ident_start(c) {
            let k = ident_end(s, j);
            let t = s.subrange(j, k);
            if is_keyword(t) {
                ScanStep { res: Ok(SpecToken::Keyword(t)), end: k }
            } else {
                ScanStep { res: Ok(SpecToken::Identifier(t)), end: k }
            }
        } else if is_digit_char(c) {
            let k = digit_end(s, j);
            let v = run_value(s, j, k);
            if v <= i64::MAX {
                ScanStep { res: Ok(SpecToken::Number(v)), end: k }
            } else {
                ScanStep { res: Err(ScanError::NumberOutOfRange), end: k }
            }
        } else if c == '"' {
            let q = quote_end(s, j + 1);
            if q < s.len() {
                ScanStep { res: Ok(SpecToken::StringLiteral(s.subrange(j + 1, q))), end: q + 1 }
            } else {
                ScanStep { res: Err(ScanError::UnterminatedStringLiteral), end: s.len() as int }
            }
        } else if is_symbol_char(c) {
            ScanStep { res: Ok(SpecToken::Symbol(c)), end: j + 1 }
        } else if c == '/' {
            if j + 1 < s.len() && s[j + 1] == '/' {
                ScanStep { res: Ok(SpecToken::Comment), end: newline_end(s, j + 1) }
            } else {
                ScanStep { res: Ok(SpecToken::Operator(seq!['/'])), end: j + 1 }
            }
        } else {
            ScanStep { res: Ok(SpecToken::Operator(seq![c])), end: j + 1 }
        }
    }
}

/// The scanner: owns the input text, the scan position, and nothing
/// else. Repeated calls after exhaustion keep returning `Eof`.
#[derive(Debug)]
pub struct Lexer<'a> {
    input: &'a str,
    length: usize,
    position: usize,
}

impl<'a> Lexer<'a> {
    /// The length field caches the character count and the position
    /// never passes the end.
    pub closed spec fn wf(&self) -> bool {
        self.length == self.input@.len() && self.position <= self.length
    }

    /// The input text as a character sequence.
    pub closed spec fn text(&self) -> Seq<char> {
        self.input@
    }

    /// The current scan position, in characters.
    pub closed spec fn pos(&self) -> int {
        self.position as int
    }

    /// A scanner standing at the start of the given text.
    pub fn new(input: &'a str) -> (r: Lexer<'a>)
        ensures
            r.wf(),
            r.text() == input@,
            r.pos() == 0,
    {
        let length = input.unicode_len();
        Lexer { input, length, position: 0 }
    }

    /// Moves one character forward.
    fn advance(&mut self)
        requires
            old(self).wf(),
            old(self).pos() < old(self).text().len(),
        ensures
            final(self).wf(),
            final(self).text() == old(self).text(),
            final(self).pos() == old(self).pos() + 1,
    {
        self.position = self.position + 1;
    }

    /// Skips the whitespace run at the current position.
    fn skip_whitespace(&mut self)
        requires
            old(self).wf(),
        ensures
            final(self).wf(),
            final(self).text() == old(self).text(),
            final(self).pos() == ws_end(old(self).text(), old(self).pos()),
    {
        while self.position < self.length
            invariant
                self.wf(),
                self.text() == old(self).text(),
                old(self).pos() <= self.pos(),
                ws_end(self.text(), old(self).pos()) == ws_end(self.text(), self.pos()),
            decreases self.length - self.position,
        {
            let c = self.input.get_char(self.position);
            if c == ' ' || c == '\t' || c == '\n' || c == '\r' {
                self.advance();
            } else {
                return ;
            }
        }
    }

    /// Scans the identifier run at the current position and returns its
    /// text.
    fn identifier(&mut self) -> (r: String)
        requires
            old(self).wf(),
        ensures
            final(self).wf(),
            final(self).text() == old(self).text(),
            final(self).pos() == ident_end(old(self).text(), old(self).pos()),
            r@ == old(self).text().subrange(old(self).pos(), final(self).pos()),
    {
        let start = self.position;
        while self.position < self.length
            invariant
                self.wf(),
                self.text() == old(self).text(),
                start == old(self).position,
                start <= self.position,
                ident_end(self.text(), start as int) == ident_end(self.text(), self.pos()),
            ensures
                self.position == self.length || !is_ident_char(self.text()[self.pos()]),
            decreases self.length - self.position,
        {
            let c = self.input.get_char(self.position);
            let u = c as u32;
            if (97 <= u && u <= 122) || (65 <= u && u <= 90) || c == '_' || (48 <= u && u <= 57) {
                self.advance();
            } else {
                break ;
            }
        }
        self.input.substring_char(start, self.position).to_owned()
    }

    /// Scans the digit run at the current position into its decimal
    /// value; a run whose value does not fit a 64-bit signed integer is
    /// a scanner fault, never a truncated token.
    fn number(&mut self) -> (r: Result<i64, ScanError>)
        requires
            old(self).wf(),
        ensures
            final(self).wf(),
            final(self).text() == old(self).text(),
            final(self).pos() == digit_end(old(self).text(), old(self).pos()),
            ({
                let v = run_value(old(self).text(), old(self).pos(), final(self).pos());
                if v <= i64::MAX {
                    r matches Ok(n) && n as int == v
                } else {
                    r matches Err(e) && e == ScanError::NumberOutOfRange
                }
            }),
    {
        let ghost s = self.input@;
        let start = self.position;
        let mut val: u64 = 0;
        let mut over: bool = false;
        let max: u64 = 0x7fff_ffff_ffff_ffff;
        while self.position < self.length
            invariant
                self.wf(),
                self.text() == s,
                start == old(self).position,
                start <= self.position,
                digit_end(s, start as int) == digit_end(s, self.pos()),
                !over ==> val as int == run_value(s, start as int, self.pos()) && val <= max,
                over ==> run_value(s, start as int, self.pos()) > max,
                max == i64::MAX,
            ensures
                self.position == self.length || !is_digit_char(s[self.pos()]),
            decreases self.length - self.position,
        {
            let c = self.input.get_char(self.position);
            let u = c as u32;
            if 48 <= u && u <= 57 {
                let d: u64 = (u - 48) as u64;
                proof {
                    assert(run_value(s, start as int, self.pos() + 1) == run_value(
                        s,
                        start as int,
                        self.pos(),
                    ) * 10 + digit_val(s[self.pos()]));
                }
                if !over {
                    if val > (max - d) / 10 {
                        over = true;
                        proof {
                            assert((max - d) / 10 * 10 + (max - d) % 10 == max - d);
                            assert(val as int * 10 + d as int > max);
                        }
                    } else {
                        proof {
                            assert(val * 10 <= (max - d) / 10 * 10 <= max - d);
                        }
                        val = val * 10 + d;
                    }
                }
                self.advance();
            } else {
                break ;
            }
        }
        if over {
            Err(ScanError::NumberOutOfRange)
        } else {
            Ok(val as i64)
        }
    }

    /// Scans a string literal: the opening quote has been seen at the
    /// current position; the text up to the closing quote is the value
    /// and the closing quote is consumed. A literal the input ends
    /// inside is a fault, not a silently truncated token.
    fn string_literal(&mut self) -> (r: Result<String, ScanError>)
        requires
            old(self).wf(),
            old(self).pos() < old(self).text().len(),
        ensures
            final(self).wf(),
            final(self).text() == old(self).text(),
            ({
                let q = quote_end(old(self).text(), old(self).pos() + 1);
                if q < old(self).text().len() {
                    &&& r matches Ok(t) && t@ == old(self).text().subrange(old(self).pos() + 1, q)
                    &&& final(self).pos() == q + 1
                } else {
                    &&& r matches Err(e) && e == ScanError::UnterminatedStringLiteral
                    &&& final(self).pos() == old(self).text().len()
                }
            }),
    {
        self.advance();
        let start = self.position;
        while self.position < self.length
            invariant
                self.wf(),
                self.text() == old(self).text(),
                start <= self.position,
                quote_end(self.text(), start as int) == quote_end(self.text(), self.pos()),
            ensures
                self.position == self.length || self.text()[self.pos()] == '"',
            decreases self.length - self.position,
        {
            let c = self.input.get_char(self.position);
            if c == '"' {
                break ;
            }
            self.advance();
        }
        if self.position < self.length {
            let lit = self.input.substring_char(start, self.position).to_owned();
            self.advance();
            Ok(lit)
        } else {
            Err(ScanError::UnterminatedStringLiteral)
        }
    }

    /// Consumes characters from the current position and returns the
    /// next token, or `Eof` forever once the input is exhausted; the
    /// result and the new position are exactly those of the `scan`
    /// model at the old position.
    pub fn next_token(&mut self) -> (r: Result<Token, ScanError>)
        requires
            old(self).wf(),
        ensures
            final(self).wf(),
            final(self).text() == old(self).text(),
            ({
                let step = scan(old(self).text(), old(self).pos());
                &&& final(self).pos() == step.end
                &&& match r {
                    Ok(t) => step.res matches Ok(v) && t@ == v,
                    Err(e) => step.res matches Err(v) && e == v,
                }
            }),
    {
        let ghost s = self.input@;
        while self.position < self.length
            invariant
                self.wf(),
                self.text() == s,
                s == old(self).text(),
                skip_end(s, old(self).pos()) == skip_end(s, self.pos()),
            decreases self.length - self.position,
        {
            let c = self.input.get_char(self.position);
            let u = c as u32;
            if c == ' ' || c == '\t' || c == '\n' || c == '\r' {
                self.skip_whitespace();
                return Ok(Token::Whitespace);
            } else if (97 <= u && u <= 122) || (65 <= u && u <= 90) || c == '_' {
                let t = self.identifier();
                if is_keyword_text(&t) {
                    return Ok(Token::Keyword(t));
                } else {
                    return Ok(Token::Identifier(t));
                }
            } else if 48 <= u && u <= 57 {
                return match self.number() {
                    Ok(n) => Ok(Token::Number(n)),
                    Err(e) => Err(e),
                };
            } else if c == '"' {
                return match self.string_literal() {
                    Ok(t) => Ok(Token::StringLiteral(t)),
                    Err(e) => Err(e),
                };
            } else if c == ';' || c == '{' || c == '}' || c == '(' || c == ')' || c == ',' {
                self.advance();
                return Ok(Token::Symbol(c));
            } else if c == '/' {
                self.advance();
                if self.position < self.length && self.input.get_char(self.position) == '/' {
                    while self.position < self.length
                        invariant
                            self.wf(),
                            self.text() == s,
                            newline_end(s, skip_end(s, old(self).pos()) + 1) == newline_end(
                                s,
                                self.pos(),
                            ),
                        ensures
                            self.position == self.length || s[self.pos()] == '\n',
                        decreases self.length - self.position,
                    {
                        let c2 = self.input.get_char(self.position);
                        if c2 == '\n' {
                            break ;
                        }
                        self.advance();
                    }
                    return Ok(Token::Comment);
                } else {
                    let op = String::from_str("/");
                    proof {
                        reveal_strlit("/");
                        assert(op@ =~= seq!['/']);
                    }
                    return Ok(Token::Operator(op));
                }
            } else if c == '+' || c == '-' || c == '*' || c == '=' || c == '<' || c == '>' {
                self.advance();
                let op = op_text(c);
                return Ok(Token::Operator(op));
            } else {
                self.advance();
            }
        }
        Ok(Token::Eof)
    }
}

/// Whether the given text is one of the reserved words.
fn is_keyword_text(t: &String) -> (r: bool)
    ensures
        r == is_keyword(t@),
{
    *t == String::from_str("fn") || *t == String::from_str("let") || *t == String::from_str("if")
        || *t == String::from_str("else") || *t == String::from_str("while") || *t
        == String::from_str("for") || *t == String::from_str("struct") || *t == String::from_str(
        "impl",
    ) || *t == String::from_str("enum") || *t == String::from_str("pub")
}

/// Properties of the end of a comment: it is the first newline of the
/// rest of the input, or the end of the input.
proof fn lemma_newline_end_props(s: Seq<char>, i: int)
    requires
        0 <= i <= s.len(),
    ensures
        i <= newline_end(s, i) <= s.len(),
        newline_end(s, i) < s.len() ==> s[newline_end(s, i)] == '\n',
        forall|j: int| i <= j < newline_end(s, i) ==> s[j] != '\n',
    decreases s.len() - i,
{
    if i < s.len() && s[i] != '\n' {
        lemma_newline_end_props(s, i + 1);
    }
}

/// Bounds of a whitespace run.
proof fn lemma_ws_end_bounds(s: Seq<char>, i: int)
    requires
        0 <= i <= s.len(),
    ensures
        i <= ws_end(s, i) <= s.len(),
    decreases s.len() - i,
{
    if i < s.len() && is_ws_char(s[i]) {
        lemma_ws_end_bounds(s, i + 1);
    }
}

/// Bounds of an identifier run.
proof fn lemma_ident_end_bounds(s: Seq<char>, i: int)
    requires
        0 <= i <= s.len(),
    ensures
        i <= ident_end(s, i) <= s.len(),
    decreases s.len() - i,
{
    if i < s.len() && is_ident_char(s[i]) {
        lemma_ident_end_bounds(s, i + 1);
    }
}

/// Bounds of a digit run.
proof fn lemma_digit_end_bounds(s: Seq<char>, i: int)
    requires
        0 <= i <= s.len(),
    ensures
        i <= digit_end(s, i) <= s.len(),
    decreases s.len() - i,
{
    if i < s.len() && is_digit_char(s[i]) {
        lemma_digit_end_bounds(s, i + 1);
    }
}

/// Bounds of the search for a closing quote.
proof fn lemma_quote_end_bounds(s: Seq<char>, i: int)
    requires
        0 <= i <= s.len(),
    ensures
        i <= quote_end(s, i) <= s.len(),
    decreases s.len() - i,
{
    if i < s.len() && s[i] != '"' {
        lemma_quote_end_bounds(s, i + 1);
    }
}

/// Bounds of the skip over unrecognized characters.
proof fn lemma_skip_end_bounds(s: Seq<char>, i: int)
    requires
        0 <= i <= s.len(),
    ensures
        i <= skip_end(s, i) <= s.len(),
    decreases s.len() - i,
{
    if i < s.len() && !is_token_start(s[i]) {
        lemma_skip_end_bounds(s, i + 1);
    }
}

/// The scanner always makes progress: a call either moves the position
/// strictly forward, or returns the terminal token; once the input is
/// exhausted every further call returns that terminal token with the
/// position unmoved.
pub proof fn lemma_scan_progress(s: Seq<char>, i: int)
    requires
        0 <= i <= s.len(),
    ensures
        i <= scan(s, i).end <= s.len(),
        scan(s, i).res != Ok::<SpecToken, ScanError>(SpecToken::Eof) ==> scan(s, i).end > i,
        i >= s.len() ==> scan(s, i).res == Ok::<SpecToken, ScanError>(SpecToken::Eof) && scan(
            s,
            i,
        ).end == i,
{
    lemma_skip_end_bounds(s, i);
    let j = skip_end(s, i);
    if j < s.len() {
        let c = s[j];
        if is_ws_char(c) {
            lemma_ws_end_bounds(s, j + 1);
        } else if is_ident_start(c) {
            lemma_ident_end_bounds(s, j + 1);
        } else if is_digit_char(c) {
            lemma_digit_end_bounds(s, j + 1);
        } else if c == '"' {
            lemma_quote_end_bounds(s, j + 1);
        } else if c == '/' && j + 1 < s.len() && s[j + 1] == '/' {
            lemma_newline_end_props(s, j + 1);
        }
    }
}

/// Every digit run is scanned as exactly one Number token whose value
/// is the decimal integer the whole run spells, and scanning resumes
/// right after the run: no partial-run tokens exist.
pub proof fn lemma_digit_run_single_token(s: Seq<char>, i: int)
    requires
        0 <= i < s.len(),
        is_digit_char(s[i]),
        run_value(s, i, digit_end(s, i)) <= i64::MAX,
    ensures
        scan(s, i).res == Ok::<SpecToken, ScanError>(
            SpecToken::Number(run_value(s, i, digit_end(s, i))),
        ),
        scan(s, i).end == digit_end(s, i),
{
    assert(skip_end(s, i) == i);
}

/// Every line comment is scanned as exactly one Comment token reaching
/// the end of its line, and scanning resumes at the newline: the next
/// token is the whitespace run that begins there.
pub proof fn lemma_line_comment_single_token(s: Seq<char>, i: int)
    requires
        0 <= i,
        i + 1 < s.len(),
        s[i] == '/',
        s[i + 1] == '/',
    ensures
        scan(s, i).res == Ok::<SpecToken, ScanError>(SpecToken::Comment),
        scan(s, i).end == newline_end(s, i + 1),
        forall|j: int| i + 1 <= j < newline_end(s, i + 1) ==> s[j] != '\n',
        newline_end(s, i + 1) < s.len() ==> s[newline_end(s, i + 1)] == '\n' && scan(
            s,
            newline_end(s, i + 1),
        ).res == Ok::<SpecToken, ScanError>(SpecToken::Whitespace),
{
    assert(skip_end(s, i) == i);
    lemma_newline_end_props(s, i + 1);
    let k = newline_end(s, i + 1);
    if k < s.len() {
        assert(skip_end(s, k) == k);
    }
}

/// The one-character operator string for an operator character.
fn op_text(c: char) -> (r: String)
    requires
        is_op_char(c),
    ensures
        r@ == seq![c],
{
    let lit: &'static str = if c == '+' {
        "+"
    } else if c == '-' {
        "-"
    } else if c == '*' {
        "*"
    } else if c == '=' {
        "="
    } else if c == '<' {
        "<"
    } else {
        ">"
    };
    proof {
        reveal_strlit("+");
        reveal_strlit("-");
        reveal_strlit("*");
        reveal_strlit("=");
        reveal_strlit("<");
        reveal_strlit(">");
        assert(lit@ =~= seq![c]);
    }
    lit.to_owned()
}

} // verus!
