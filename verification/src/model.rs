//! The mathematical model of a scanning pass.
//!
//! [`spec_scan`] defines, as a recursive specification function over the
//! source text as a sequence of characters, exactly which tokens and
//! diagnostics a pass produces and on which line it ends. [`scan_step`]
//! gives the effect of scanning one lexical unit starting at a given
//! position: how far the cursor moves, how the line counter changes, and
//! which token or diagnostic (if any) is emitted. The executable scanner is
//! verified against these functions.

use vstd::prelude::*;

use crate::report::DiagModel;
use crate::token::{LitModel, TokenModel, TokenType};

verus! {

/// Whether `c` is an ASCII decimal digit.
pub open spec fn is_digit(c: char) -> bool {
    '0' as int <= c as int && c as int <= '9' as int
}

/// The first position at or after `j` holding `target`, or the length of
/// `s` if no such position exists.
pub open spec fn seek_char(s: Seq<char>, j: int, target: char) -> int
    decreases s.len() - j,
{
    if j < s.len() && s[j] != target {
        seek_char(s, j + 1, target)
    } else {
        j
    }
}

/// The first position at or after `j` holding a non-digit, or the length of
/// `s` if the digits run to the end.
pub open spec fn digits_end(s: Seq<char>, j: int) -> int
    decreases s.len() - j,
{
    if j < s.len() && is_digit(s[j]) {
        digits_end(s, j + 1)
    } else {
        j
    }
}

/// The number of newline characters in `s` at positions in `[j, k)`.
pub open spec fn newlines_between(s: Seq<char>, j: int, k: int) -> int
    decreases k - j,
{
    if j < k {
        newlines_between(s, j, k - 1) + (if s[k - 1] == '\n' {
            1int
        } else {
            0int
        })
    } else {
        0
    }
}

pub proof fn lemma_seek_char(s: Seq<char>, j: int, target: char)
    requires
        0 <= j <= s.len(),
    ensures
        j <= seek_char(s, j, target) <= s.len(),
        forall|k: int| j <= k < seek_char(s, j, target) ==> s[k] != target,
        seek_char(s, j, target) < s.len() ==> s[seek_char(s, j, target)] == target,
    decreases s.len() - j,
{
    if j < s.len() && s[j] != target {
        lemma_seek_char(s, j + 1, target);
    }
}

pub proof fn lemma_digits_end(s: Seq<char>, j: int)
    requires
        0 <= j <= s.len(),
    ensures
        j <= digits_end(s, j) <= s.len(),
        forall|k: int| j <= k < digits_end(s, j) ==> is_digit(s[k]),
        digits_end(s, j) < s.len() ==> !is_digit(s[digits_end(s, j)]),
    decreases s.len() - j,
{
    if j < s.len() && is_digit(s[j]) {
        lemma_digits_end(s, j + 1);
    }
}

pub proof fn lemma_newlines_bounds(s: Seq<char>, j: int, k: int)
    requires
        j <= k,
    ensures
        0 <= newlines_between(s, j, k) <= k - j,
    decreases k - j,
{
    if j < k {
        lemma_newlines_bounds(s, j, k - 1);
    }
}

pub proof fn lemma_newlines_split(s: Seq<char>, j: int, k: int, m: int)
    requires
        j <= k <= m,
    ensures
        newlines_between(s, j, m) == newlines_between(s, j, k) + newlines_between(s, k, m),
    decreases m - k,
{
    if k < m {
        lemma_newlines_split(s, j, k, m - 1);
    }
}

pub proof fn lemma_newlines_absent(s: Seq<char>, j: int, k: int)
    requires
        j <= k,
        forall|l: int| j <= l < k ==> s[l] != '\n',
    ensures
        newlines_between(s, j, k) == 0,
    decreases k - j,
{
    if j < k {
        lemma_newlines_absent(s, j, k - 1);
    }
}

/// The effect of scanning one lexical unit: the cursor position after it,
/// the line counter after it, and the emitted token and diagnostic (each
/// empty or a singleton).
pub ghost struct StepModel {
    pub next: int,
    pub line: int,
    pub tokens: Seq<TokenModel>,
    pub diags: Seq<DiagModel>,
}

/// The outcome of scanning a whole suffix of the input: the emitted tokens
/// (without the final end-of-file token), the emitted diagnostics, and the
/// line counter at the end of the input.
pub ghost struct ScanModel {
    pub tokens: Seq<TokenModel>,
    pub diags: Seq<DiagModel>,
    pub line: int,
}

/// A token with no literal payload.
pub open spec fn plain_token(t: TokenType, lexeme: Seq<char>, line: int) -> TokenModel {
    TokenModel { token_type: t, lexeme, literal: None, line }
}

/// The end-of-file token: empty lexeme, no literal.
pub open spec fn eof_token(line: int) -> TokenModel {
    TokenModel { token_type: TokenType::Eof, lexeme: Seq::empty(), literal: None, line }
}

/// A scanner diagnostic: the context is always empty.
pub open spec fn lex_error(line: int, message: Seq<char>) -> DiagModel {
    DiagModel { line, context: Seq::empty(), message }
}

pub open spec fn unexpected_message() -> Seq<char> {
    "Unexpected character."@
}

pub open spec fn unterminated_message() -> Seq<char> {
    "Unterminated string."@
}

/// A single-character punctuation token at position `i`.
pub open spec fn punct_step(s: Seq<char>, i: int, line: int, t: TokenType) -> StepModel {
    StepModel {
        next: i + 1,
        line,
        tokens: seq![plain_token(t, s.subrange(i, i + 1), line)],
        diags: seq![],
    }
}

/// A one-or-two-character operator at position `i`: the combined form when
/// the next character is `=`, otherwise the single form.
pub open spec fn operator_step(
    s: Seq<char>,
    i: int,
    line: int,
    single: TokenType,
    combined: TokenType,
) -> StepModel {
    if i + 1 < s.len() && s[i + 1] == '=' {
        StepModel {
            next: i + 2,
            line,
            tokens: seq![plain_token(combined, s.subrange(i, i + 2), line)],
            diags: seq![],
        }
    } else {
        punct_step(s, i, line, single)
    }
}

/// A `/` at position `i`: a line comment when a second `/` follows (consumed
/// up to but not including the next newline, emitting nothing), otherwise a
/// slash token.
pub open spec fn slash_step(s: Seq<char>, i: int, line: int) -> StepModel {
    if i + 1 < s.len() && s[i + 1] == '/' {
        StepModel { next: seek_char(s, i + 2, '\n'), line, tokens: seq![], diags: seq![] }
    } else {
        punct_step(s, i, line, TokenType::Slash)
    }
}

/// A `"` at position `i`: a string token whose literal is the text strictly
/// between the quotes when a closing quote exists, otherwise an unterminated
/// string diagnostic and no token. Newlines inside the body advance the line
/// counter, so the recorded line is that of the closing quote (or of the end
/// of input).
pub open spec fn string_step(s: Seq<char>, i: int, line: int) -> StepModel {
    let close = seek_char(s, i + 1, '"');
    let body_line = line + newlines_between(s, i + 1, close);
    if close < s.len() {
        StepModel {
            next: close + 1,
            line: body_line,
            tokens: seq![
                TokenModel {
                    token_type: TokenType::Str,
                    lexeme: s.subrange(i, close + 1),
                    literal: Some(LitModel::Text(s.subrange(i + 1, close))),
                    line: body_line,
                },
            ],
            diags: seq![],
        }
    } else {
        StepModel {
            next: s.len() as int,
            line: body_line,
            tokens: seq![],
            diags: seq![lex_error(body_line, unterminated_message())],
        }
    }
}

/// Where the number starting with the digit at position `i` ends: a maximal
/// digit run, extended past a `.` only when a digit follows the `.`.
pub open spec fn number_end(s: Seq<char>, i: int) -> int {
    let whole = digits_end(s, i + 1);
    if whole < s.len() && s[whole] == '.' && whole + 1 < s.len() && is_digit(s[whole + 1]) {
        digits_end(s, whole + 1)
    } else {
        whole
    }
}

/// A digit at position `i`: a number token whose lexeme and literal are the
/// matched span.
pub open spec fn number_step(s: Seq<char>, i: int, line: int) -> StepModel {
    let end = number_end(s, i);
    StepModel {
        next: end,
        line,
        tokens: seq![
            TokenModel {
                token_type: TokenType::Number,
                lexeme: s.subrange(i, end),
                literal: Some(LitModel::Num(s.subrange(i, end))),
                line,
            },
        ],
        diags: seq![],
    }
}

/// The effect of scanning the single lexical unit that starts at position
/// `i` of `s` with the line counter at `line`.
pub open spec fn scan_step(s: Seq<char>, i: int, line: int) -> StepModel
    recommends
        0 <= i < s.len(),
{
    let c = s[i];
    if c == '(' {
        punct_step(s, i, line, TokenType::LeftParen)
    } else if c == ')' {
        punct_step(s, i, line, TokenType::RightParen)
    } else if c == '{' {
        punct_step(s, i, line, TokenType::LeftBrace)
    } else if c == '}' {
        punct_step(s, i, line, TokenType::RightBrace)
    } else if c == ',' {
        punct_step(s, i, line, TokenType::Comma)
    } else if c == '.' {
        punct_step(s, i, line, TokenType::Dot)
    } else if c == '-' {
        punct_step(s, i, line, TokenType::Minus)
    } else if c == '+' {
        punct_step(s, i, line, TokenType::Plus)
    } else if c == ';' {
        punct_step(s, i, line, TokenType::Semicolon)
    } else if c == '*' {
        punct_step(s, i, line, TokenType::Star)
    } else if c == '!' {
        operator_step(s, i, line, TokenType::Bang, TokenType::BangEqual)
    } else if c == '=' {
        operator_step(s, i, line, TokenType::Equal, TokenType::EqualEqual)
    } else if c == '<' {
        operator_step(s, i, line, TokenType::Less, TokenType::LessEqual)
    } else if c == '>' {
        operator_step(s, i, line, TokenType::Greater, TokenType::GreaterEqual)
    } else if c == '/' {
        slash_step(s, i, line)
    } else if c == ' ' || c == '\r' || c == '\t' {
        StepModel { next: i + 1, line, tokens: seq![], diags: seq![] }
    } else if c == '\n' {
        StepModel { next: i + 1, line: line + 1, tokens: seq![], diags: seq![] }
    } else if c == '"' {
        string_step(s, i, line)
    } else if is_digit(c) {
        number_step(s, i, line)
    } else {
        StepModel {
            next: i + 1,
            line,
            tokens: seq![],
            diags: seq![lex_error(line, unexpected_message())],
        }
    }
}

/// Every step consumes at least one character and stays within the input.
pub proof fn lemma_step_bounds(s: Seq<char>, i: int, line: int)
    requires
        0 <= i < s.len(),
    ensures
        i < scan_step(s, i, line).next <= s.len(),
{
    let c = s[i];
    if c == '/' && i + 1 < s.len() && s[i + 1] == '/' {
        lemma_seek_char(s, i + 2, '\n');
    } else if c == '"' {
        lemma_seek_char(s, i + 1, '"');
    } else if is_digit(c) {
        lemma_digits_end(s, i + 1);
        let whole = digits_end(s, i + 1);
        if whole < s.len() && s[whole] == '.' && whole + 1 < s.len() && is_digit(s[whole + 1]) {
            lemma_digits_end(s, whole + 1);
        }
    }
}

/// One step advances the line counter by exactly the number of newline
/// characters among the characters it consumes.
pub proof fn lemma_step_line(s: Seq<char>, i: int, line: int)
    requires
        0 <= i < s.len(),
    ensures
        scan_step(s, i, line).line == line + newlines_between(s, i, scan_step(s, i, line).next),
{
    let c = s[i];
    let st = scan_step(s, i, line);
    assert(newlines_between(s, i, i) == 0);
    if c == '/' && i + 1 < s.len() && s[i + 1] == '/' {
        let e = seek_char(s, i + 2, '\n');
        lemma_seek_char(s, i + 2, '\n');
        lemma_newlines_absent(s, i + 2, e);
        lemma_newlines_split(s, i, i + 2, e);
        assert(newlines_between(s, i, i + 1) == 0);
    } else if c == '"' {
        let close = seek_char(s, i + 1, '"');
        lemma_seek_char(s, i + 1, '"');
        assert(newlines_between(s, i, i + 1) == 0);
        if close < s.len() {
            lemma_newlines_split(s, i, i + 1, close + 1);
            assert(newlines_between(s, i + 1, close + 1) == newlines_between(s, i + 1, close));
        } else {
            lemma_newlines_split(s, i, i + 1, s.len() as int);
        }
    } else if c == '(' || c == ')' || c == '{' || c == '}' || c == ',' || c == '.' || c == '-'
        || c == '+' || c == ';' || c == '*' || c == ' ' || c == '\r' || c == '\t' || c == '\n' {
        // One character is consumed; only the newline branch counts one.
    } else if c == '!' || c == '=' || c == '<' || c == '>' || c == '/' {
        if i + 1 < s.len() && s[i + 1] == '=' {
            assert(newlines_between(s, i, i + 1) == 0);
        }
    } else if is_digit(c) {
        let end = number_end(s, i);
        let whole = digits_end(s, i + 1);
        lemma_digits_end(s, i + 1);
        if whole < s.len() && s[whole] == '.' && whole + 1 < s.len() && is_digit(s[whole + 1]) {
            lemma_digits_end(s, whole + 1);
        }
        assert forall|k: int| i <= k < end implies s[k] != '\n' by {
            if k == i {
                assert(is_digit(s[k]));
            }
        }
        lemma_newlines_absent(s, i, end);
    }
}

/// The whole pass over the suffix of `s` that starts at position `i`, with
/// the line counter at `line`.
pub open spec fn spec_scan(s: Seq<char>, i: int, line: int) -> ScanModel
    decreases s.len() - i,
        via spec_scan_decreases
{
    if 0 <= i < s.len() {
        let st = scan_step(s, i, line);
        let rest = spec_scan(s, st.next, st.line);
        ScanModel {
            tokens: st.tokens + rest.tokens,
            diags: st.diags + rest.diags,
            line: rest.line,
        }
    } else {
        ScanModel { tokens: seq![], diags: seq![], line }
    }
}

#[via_fn]
proof fn spec_scan_decreases(s: Seq<char>, i: int, line: int) {
    if 0 <= i < s.len() {
        lemma_step_bounds(s, i, line);
    }
}

/// A pass ends with the line counter advanced by exactly the number of
/// newline characters in the scanned suffix.
pub proof fn lemma_scan_line(s: Seq<char>, i: int, line: int)
    requires
        0 <= i <= s.len(),
    ensures
        spec_scan(s, i, line).line == line + newlines_between(s, i, s.len() as int),
    decreases s.len() - i,
{
    if i < s.len() {
        let st = scan_step(s, i, line);
        lemma_step_bounds(s, i, line);
        lemma_step_line(s, i, line);
        lemma_scan_line(s, st.next, st.line);
        lemma_newlines_split(s, i, st.next, s.len() as int);
    }
}

/// For any input, the line of the end-of-file token of a full pass — the
/// `line` carried by [`spec_scan`] from position 0 and line 1 — equals the
/// number of newline characters in the input plus one.
pub proof fn lemma_eof_line(s: Seq<char>)
    ensures
        spec_scan(s, 0, 1).line == 1 + newlines_between(s, 0, s.len() as int),
{
    lemma_scan_line(s, 0, 1);
}

} // verus!
