//! The single-pass lexical scanner, verified against [`crate::model`].

use vstd::prelude::*;

use vstd::string::StrSliceExecFns;

use crate::model::{
    digits_end, eof_token, is_digit, lemma_digits_end, lemma_newlines_bounds, lemma_seek_char,
    lemma_step_bounds, newlines_between, scan_step, seek_char, spec_scan,
};
use crate::report::{error, DiagModel, Diagnostic};
use crate::token::{lit_view, Literal, Token, TokenModel, TokenType};

verus! {

/// The scanner: the source text, the tokens and diagnostics accumulated so
/// far, the `start`/`current` cursor offsets (in characters), and the
/// current 1-based line counter.
pub struct Scanner {
    source: String,
    tokens: Vec<Token>,
    diagnostics: Vec<Diagnostic>,
    start: usize,
    current: usize,
    line: usize,
}

/// The model of the scanner state, with the source as a character sequence
/// and the accumulated tokens and diagnostics as sequences of their models.
pub ghost struct ScannerModel {
    pub source: Seq<char>,
    pub tokens: Seq<TokenModel>,
    pub diags: Seq<DiagModel>,
    pub start: int,
    pub current: int,
    pub line: int,
}

impl View for Scanner {
    type V = ScannerModel;

    closed spec fn view(&self) -> ScannerModel {
        ScannerModel {
            source: self.source@,
            tokens: self.tokens@.map_values(|t: Token| t@),
            diags: self.diagnostics@.map_values(|d: Diagnostic| d@),
            start: self.start as int,
            current: self.current as int,
            line: self.line as int,
        }
    }
}

impl Scanner {
    /// The scanner's invariant: the cursor offsets are ordered and within
    /// the source, and the line counter is at least 1 with enough headroom
    /// that one increment per remaining character cannot overflow.
    pub open spec fn wf(self) -> bool {
        &&& 0 <= self@.start <= self@.current <= self@.source.len()
        &&& self@.source.len() < usize::MAX
        &&& 1 <= self@.line
        &&& self@.line + (self@.source.len() - self@.current) <= usize::MAX
    }

    /// A fresh scanner over `source`: cursor at the beginning, line 1, no
    /// tokens and no diagnostics yet.
    pub fn new(source: String) -> (r: Scanner)
        requires
            source@.len() < usize::MAX,
        ensures
            r.wf(),
            r@.source == source@,
            r@.tokens == Seq::<TokenModel>::empty(),
            r@.diags == Seq::<DiagModel>::empty(),
            r@.start == 0,
            r@.current == 0,
            r@.line == 1,
    {
        let r = Scanner {
            source,
            tokens: Vec::new(),
            diagnostics: Vec::new(),
            start: 0,
            current: 0,
            line: 1,
        };
        proof {
            assert(r@.tokens =~= Seq::<TokenModel>::empty());
            assert(r@.diags =~= Seq::<DiagModel>::empty());
        }
        r
    }

    /// Whether the cursor has passed the last character of the source.
    fn is_at_end(&self) -> (r: bool)
        ensures
            r == (self@.current >= self@.source.len()),
    {
        self.current >= self.source.as_str().unicode_len()
    }

    /// Consumes and returns the character at the cursor.
    fn advance(&mut self) -> (c: char)
        requires
            old(self).wf(),
            old(self)@.current < old(self)@.source.len(),
        ensures
            final(self).wf(),
            c == old(self)@.source[old(self)@.current],
            final(self)@ == (ScannerModel { current: old(self)@.current + 1, ..old(self)@ }),
    {
        let c = self.source.as_str().get_char(self.current);
        self.current = self.current + 1;
        c
    }

    /// The character at the cursor, or `'\0'` at the end of the source; the
    /// cursor does not move.
    fn peek(&self) -> (c: char)
        requires
            self.wf(),
        ensures
            c == (if self@.current < self@.source.len() {
                self@.source[self@.current]
            } else {
                '\0'
            }),
    {
        if self.is_at_end() {
            return '\0';
        }
        self.source.as_str().get_char(self.current)
    }

    /// The character one past the cursor, or `'\0'` when none exists; the
    /// cursor does not move.
    fn peek_next(&self) -> (c: char)
        requires
            self.wf(),
        ensures
            c == (if self@.current + 1 < self@.source.len() {
                self@.source[self@.current + 1]
            } else {
                '\0'
            }),
    {
        if self.current + 1 >= self.source.as_str().unicode_len() {
            return '\0';
        }
        self.source.as_str().get_char(self.current + 1)
    }

    /// Consumes the character at the cursor only when it equals `expected`,
    /// and reports whether it did.
    fn match_char(&mut self, expected: char) -> (r: bool)
        requires
            old(self).wf(),
        ensures
            final(self).wf(),
            r == (old(self)@.current < old(self)@.source.len()
                && old(self)@.source[old(self)@.current] == expected),
            final(self)@ == (ScannerModel {
                current: if r {
                    old(self)@.current + 1
                } else {
                    old(self)@.current
                },
                ..old(self)@
            }),
    {
        if self.is_at_end() {
            return false;
        }
        if self.source.as_str().get_char(self.current) != expected {
            return false;
        }
        self.current = self.current + 1;
        true
    }

    /// Appends a token of the given category whose lexeme is the source
    /// text between the `start` and `current` cursors, at the current line.
    fn add_token(&mut self, token_type: TokenType, literal: Option<Literal>)
        requires
            old(self).wf(),
        ensures
            final(self).wf(),
            final(self)@ == (ScannerModel {
                tokens: old(self)@.tokens + seq![
                    TokenModel {
                        token_type,
                        lexeme: old(self)@.source.subrange(old(self)@.start, old(self)@.current),
                        literal: lit_view(literal),
                        line: old(self)@.line,
                    },
                ],
                ..old(self)@
            }),
    {
        let text = self.source.as_str().substring_char(self.start, self.current).to_owned();
        let line = self.line;
        self.tokens.push(Token { token_type, lexeme: text, literal, line });
        proof {
            assert(self@.tokens =~= old(self)@.tokens + seq![
                TokenModel {
                    token_type,
                    lexeme: old(self)@.source.subrange(old(self)@.start, old(self)@.current),
                    literal: lit_view(literal),
                    line: old(self)@.line,
                },
            ]);
        }
    }

    /// Scans a string literal whose opening quote, at the `start` cursor,
    /// has just been consumed: consumes the body (counting its newlines)
    /// and the closing quote and emits the string token, or reports an
    /// unterminated string and consumes the rest of the input.
    fn string(&mut self)
        requires
            old(self).wf(),
            old(self)@.start + 1 == old(self)@.current,
            old(self)@.source[old(self)@.start] == '"',
        ensures
            final(self).wf(),
            ({
                let st = scan_step(old(self)@.source, old(self)@.start, old(self)@.line);
                final(self)@ == (ScannerModel {
                    current: st.next,
                    line: st.line,
                    tokens: old(self)@.tokens + st.tokens,
                    diags: old(self)@.diags + st.diags,
                    ..old(self)@
                })
            }),
    {
        let ghost s = old(self)@.source;
        let ghost open = old(self)@.start;
        let ghost close = seek_char(s, open + 1, '"');
        proof {
            lemma_seek_char(s, open + 1, '"');
            lemma_newlines_bounds(s, open + 1, open + 1);
        }
        while self.peek() != '"' && !self.is_at_end()
            invariant
                self.wf(),
                self@.source == s,
                self@.start == open,
                self@.tokens == old(self)@.tokens,
                self@.diags == old(self)@.diags,
                open + 1 <= self@.current <= close,
                close == seek_char(s, open + 1, '"'),
                close <= s.len(),
                forall|k: int| open + 1 <= k < close ==> s[k] != '"',
                close < s.len() ==> s[close] == '"',
                self@.line == old(self)@.line + newlines_between(s, open + 1, self@.current),
            decreases s.len() - self@.current,
        {
            let c = self.advance();
            if c == '\n' {
                self.line = self.line + 1;
            }
            proof {
                lemma_newlines_bounds(s, open + 1, self@.current);
            }
        }
        if self.is_at_end() {
            let d = error(self.line, "Unterminated string.".to_owned());
            self.diagnostics.push(d);
            proof {
                assert(self@.diags =~= old(self)@.diags + scan_step(s, open, old(self)@.line).diags);
                assert(self@.tokens =~= old(self)@.tokens + Seq::<TokenModel>::empty());
            }
            return;
        }
        // The closing quote.
        self.advance();
        // The literal value is the text strictly between the quotes.
        let value = self.source.as_str().substring_char(self.start + 1, self.current - 1).to_owned();
        self.add_token(TokenType::Str, Some(Literal::Text(value)));
        proof {
            assert(self@.diags =~= old(self)@.diags + Seq::<DiagModel>::empty());
        }
    }

    /// Scans a number literal whose first digit, at the `start` cursor, has
    /// just been consumed: consumes the maximal digit run, a fractional
    /// part only when a `.` is followed by a digit, and emits the number
    /// token whose literal is the matched text.
    fn number(&mut self)
        requires
            old(self).wf(),
            old(self)@.start + 1 == old(self)@.current,
            is_digit(old(self)@.source[old(self)@.start]),
        ensures
            final(self).wf(),
            ({
                let st = scan_step(old(self)@.source, old(self)@.start, old(self)@.line);
                final(self)@ == (ScannerModel {
                    current: st.next,
                    line: st.line,
                    tokens: old(self)@.tokens + st.tokens,
                    diags: old(self)@.diags + st.diags,
                    ..old(self)@
                })
            }),
    {
        let ghost s = old(self)@.source;
        let ghost first = old(self)@.start;
        let ghost whole = digits_end(s, first + 1);
        proof {
            lemma_digits_end(s, first + 1);
        }
        while is_digit_char(self.peek())
            invariant
                self.wf(),
                self@.source == s,
                self@.start == first,
                self@.tokens == old(self)@.tokens,
                self@.diags == old(self)@.diags,
                self@.line == old(self)@.line,
                first + 1 <= self@.current <= whole,
                whole == digits_end(s, first + 1),
                whole <= s.len(),
                forall|k: int| first + 1 <= k < whole ==> is_digit(s[k]),
                whole < s.len() ==> !is_digit(s[whole]),
            decreases s.len() - self@.current,
        {
            self.advance();
        }
        // A fractional part only when the `.` is followed by a digit.
        if self.peek() == '.' && is_digit_char(self.peek_next()) {
            let ghost frac = digits_end(s, whole + 1);
            proof {
                lemma_digits_end(s, whole + 1);
            }
            // The `.` itself.
            self.advance();
            while is_digit_char(self.peek())
                invariant
                    self.wf(),
                    self@.source == s,
                    self@.start == first,
                    self@.tokens == old(self)@.tokens,
                    self@.diags == old(self)@.diags,
                    self@.line == old(self)@.line,
                    whole + 1 <= self@.current <= frac,
                    frac == digits_end(s, whole + 1),
                    frac <= s.len(),
                    forall|k: int| whole + 1 <= k < frac ==> is_digit(s[k]),
                    frac < s.len() ==> !is_digit(s[frac]),
                decreases s.len() - self@.current,
            {
                self.advance();
            }
        }
        let text = self.source.as_str().substring_char(self.start, self.current).to_owned();
        self.add_token(TokenType::Number, Some(Literal::Number(text)));
        proof {
            assert(self@.diags =~= old(self)@.diags + Seq::<DiagModel>::empty());
        }
    }

    /// Scans the single lexical unit that starts at the cursor, which must
    /// equal the `start` cursor, and emits its token or diagnostic, if any.
    fn scan_token(&mut self)
        requires
            old(self).wf(),
            old(self)@.start == old(self)@.current,
            old(self)@.current < old(self)@.source.len(),
        ensures
            final(self).wf(),
            ({
                let st = scan_step(old(self)@.source, old(self)@.start, old(self)@.line);
                final(self)@ == (ScannerModel {
                    current: st.next,
                    line: st.line,
                    tokens: old(self)@.tokens + st.tokens,
                    diags: old(self)@.diags + st.diags,
                    ..old(self)@
                })
            }),
    {
        let ghost s = old(self)@.source;
        let ghost begin = old(self)@.start;
        let c = self.advance();
        if c == '(' {
            self.add_token(TokenType::LeftParen, None);
        } else if c == ')' {
            self.add_token(TokenType::RightParen, None);
        } else if c == '{' {
            self.add_token(TokenType::LeftBrace, None);
        } else if c == '}' {
            self.add_token(TokenType::RightBrace, None);
        } else if c == ',' {
            self.add_token(TokenType::Comma, None);
        } else if c == '.' {
            self.add_token(TokenType::Dot, None);
        } else if c == '-' {
            self.add_token(TokenType::Minus, None);
        } else if c == '+' {
            self.add_token(TokenType::Plus, None);
        } else if c == ';' {
            self.add_token(TokenType::Semicolon, None);
        } else if c == '*' {
            self.add_token(TokenType::Star, None);
        } else if c == '!' {
            let t = if self.match_char('=') {
                TokenType::BangEqual
            } else {
                TokenType::Bang
            };
            self.add_token(t, None);
        } else if c == '=' {
            let t = if self.match_char('=') {
                TokenType::EqualEqual
            } else {
                TokenType::Equal
            };
            self.add_token(t, None);
        } else if c == '<' {
            let t = if self.match_char('=') {
                TokenType::LessEqual
            } else {
                TokenType::Less
            };
            self.add_token(t, None);
        } else if c == '>' {
            let t = if self.match_char('=') {
                TokenType::GreaterEqual
            } else {
                TokenType::Greater
            };
            self.add_token(t, None);
        } else if c == '/' {
            if self.match_char('/') {
                // A comment runs to the end of the line and emits nothing.
                let ghost rest = seek_char(s, begin + 2, '\n');
                proof {
                    lemma_seek_char(s, begin + 2, '\n');
                }
                while self.peek() != '\n' && !self.is_at_end()
                    invariant
                        self.wf(),
                        self@.source == s,
                        self@.start == begin,
                        self@.tokens == old(self)@.tokens,
                        self@.diags == old(self)@.diags,
                        self@.line == old(self)@.line,
                        begin + 2 <= self@.current <= rest,
                        rest == seek_char(s, begin + 2, '\n'),
                        rest <= s.len(),
                        forall|k: int| begin + 2 <= k < rest ==> s[k] != '\n',
                        rest < s.len() ==> s[rest] == '\n',
                    decreases s.len() - self@.current,
                {
                    self.advance();
                }
            } else {
                self.add_token(TokenType::Slash, None);
            }
        } else if c == ' ' || c == '\r' || c == '\t' {
            // Whitespace produces no token.
        } else if c == '\n' {
            self.line = self.line + 1;
        } else if c == '"' {
            self.string();
        } else if is_digit_char(c) {
            self.number();
        } else {
            let d = error(self.line, "Unexpected character.".to_owned());
            self.diagnostics.push(d);
            proof {
                assert(self@.diags =~= old(self)@.diags + scan_step(s, begin, old(self)@.line).diags);
            }
        }
        proof {
            assert(old(self)@.tokens + Seq::<TokenModel>::empty() =~= old(self)@.tokens);
            assert(old(self)@.diags + Seq::<DiagModel>::empty() =~= old(self)@.diags);
        }
    }

    /// Performs the whole scanning pass: consumes the entire remaining
    /// input, appends exactly one end-of-file token at the last line
    /// reached, and returns a copy of the accumulated token sequence. The
    /// tokens, the diagnostics, and the final line are exactly those of
    /// [`spec_scan`] on the source.
    pub fn scan_tokens(&mut self) -> (r: Vec<Token>)
        requires
            old(self).wf(),
        ensures
            final(self).wf(),
            ({
                let out = spec_scan(old(self)@.source, old(self)@.current, old(self)@.line);
                &&& final(self)@.source == old(self)@.source
                &&& final(self)@.tokens == old(self)@.tokens + out.tokens + seq![eof_token(out.line)]
                &&& final(self)@.diags == old(self)@.diags + out.diags
                &&& final(self)@.line == out.line
                &&& r@.map_values(|t: Token| t@) == final(self)@.tokens
            }),
    {
        let ghost s = old(self)@.source;
        let ghost c0 = old(self)@.current;
        let ghost l0 = old(self)@.line;
        let ghost k = old(self)@.tokens.len() as int;
        let ghost kd = old(self)@.diags.len() as int;
        let n = self.source.as_str().unicode_len();
        while self.current < n
            invariant
                self.wf(),
                self@.source == s,
                n == s.len(),
                0 <= k <= self@.tokens.len(),
                0 <= kd <= self@.diags.len(),
                self@.tokens.subrange(0, k) == old(self)@.tokens,
                self@.diags.subrange(0, kd) == old(self)@.diags,
                spec_scan(s, c0, l0).tokens == self@.tokens.skip(k) + spec_scan(
                    s,
                    self@.current,
                    self@.line,
                ).tokens,
                spec_scan(s, c0, l0).diags == self@.diags.skip(kd) + spec_scan(
                    s,
                    self@.current,
                    self@.line,
                ).diags,
                spec_scan(s, c0, l0).line == spec_scan(s, self@.current, self@.line).line,
            decreases s.len() - self@.current,
        {
            let ghost pre = self@;
            self.start = self.current;
            self.scan_token();
            proof {
                let st = scan_step(s, pre.current, pre.line);
                lemma_step_bounds(s, pre.current, pre.line);
                assert((pre.tokens + st.tokens).subrange(0, k) =~= pre.tokens.subrange(0, k));
                assert((pre.diags + st.diags).subrange(0, kd) =~= pre.diags.subrange(0, kd));
                let rest = spec_scan(s, st.next, st.line);
                assert((pre.tokens + st.tokens).skip(k) =~= pre.tokens.skip(k) + st.tokens);
                assert((pre.diags + st.diags).skip(kd) =~= pre.diags.skip(kd) + st.diags);
                assert(pre.tokens.skip(k) + st.tokens + rest.tokens =~= pre.tokens.skip(k)
                    + (st.tokens + rest.tokens));
                assert(pre.diags.skip(kd) + st.diags + rest.diags =~= pre.diags.skip(kd)
                    + (st.diags + rest.diags));
            }
        }
        proof {
            let out = spec_scan(s, c0, l0);
            assert(self@.current == s.len());
            assert(out.tokens == self@.tokens.skip(k));
            assert(self@.tokens =~= self@.tokens.subrange(0, k) + self@.tokens.skip(k));
            assert(self@.diags =~= self@.diags.subrange(0, kd) + self@.diags.skip(kd));
        }
        let line = self.line;
        self.tokens.push(
            Token { token_type: TokenType::Eof, lexeme: String::new(), literal: None, line },
        );
        proof {
            let out = spec_scan(s, c0, l0);
            assert(self@.tokens =~= old(self)@.tokens + out.tokens + seq![eof_token(out.line)]);
        }
        let r = self.tokens.clone();
        proof {
            assert forall|j: int| 0 <= j < self.tokens@.len() implies r@[j] == self.tokens@[j] by {
                assert(cloned::<Token>(self.tokens@[j], r@[j]));
            }
            assert(r@ =~= self.tokens@);
        }
        r
    }

    /// Whether any lexical error was reported so far: the explicit form of
    /// the pass's overall "had error" signal.
    pub fn had_error(&self) -> (r: bool)
        ensures
            r == (self@.diags.len() > 0),
    {
        self.diagnostics.len() > 0
    }

    /// The diagnostics reported so far, in the order they occurred.
    pub fn diagnostics(&self) -> (r: &Vec<Diagnostic>)
        ensures
            r@.map_values(|d: Diagnostic| d@) == self@.diags,
    {
        &self.diagnostics
    }
}

/// Whether `c` is an ASCII decimal digit.
fn is_digit_char(c: char) -> (r: bool)
    ensures
        r == is_digit(c),
{
    '0' <= c && c <= '9'
}

} // verus!
