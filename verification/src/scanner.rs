use vstd::prelude::*;
use crate::error::{ErrModel, TeciError};
use crate::object::{Object, ObjModel, Rat};
use crate::text::chars_to_string;
use crate::text::str_to_chars;
use crate::token::{Token, TokenModel};
use crate::token_type::TokenType;

verus! {

// ---------------------------------------------------------------------------
// The mathematical scanner.
//
// `spec_scan` maps a character sequence, a cursor and a line counter to the
// token and diagnostic sequences that scanning produces from that point on.
// The executable `Scanner` is proved to compute exactly this function.
// ---------------------------------------------------------------------------
/// Decimal digit.
pub open spec fn is_digit_char(c: char) -> bool {
    '0' <= c && c <= '9'
}

/// Identifier start: ASCII letter or underscore.
pub open spec fn is_alpha_char(c: char) -> bool {
    ('a' <= c && c <= 'z') || ('A' <= c && c <= 'Z') || c == '_'
}

/// Identifier continuation: ASCII letter, digit or underscore.
pub open spec fn is_alnum_char(c: char) -> bool {
    is_alpha_char(c) || is_digit_char(c)
}

/// First position at or after `i` that does not hold a decimal digit.
pub open spec fn seek_digits(s: Seq<char>, i: int) -> int
    decreases s.len() - i,
{
    if 0 <= i < s.len() && is_digit_char(s[i]) {
        seek_digits(s, i + 1)
    } else {
        i
    }
}

/// First position at or after `i` that does not hold an identifier
/// character.
pub open spec fn seek_alnum(s: Seq<char>, i: int) -> int
    decreases s.len() - i,
{
    if 0 <= i < s.len() && is_alnum_char(s[i]) {
        seek_alnum(s, i + 1)
    } else {
        i
    }
}

/// First position at or after `i` that holds a newline, or the end.
pub open spec fn seek_newline(s: Seq<char>, i: int) -> int
    decreases s.len() - i,
{
    if 0 <= i < s.len() && s[i] != '\n' {
        seek_newline(s, i + 1)
    } else {
        i
    }
}

/// First position at or after `i` that holds a double quote, or the end.
pub open spec fn seek_quote(s: Seq<char>, i: int) -> int
    decreases s.len() - i,
{
    if 0 <= i < s.len() && s[i] != '"' {
        seek_quote(s, i + 1)
    } else {
        i
    }
}

/// Number of newline characters in `s` between `i` (inclusive) and `j`
/// (exclusive).
pub open spec fn newlines_in(s: Seq<char>, i: int, j: int) -> int
    decreases j - i,
{
    if i < j && 0 <= i < s.len() {
        (if s[i] == '\n' {
            1int
        } else {
            0int
        }) + newlines_in(s, i + 1, j)
    } else {
        0
    }
}

/// Value of a digit sequence read as a decimal numeral.
pub open spec fn dec_val(s: Seq<char>) -> int
    decreases s.len(),
{
    if s.len() == 0 {
        0
    } else {
        dec_val(s.drop_last()) * 10 + (s.last() as int - '0' as int)
    }
}

/// Ten to the `k`.
pub open spec fn pow10(k: int) -> int
    decreases k,
{
    if k <= 0 {
        1
    } else {
        10 * pow10(k - 1)
    }
}

/// Result of scanning the body of a block comment at nesting depth `depth`:
/// `end` is the position just past the closing delimiter (or none when the
/// comment never closes), `lines` the number of newlines crossed up to the
/// close or to the end of input.
pub ghost struct CommentScan {
    pub end: Option<int>,
    pub lines: int,
}

/// Walk a (recursively nestable) block comment body starting at `i`.
pub open spec fn comment_scan(s: Seq<char>, i: int, depth: int) -> CommentScan
    decreases s.len() - i,
{
    if i < 0 || i >= s.len() {
        CommentScan { end: None, lines: 0 }
    } else if s[i] == '*' && i + 1 < s.len() && s[i + 1] == '/' {
        if depth <= 1 {
            CommentScan { end: Some(i + 2), lines: 0 }
        } else {
            let rest = comment_scan(s, i + 2, depth - 1);
            CommentScan { end: rest.end, lines: rest.lines }
        }
    } else if s[i] == '/' && i + 1 < s.len() && s[i + 1] == '*' {
        let rest = comment_scan(s, i + 2, depth + 1);
        CommentScan { end: rest.end, lines: rest.lines }
    } else if s[i] == '\n' {
        let rest = comment_scan(s, i + 1, depth);
        CommentScan { end: rest.end, lines: rest.lines + 1 }
    } else {
        comment_scan(s, i + 1, depth)
    }
}

/// The reserved-word table: the token kind for a keyword lexeme, none for
/// an ordinary identifier.
pub open spec fn keyword_kind(s: Seq<char>) -> Option<TokenType> {
    if s == "and"@ {
        Some(TokenType::And)
    } else if s == "class"@ {
        Some(TokenType::Class)
    } else if s == "else"@ {
        Some(TokenType::Else)
    } else if s == "false"@ {
        Some(TokenType::False)
    } else if s == "for"@ {
        Some(TokenType::For)
    } else if s == "fun"@ {
        Some(TokenType::Fun)
    } else if s == "if"@ {
        Some(TokenType::If)
    } else if s == "let"@ {
        Some(TokenType::Let)
    } else if s == "nil"@ {
        Some(TokenType::Nil)
    } else if s == "or"@ {
        Some(TokenType::Or)
    } else if s == "print"@ {
        Some(TokenType::Print)
    } else if s == "return"@ {
        Some(TokenType::Return)
    } else if s == "super"@ {
        Some(TokenType::Super)
    } else if s == "this"@ {
        Some(TokenType::This)
    } else if s == "true"@ {
        Some(TokenType::True)
    } else if s == "while"@ {
        Some(TokenType::While)
    } else {
        None
    }
}

/// Effect of scanning one maximal token (or skipping whitespace or a
/// comment) at position `i` on line `line`: at most one token, at most one
/// diagnostic, and the new cursor and line counter.
pub ghost struct StepModel {
    pub token: Option<TokenModel>,
    pub error: Option<ErrModel>,
    pub next: int,
    pub line: int,
}

/// A token with no literal payload spanning `[i, j)`.
pub open spec fn plain_token(kind: TokenType, s: Seq<char>, i: int, j: int, line: int) -> StepModel {
    StepModel {
        token: Some(
            TokenModel { kind, lexeme: s.subrange(i, j), literal: None, line },
        ),
        error: None,
        next: j,
        line,
    }
}

/// A one-or-two-character operator: the two-character form when `=` follows.
pub open spec fn pair_token(
    s: Seq<char>,
    i: int,
    line: int,
    two: TokenType,
    one: TokenType,
) -> StepModel {
    if i + 1 < s.len() && s[i + 1] == '=' {
        plain_token(two, s, i, i + 2, line)
    } else {
        plain_token(one, s, i, i + 1, line)
    }
}

/// The numeric-literal components at position `i` (which must hold a
/// digit): position after the integer digits, whether a fraction follows,
/// and the end of the whole literal.
pub open spec fn number_end(s: Seq<char>, i: int) -> int {
    let e1 = seek_digits(s, i + 1);
    if e1 < s.len() && s[e1] == '.' && e1 + 1 < s.len() && is_digit_char(s[e1 + 1]) {
        seek_digits(s, e1 + 2)
    } else {
        e1
    }
}

/// All digits of the literal `[i, end)`, with the decimal point removed.
pub open spec fn number_digits(s: Seq<char>, i: int, end: int) -> Seq<char> {
    let e1 = seek_digits(s, i + 1);
    if e1 < end {
        s.subrange(i, e1) + s.subrange(e1 + 1, end)
    } else {
        s.subrange(i, end)
    }
}

/// Count of fraction digits of the literal `[i, end)`.
pub open spec fn number_frac_len(s: Seq<char>, i: int, end: int) -> int {
    let e1 = seek_digits(s, i + 1);
    if e1 < end {
        end - e1 - 1
    } else {
        0
    }
}

/// Scanning one step at a numeric literal: the exact rational value when it
/// fits the representation, a diagnostic otherwise.
pub open spec fn number_step(s: Seq<char>, i: int, line: int) -> StepModel {
    let end = number_end(s, i);
    let n = dec_val(number_digits(s, i, end));
    let k = number_frac_len(s, i, end);
    if n <= i64::MAX && k <= 18 {
        StepModel {
            token: Some(
                TokenModel {
                    kind: TokenType::Number,
                    lexeme: s.subrange(i, end),
                    literal: Some(ObjModel::Num { n: n, d: pow10(k) }),
                    line,
                },
            ),
            error: None,
            next: end,
            line,
        }
    } else {
        StepModel {
            token: None,
            error: Some(
                ErrModel { token: None, line, message: "Number literal out of range."@ },
            ),
            next: end,
            line,
        }
    }
}

/// Scanning one step at a string literal opening quote.
pub open spec fn string_step(s: Seq<char>, i: int, line: int) -> StepModel {
    let q = seek_quote(s, i + 1);
    if q >= s.len() {
        let l2 = line + newlines_in(s, i + 1, s.len() as int);
        StepModel {
            token: None,
            error: Some(ErrModel { token: None, line: l2, message: "Unterminated string."@ }),
            next: s.len() as int,
            line: l2,
        }
    } else {
        let l2 = line + newlines_in(s, i + 1, q);
        StepModel {
            token: Some(
                TokenModel {
                    kind: TokenType::String,
                    lexeme: s.subrange(i, q + 1),
                    literal: Some(ObjModel::Str(s.subrange(i + 1, q))),
                    line: l2,
                },
            ),
            error: None,
            next: q + 1,
            line: l2,
        }
    }
}

/// Scanning one step at a slash: line comment, block comment, or the
/// division operator.
pub open spec fn slash_step(s: Seq<char>, i: int, line: int) -> StepModel {
    if i + 1 < s.len() && s[i + 1] == '/' {
        StepModel { token: None, error: None, next: seek_newline(s, i + 2), line }
    } else if i + 1 < s.len() && s[i + 1] == '*' {
        let cs = comment_scan(s, i + 2, 1);
        match cs.end {
            Some(e) => StepModel { token: None, error: None, next: e, line: line + cs.lines },
            None => StepModel {
                token: None,
                error: Some(
                    ErrModel { token: None, line: line, message: "Unterminated comment."@ },
                ),
                next: s.len() as int,
                line: line + cs.lines,
            },
        }
    } else {
        plain_token(TokenType::Slash, s, i, i + 1, line)
    }
}

/// Scanning one step at an identifier or keyword start.
pub open spec fn ident_step(s: Seq<char>, i: int, line: int) -> StepModel {
    let end = seek_alnum(s, i + 1);
    let kind = match keyword_kind(s.subrange(i, end)) {
        Some(k) => k,
        None => TokenType::Identifier,
    };
    plain_token(kind, s, i, end, line)
}

/// One scanning step from position `i` (which must be in range) on line
/// `line`: dispatch on the character at `i`.
pub open spec fn spec_step(s: Seq<char>, i: int, line: int) -> StepModel {
    let c = s[i];
    if c == '(' {
        plain_token(TokenType::LeftParen, s, i, i + 1, line)
    } else if c == ')' {
        plain_token(TokenType::RightParen, s, i, i + 1, line)
    } else if c == '{' {
        plain_token(TokenType::LeftBrace, s, i, i + 1, line)
    } else if c == '}' {
        plain_token(TokenType::RightBrace, s, i, i + 1, line)
    } else if c == ',' {
        plain_token(TokenType::Comma, s, i, i + 1, line)
    } else if c == '.' {
        plain_token(TokenType::Dot, s, i, i + 1, line)
    } else if c == ';' {
        plain_token(TokenType::Semicolon, s, i, i + 1, line)
    } else if c == '+' {
        plain_token(TokenType::Plus, s, i, i + 1, line)
    } else if c == '-' {
        plain_token(TokenType::Minus, s, i, i + 1, line)
    } else if c == '*' {
        plain_token(TokenType::Star, s, i, i + 1, line)
    } else if c == '!' {
        pair_token(s, i, line, TokenType::BangEqual, TokenType::Bang)
    } else if c == '<' {
        pair_token(s, i, line, TokenType::LessEqual, TokenType::Less)
    } else if c == '>' {
        pair_token(s, i, line, TokenType::GreaterEqual, TokenType::Greater)
    } else if c == '=' {
        pair_token(s, i, line, TokenType::Equals, TokenType::Assign)
    } else if c == '/' {
        slash_step(s, i, line)
    } else if c == ' ' || c == '\r' || c == '\t' {
        StepModel { token: None, error: None, next: i + 1, line }
    } else if c == '\n' {
        StepModel { token: None, error: None, next: i + 1, line: line + 1 }
    } else if c == '"' {
        string_step(s, i, line)
    } else if is_digit_char(c) {
        number_step(s, i, line)
    } else if is_alpha_char(c) {
        ident_step(s, i, line)
    } else {
        StepModel {
            token: None,
            error: Some(ErrModel { token: None, line, message: "Unexpected character."@ }),
            next: i + 1,
            line,
        }
    }
}

/// The end-of-input token appended after the last scanning step.
pub open spec fn eof_token(line: int) -> TokenModel {
    TokenModel { kind: TokenType::Eof, lexeme: Seq::empty(), literal: None, line }
}

/// Everything scanning produces: the token sequence (always ending with the
/// end-of-input token) and the diagnostic sequence.
pub ghost struct ScanModel {
    pub tokens: Seq<TokenModel>,
    pub errors: Seq<ErrModel>,
}

/// A singleton or empty sequence from an optional element.
pub open spec fn opt_seq<T>(o: Option<T>) -> Seq<T> {
    match o {
        Some(x) => seq![x],
        None => Seq::empty(),
    }
}

/// The mathematical scanner: all tokens and diagnostics from position `i`
/// on line `line` to the end of input.
pub open spec fn spec_scan(s: Seq<char>, i: int, line: int) -> ScanModel
    decreases s.len() - i,
{
    if i < 0 || i >= s.len() {
        ScanModel { tokens: seq![eof_token(line)], errors: Seq::empty() }
    } else {
        let st = spec_step(s, i, line);
        let ni = if i < st.next <= s.len() {
            st.next
        } else {
            i + 1
        };
        let rest = spec_scan(s, ni, st.line);
        ScanModel {
            tokens: opt_seq(st.token) + rest.tokens,
            errors: opt_seq(st.error) + rest.errors,
        }
    }
}

// ---------------------------------------------------------------------------
// Facts about the mathematical scanner.
// ---------------------------------------------------------------------------
/// A position seek never moves backwards and never passes the end once in
/// range.
pub proof fn lemma_seek_digits_range(s: Seq<char>, i: int)
    requires
        0 <= i <= s.len(),
    ensures
        i <= seek_digits(s, i) <= s.len(),
    decreases s.len() - i,
{
    if i < s.len() && is_digit_char(s[i]) {
        lemma_seek_digits_range(s, i + 1);
    }
}

/// See [`lemma_seek_digits_range`].
pub proof fn lemma_seek_alnum_range(s: Seq<char>, i: int)
    requires
        0 <= i <= s.len(),
    ensures
        i <= seek_alnum(s, i) <= s.len(),
    decreases s.len() - i,
{
    if i < s.len() && is_alnum_char(s[i]) {
        lemma_seek_alnum_range(s, i + 1);
    }
}

/// See [`lemma_seek_digits_range`].
pub proof fn lemma_seek_newline_range(s: Seq<char>, i: int)
    requires
        0 <= i <= s.len(),
    ensures
        i <= seek_newline(s, i) <= s.len(),
    decreases s.len() - i,
{
    if i < s.len() && s[i] != '\n' {
        lemma_seek_newline_range(s, i + 1);
    }
}

/// See [`lemma_seek_digits_range`].
pub proof fn lemma_seek_quote_range(s: Seq<char>, i: int)
    requires
        0 <= i <= s.len(),
    ensures
        i <= seek_quote(s, i) <= s.len(),
    decreases s.len() - i,
{
    if i < s.len() && s[i] != '"' {
        lemma_seek_quote_range(s, i + 1);
    }
}

/// A comment scan never moves backwards, never passes the end, and crosses
/// a nonnegative number of newlines.
pub proof fn lemma_comment_scan_range(s: Seq<char>, i: int, depth: int)
    requires
        0 <= i,
    ensures
        match comment_scan(s, i, depth).end {
            Some(e) => i < e <= s.len(),
            None => true,
        },
        comment_scan(s, i, depth).lines >= 0,
    decreases s.len() - i,
{
    if i < s.len() {
        if s[i] == '*' && i + 1 < s.len() && s[i + 1] == '/' {
            if depth > 1 {
                lemma_comment_scan_range(s, i + 2, depth - 1);
            }
        } else if s[i] == '/' && i + 1 < s.len() && s[i + 1] == '*' {
            lemma_comment_scan_range(s, i + 2, depth + 1);
        } else if s[i] == '\n' {
            lemma_comment_scan_range(s, i + 1, depth);
        } else {
            lemma_comment_scan_range(s, i + 1, depth);
        }
    }
}

/// Newline counts are nonnegative and bounded by the span.
pub proof fn lemma_newlines_in_range(s: Seq<char>, i: int, j: int)
    ensures
        0 <= newlines_in(s, i, j),
        i <= j ==> newlines_in(s, i, j) <= j - i,
    decreases j - i,
{
    if i < j && 0 <= i < s.len() {
        lemma_newlines_in_range(s, i + 1, j);
    }
}

/// Every scanning step advances the cursor and keeps it in range.
pub proof fn lemma_step_advances(s: Seq<char>, i: int, line: int)
    requires
        0 <= i < s.len(),
    ensures
        i < spec_step(s, i, line).next <= s.len(),
{
    let c = s[i];
    if c == '/' {
        if i + 1 < s.len() && s[i + 1] == '/' {
            lemma_seek_newline_range(s, i + 2);
        } else if i + 1 < s.len() && s[i + 1] == '*' {
            lemma_comment_scan_range(s, i + 2, 1);
        }
    } else if c == '"' {
        lemma_seek_quote_range(s, i + 1);
    } else if is_digit_char(c) {
        lemma_seek_digits_range(s, i + 1);
        let e1 = seek_digits(s, i + 1);
        if e1 < s.len() && s[e1] == '.' && e1 + 1 < s.len() && is_digit_char(s[e1 + 1]) {
            lemma_seek_digits_range(s, e1 + 2);
        }
    } else if is_alpha_char(c) {
        lemma_seek_alnum_range(s, i + 1);
    }
}

/// Newlines crossed by a comment scan are at most the characters crossed.
pub proof fn lemma_comment_scan_lines_bound(s: Seq<char>, i: int, depth: int)
    requires
        0 <= i <= s.len(),
    ensures
        comment_scan(s, i, depth).lines >= 0,
        match comment_scan(s, i, depth).end {
            Some(e) => comment_scan(s, i, depth).lines <= e - i,
            None => comment_scan(s, i, depth).lines <= s.len() - i,
        },
    decreases s.len() - i,
{
    if i < s.len() {
        if s[i] == '*' && i + 1 < s.len() && s[i + 1] == '/' {
            if depth > 1 {
                lemma_comment_scan_lines_bound(s, i + 2, depth - 1);
                lemma_comment_scan_range(s, i + 2, depth - 1);
            }
        } else if s[i] == '/' && i + 1 < s.len() && s[i + 1] == '*' {
            lemma_comment_scan_lines_bound(s, i + 2, depth + 1);
            lemma_comment_scan_range(s, i + 2, depth + 1);
        } else if s[i] == '\n' {
            lemma_comment_scan_lines_bound(s, i + 1, depth);
            lemma_comment_scan_range(s, i + 1, depth);
        } else {
            lemma_comment_scan_lines_bound(s, i + 1, depth);
            lemma_comment_scan_range(s, i + 1, depth);
        }
    }
}

} // verus!

verus! {

// ---------------------------------------------------------------------------
// The executable scanner.
// ---------------------------------------------------------------------------
/// The token models of a token sequence.
pub open spec fn tok_models(ts: Seq<Token>) -> Seq<TokenModel> {
    ts.map_values(|t: Token| t@)
}

/// The diagnostic models of a diagnostic sequence.
pub open spec fn err_models(es: Seq<TeciError>) -> Seq<ErrModel> {
    es.map_values(|e: TeciError| e@)
}

/// Every token in the sequence is well-formed.
pub open spec fn all_tokens_wf(ts: Seq<Token>) -> bool {
    forall|k: int| 0 <= k < ts.len() ==> (#[trigger] ts[k]).wf()
}

/// The view of an optional literal payload.
pub open spec fn opt_obj_view(l: Option<Object>) -> Option<ObjModel> {
    match l {
        Some(o) => Some(o@),
        None => None,
    }
}

/// Converts raw source text into the ordered token stream, collecting every
/// lexical diagnostic on the way rather than stopping at the first.
#[derive(Debug)]
pub struct Scanner {
    source: Vec<char>,
    tokens: Vec<Token>,
    start: usize,
    current: usize,
    line: usize,
    errors: Vec<TeciError>,
}

impl Scanner {
    /// Cursor, line counter and collected tokens are in a consistent state.
    pub closed spec fn wf(self) -> bool {
        &&& self.start <= self.current <= self.source@.len()
        &&& self.source@.len() < usize::MAX
        &&& 1 <= self.line <= 1 + self.current
        &&& all_tokens_wf(self.tokens@)
    }

    /// The scanned character sequence.
    pub closed spec fn src(self) -> Seq<char> {
        self.source@
    }

    /// A scanner that has not consumed anything yet.
    pub closed spec fn fresh(self) -> bool {
        &&& self.wf()
        &&& self.current == 0
        &&& self.line == 1
        &&& self.tokens@.len() == 0
        &&& self.errors@.len() == 0
    }

    pub fn new(source: String) -> (s: Scanner)
        requires
            source@.len() < usize::MAX,
        ensures
            s.src() == source@,
            s.fresh(),
    {
        Scanner {
            source: str_to_chars(source.as_str()),
            tokens: Vec::new(),
            start: 0,
            current: 0,
            line: 1,
            errors: Vec::new(),
        }
    }

    fn is_at_end(&self) -> (b: bool)
        ensures
            b == (self.current >= self.src().len()),
    {
        self.current >= self.source.len()
    }

    fn advance(&mut self) -> (c: char)
        requires
            old(self).current < old(self).src().len(),
            old(self).src().len() < usize::MAX,
        ensures
            final(self).source == old(self).source,
            final(self).tokens == old(self).tokens,
            final(self).errors == old(self).errors,
            final(self).start == old(self).start,
            final(self).line == old(self).line,
            final(self).current == old(self).current + 1,
            c == old(self).src()[old(self).current as int],
    {
        let c = self.source[self.current];
        self.current = self.current + 1;
        c
    }

    fn peek(&self) -> (r: Option<char>)
        ensures
            r == (if self.current < self.src().len() {
                Some(self.src()[self.current as int])
            } else {
                None::<char>
            }),
    {
        if self.current < self.source.len() {
            Some(self.source[self.current])
        } else {
            None
        }
    }

    fn peek_next(&self) -> (r: Option<char>)
        requires
            self.current < usize::MAX,
        ensures
            r == (if self.current + 1 < self.src().len() {
                Some(self.src()[self.current + 1])
            } else {
                None::<char>
            }),
    {
        if self.current + 1 < self.source.len() {
            Some(self.source[self.current + 1])
        } else {
            None
        }
    }

    fn next_is_and_advance(&mut self, expected: char) -> (b: bool)
        requires
            old(self).src().len() < usize::MAX,
        ensures
            final(self).source == old(self).source,
            final(self).tokens == old(self).tokens,
            final(self).errors == old(self).errors,
            final(self).start == old(self).start,
            final(self).line == old(self).line,
            b == (old(self).current < old(self).src().len() && old(self).src()[old(
                self,
            ).current as int] == expected),
            final(self).current == (if b {
                old(self).current + 1
            } else {
                old(self).current as int
            }),
    {
        if self.current < self.source.len() {
            let ch = self.source[self.current];
            if ch == expected {
                self.current = self.current + 1;
                return true;
            }
        }
        false
    }

    fn is_digit(ch: Option<char>) -> (b: bool)
        ensures
            b == (ch is Some && is_digit_char(ch->0)),
    {
        if let Some(c) = ch {
            '0' <= c && c <= '9'
        } else {
            false
        }
    }

    fn is_alphanumeric(ch: Option<char>) -> (b: bool)
        ensures
            b == (ch is Some && is_alnum_char(ch->0)),
    {
        if let Some(c) = ch {
            ('a' <= c && c <= 'z') || ('A' <= c && c <= 'Z') || ('0' <= c && c <= '9') || c == '_'
        } else {
            false
        }
    }
}

/// The characters of `source` between `from` and `to`.
fn copy_chars(source: &Vec<char>, from: usize, to: usize) -> (r: Vec<char>)
    requires
        from <= to <= source@.len(),
    ensures
        r@ == source@.subrange(from as int, to as int),
{
    let mut v: Vec<char> = Vec::new();
    let mut j: usize = from;
    while j < to
        invariant
            from <= j <= to <= source@.len(),
            v@ == source@.subrange(from as int, j as int),
        decreases to - j,
    {
        v.push(source[j]);
        proof {
            assert(source@.subrange(from as int, j as int).push(source@[j as int])
                =~= source@.subrange(from as int, j + 1));
        }
        j = j + 1;
    }
    v
}

/// The substring of `source` between `from` and `to`, as an owned string.
fn substring_chars(source: &Vec<char>, from: usize, to: usize) -> (r: String)
    requires
        from <= to <= source@.len(),
    ensures
        r@ == source@.subrange(from as int, to as int),
{
    let v = copy_chars(source, from, to);
    chars_to_string(&v)
}

} // verus!

verus! {

// ---------------------------------------------------------------------------
// Further facts about the mathematical scanner, used by the executable one.
// ---------------------------------------------------------------------------
/// Every character skipped by `seek_digits` is a digit.
proof fn lemma_seek_digits_content(s: Seq<char>, i: int)
    requires
        0 <= i,
    ensures
        forall|k: int| i <= k < seek_digits(s, i) ==> is_digit_char(#[trigger] s[k]),
    decreases s.len() - i,
{
    if i < s.len() && is_digit_char(s[i]) {
        lemma_seek_digits_content(s, i + 1);
    }
}

/// Reading one more digit multiplies the value by ten and adds the digit.
proof fn lemma_dec_val_snoc(s: Seq<char>, c: char)
    ensures
        dec_val(s.push(c)) == dec_val(s) * 10 + (c as int - '0' as int),
{
    assert(s.push(c).drop_last() =~= s);
}

/// A digit numeral has a nonnegative value.
proof fn lemma_dec_val_nonneg(s: Seq<char>)
    requires
        forall|k: int| 0 <= k < s.len() ==> is_digit_char(#[trigger] s[k]),
    ensures
        dec_val(s) >= 0,
    decreases s.len(),
{
    if s.len() > 0 {
        assert(forall|k: int| 0 <= k < s.drop_last().len() ==> is_digit_char(
            #[trigger] s.drop_last()[k],
        ));
        lemma_dec_val_nonneg(s.drop_last());
    }
}

/// Powers of ten grow with the exponent.
proof fn lemma_pow10_mono(a: int, b: int)
    requires
        a <= b,
    ensures
        pow10(a) <= pow10(b),
        pow10(a) >= 1,
    decreases b - a,
{
    if a < b {
        lemma_pow10_mono(a, b - 1);
    } else {
        lemma_pow10_pos(a);
    }
}

/// Powers of ten are positive.
proof fn lemma_pow10_pos(k: int)
    ensures
        pow10(k) >= 1,
    decreases k,
{
    if k > 0 {
        lemma_pow10_pos(k - 1);
    }
}

/// The largest power of ten the representation accepts.
proof fn lemma_pow10_18()
    ensures
        pow10(18) == 1000000000000000000,
{
    reveal_with_fuel(pow10, 20);
}

} // verus!

verus! {

impl Scanner {
    /// The reserved-word table.
    fn keyword(check: &Vec<char>) -> (r: Option<TokenType>)
        ensures
            r == keyword_kind(check@),
    {
        proof {
            reveal_strlit("and");
            reveal_strlit("class");
            reveal_strlit("else");
            reveal_strlit("false");
            reveal_strlit("for");
            reveal_strlit("fun");
            reveal_strlit("if");
            reveal_strlit("let");
            reveal_strlit("nil");
            reveal_strlit("or");
            reveal_strlit("print");
            reveal_strlit("return");
            reveal_strlit("super");
            reveal_strlit("this");
            reveal_strlit("true");
            reveal_strlit("while");
        }
        let n = check.len();
        if n == 3 && check[0] == 'a' && check[1] == 'n' && check[2] == 'd' {
            proof {
                assert(check@ =~= "and"@);
            }
            Some(TokenType::And)
        } else if n == 5 && check[0] == 'c' && check[1] == 'l' && check[2] == 'a' && check[3] == 's'
            && check[4] == 's' {
            proof {
                assert(check@ =~= "class"@);
            }
            Some(TokenType::Class)
        } else if n == 4 && check[0] == 'e' && check[1] == 'l' && check[2] == 's' && check[3]
            == 'e' {
            proof {
                assert(check@ =~= "else"@);
            }
            Some(TokenType::Else)
        } else if n == 5 && check[0] == 'f' && check[1] == 'a' && check[2] == 'l' && check[3] == 's'
            && check[4] == 'e' {
            proof {
                assert(check@ =~= "false"@);
            }
            Some(TokenType::False)
        } else if n == 3 && check[0] == 'f' && check[1] == 'o' && check[2] == 'r' {
            proof {
                assert(check@ =~= "for"@);
            }
            Some(TokenType::For)
        } else if n == 3 && check[0] == 'f' && check[1] == 'u' && check[2] == 'n' {
            proof {
                assert(check@ =~= "fun"@);
            }
            Some(TokenType::Fun)
        } else if n == 2 && check[0] == 'i' && check[1] == 'f' {
            proof {
                assert(check@ =~= "if"@);
            }
            Some(TokenType::If)
        } else if n == 3 && check[0] == 'l' && check[1] == 'e' && check[2] == 't' {
            proof {
                assert(check@ =~= "let"@);
            }
            Some(TokenType::Let)
        } else if n == 3 && check[0] == 'n' && check[1] == 'i' && check[2] == 'l' {
            proof {
                assert(check@ =~= "nil"@);
            }
            Some(TokenType::Nil)
        } else if n == 2 && check[0] == 'o' && check[1] == 'r' {
            proof {
                assert(check@ =~= "or"@);
            }
            Some(TokenType::Or)
        } else if n == 5 && check[0] == 'p' && check[1] == 'r' && check[2] == 'i' && check[3] == 'n'
            && check[4] == 't' {
            proof {
                assert(check@ =~= "print"@);
            }
            Some(TokenType::Print)
        } else if n == 6 && check[0] == 'r' && check[1] == 'e' && check[2] == 't' && check[3] == 'u'
            && check[4] == 'r' && check[5] == 'n' {
            proof {
                assert(check@ =~= "return"@);
            }
            Some(TokenType::Return)
        } else if n == 5 && check[0] == 's' && check[1] == 'u' && check[2] == 'p' && check[3] == 'e'
            && check[4] == 'r' {
            proof {
                assert(check@ =~= "super"@);
            }
            Some(TokenType::Super)
        } else if n == 4 && check[0] == 't' && check[1] == 'h' && check[2] == 'i' && check[3]
            == 's' {
            proof {
                assert(check@ =~= "this"@);
            }
            Some(TokenType::This)
        } else if n == 4 && check[0] == 't' && check[1] == 'r' && check[2] == 'u' && check[3]
            == 'e' {
            proof {
                assert(check@ =~= "true"@);
            }
            Some(TokenType::True)
        } else if n == 5 && check[0] == 'w' && check[1] == 'h' && check[2] == 'i' && check[3] == 'l'
            && check[4] == 'e' {
            proof {
                assert(check@ =~= "while"@);
            }
            Some(TokenType::While)
        } else {
            None
        }
    }

    /// Append a token whose lexeme is the current scan window and whose
    /// literal payload is `literal`.
    fn add_token_object(&mut self, ttype: TokenType, literal: Option<Object>)
        requires
            old(self).start <= old(self).current <= old(self).src().len(),
            match literal {
                Some(o) => o.wf(),
                None => true,
            },
        ensures
            final(self).source == old(self).source,
            final(self).errors == old(self).errors,
            final(self).start == old(self).start,
            final(self).current == old(self).current,
            final(self).line == old(self).line,
            tok_models(final(self).tokens@) == tok_models(old(self).tokens@).push(
                TokenModel {
                    kind: ttype,
                    lexeme: old(self).src().subrange(
                        old(self).start as int,
                        old(self).current as int,
                    ),
                    literal: opt_obj_view(literal),
                    line: old(self).line as int,
                },
            ),
            all_tokens_wf(old(self).tokens@) ==> all_tokens_wf(final(self).tokens@),
    {
        let lexeme = substring_chars(&self.source, self.start, self.current);
        let t = Token::new(ttype, lexeme, literal, self.line);
        self.tokens.push(t);
        proof {
            assert(tok_models(self.tokens@) =~= tok_models(old(self).tokens@).push(t@));
            if all_tokens_wf(old(self).tokens@) {
                assert forall|k: int| 0 <= k < self.tokens@.len() implies (
                #[trigger] self.tokens@[k]).wf() by {
                    if k < old(self).tokens@.len() {
                        assert(old(self).tokens@[k].wf());
                    }
                }
            }
        }
    }

    /// Append a token with no literal payload.
    fn add_token(&mut self, ttype: TokenType)
        requires
            old(self).start <= old(self).current <= old(self).src().len(),
        ensures
            final(self).source == old(self).source,
            final(self).errors == old(self).errors,
            final(self).start == old(self).start,
            final(self).current == old(self).current,
            final(self).line == old(self).line,
            tok_models(final(self).tokens@) == tok_models(old(self).tokens@).push(
                TokenModel {
                    kind: ttype,
                    lexeme: old(self).src().subrange(
                        old(self).start as int,
                        old(self).current as int,
                    ),
                    literal: None,
                    line: old(self).line as int,
                },
            ),
            all_tokens_wf(old(self).tokens@) ==> all_tokens_wf(final(self).tokens@),
    {
        self.add_token_object(ttype, None);
    }

    /// Scan the tail of an identifier and classify the word against the
    /// keyword table.
    fn read_identifier(&mut self)
        requires
            old(self).start + 1 == old(self).current,
            old(self).current <= old(self).src().len(),
            old(self).src().len() < usize::MAX,
        ensures
            final(self).source == old(self).source,
            final(self).errors == old(self).errors,
            final(self).start == old(self).start,
            final(self).line == old(self).line,
            final(self).current as int == ident_step(
                old(self).src(),
                old(self).start as int,
                old(self).line as int,
            ).next,
            tok_models(final(self).tokens@) == tok_models(old(self).tokens@).push(
                ident_step(old(self).src(), old(self).start as int, old(self).line as int).token
                    ->0,
            ),
            all_tokens_wf(old(self).tokens@) ==> all_tokens_wf(final(self).tokens@),
    {
        loop
            invariant
                self.source == old(self).source,
                self.tokens == old(self).tokens,
                self.errors == old(self).errors,
                self.start == old(self).start,
                self.line == old(self).line,
                old(self).start + 1 <= self.current <= self.src().len(),
                self.src().len() < usize::MAX,
                seek_alnum(self.src(), old(self).start + 1) == seek_alnum(
                    self.src(),
                    self.current as int,
                ),
            ensures
                self.source == old(self).source,
                self.tokens == old(self).tokens,
                self.errors == old(self).errors,
                self.start == old(self).start,
                self.line == old(self).line,
                self.current as int == seek_alnum(self.src(), old(self).start + 1),
            decreases self.src().len() - self.current,
        {
            let p = self.peek();
            if Scanner::is_alphanumeric(p) {
                self.advance();
            } else {
                proof {
                    assert(seek_alnum(self.src(), self.current as int) == self.current as int);
                }
                break ;
            }
        }
        let word = copy_chars(&self.source, self.start, self.current);
        let kind = match Scanner::keyword(&word) {
            Some(t) => t,
            None => TokenType::Identifier,
        };
        self.add_token(kind);
    }
}

} // verus!

verus! {

/// Counting newlines over one more character.
proof fn lemma_newlines_in_snoc(s: Seq<char>, i: int, j: int)
    requires
        0 <= i <= j < s.len(),
    ensures
        newlines_in(s, i, j + 1) == newlines_in(s, i, j) + (if s[j] == '\n' {
            1int
        } else {
            0int
        }),
    decreases j - i,
{
    if i < j {
        lemma_newlines_in_snoc(s, i + 1, j);
        assert(newlines_in(s, i, j + 1) == (if s[i] == '\n' {
            1int
        } else {
            0int
        }) + newlines_in(s, i + 1, j + 1));
        assert(newlines_in(s, i, j) == (if s[i] == '\n' {
            1int
        } else {
            0int
        }) + newlines_in(s, i + 1, j));
    } else {
        assert(newlines_in(s, i + 1, j + 1) == 0);
        assert(newlines_in(s, i, j) == 0);
        assert(newlines_in(s, i, j + 1) == (if s[i] == '\n' {
            1int
        } else {
            0int
        }) + newlines_in(s, i + 1, j + 1));
    }
}

/// Saturation of a numeral value at the largest representable numerator.
pub open spec fn sat_of(v: int) -> int {
    if v > i64::MAX {
        0x8000_0000_0000_0000
    } else {
        v
    }
}

/// Fold the digits of `source[from..to]` onto a saturated accumulator.
fn accum_digits(source: &Vec<char>, from: usize, to: usize, acc0: u128, Ghost(pre): Ghost<
    Seq<char>,
>) -> (r: u128)
    requires
        from <= to <= source@.len(),
        forall|k: int| from <= k < to ==> is_digit_char(#[trigger] source@[k]),
        forall|k: int| 0 <= k < pre.len() ==> is_digit_char(#[trigger] pre[k]),
        acc0 == sat_of(dec_val(pre)),
    ensures
        r == sat_of(dec_val(pre + source@.subrange(from as int, to as int))),
{
    let mut acc = acc0;
    let mut j = from;
    proof {
        assert(pre + source@.subrange(from as int, from as int) =~= pre);
    }
    while j < to
        invariant
            from <= j <= to <= source@.len(),
            forall|k: int| from <= k < to ==> is_digit_char(#[trigger] source@[k]),
            forall|k: int| 0 <= k < pre.len() ==> is_digit_char(#[trigger] pre[k]),
            acc == sat_of(dec_val(pre + source@.subrange(from as int, j as int))),
        decreases to - j,
    {
        let ghost cur = pre + source@.subrange(from as int, j as int);
        let c = source[j];
        proof {
            assert(forall|k: int| 0 <= k < cur.len() ==> is_digit_char(#[trigger] cur[k]));
            lemma_dec_val_nonneg(cur);
            lemma_dec_val_snoc(cur, c);
            assert(cur.push(c) =~= pre + source@.subrange(from as int, j + 1));
        }
        let d: u128 = (c as u32 - 48) as u128;
        if acc > i64::MAX as u128 {
            acc = 0x8000_0000_0000_0000;
        } else {
            acc = acc * 10 + d;
            if acc > i64::MAX as u128 {
                acc = 0x8000_0000_0000_0000;
            }
        }
        j = j + 1;
    }
    acc
}

impl Scanner {
    /// Scan the remainder of a string literal after its opening quote.
    fn read_string(&mut self) -> (r: Result<(), TeciError>)
        requires
            old(self).start + 1 == old(self).current,
            old(self).current <= old(self).src().len(),
            old(self).src().len() < usize::MAX,
            1 <= old(self).line <= 1 + old(self).start,
        ensures
            final(self).source == old(self).source,
            final(self).start == old(self).start,
            final(self).errors == old(self).errors,
            ({
                let st = string_step(old(self).src(), old(self).start as int, old(self).line as int);
                &&& final(self).current as int == st.next
                &&& final(self).line as int == st.line
                &&& 1 <= final(self).line <= 1 + final(self).current
                &&& match st.error {
                    Some(em) => r is Err && r->Err_0@ == em && final(self).tokens == old(
                        self,
                    ).tokens,
                    None => r is Ok && tok_models(final(self).tokens@) == tok_models(
                        old(self).tokens@,
                    ).push(st.token->0),
                }
                &&& (all_tokens_wf(old(self).tokens@) ==> all_tokens_wf(final(self).tokens@))
            }),
    {
        loop
            invariant
                self.source == old(self).source,
                self.tokens == old(self).tokens,
                self.errors == old(self).errors,
                self.start == old(self).start,
                old(self).start + 1 <= self.current <= self.src().len(),
                self.src().len() < usize::MAX,
                seek_quote(self.src(), old(self).start + 1) == seek_quote(
                    self.src(),
                    self.current as int,
                ),
                self.line as int == old(self).line + newlines_in(
                    self.src(),
                    old(self).start + 1,
                    self.current as int,
                ),
                1 <= self.line <= 1 + self.current,
            ensures
                self.source == old(self).source,
                self.tokens == old(self).tokens,
                self.errors == old(self).errors,
                self.start == old(self).start,
                self.current as int == seek_quote(self.src(), old(self).start + 1),
                self.current <= self.src().len(),
                self.line as int == old(self).line + newlines_in(
                    self.src(),
                    old(self).start + 1,
                    self.current as int,
                ),
                1 <= self.line <= 1 + self.current,
            decreases self.src().len() - self.current,
        {
            let p = self.peek();
            match p {
                None => {
                    proof {
                        assert(seek_quote(self.src(), self.current as int) == self.current as int);
                    }
                    break ;
                },
                Some(c) => {
                    if c == '"' {
                        proof {
                            assert(seek_quote(self.src(), self.current as int)
                                == self.current as int);
                        }
                        break ;
                    }
                    if c == '\n' {
                        self.line = self.line + 1;
                    }
                    let ghost pcur = self.current as int;
                    self.advance();
                    proof {
                        lemma_newlines_in_snoc(self.src(), old(self).start + 1, pcur);
                    }
                },
            }
        }
        if self.is_at_end() {
            return Err(TeciError::new(self.line, "Unterminated string."));
        }
        let q = self.current;
        self.advance();
        let value = substring_chars(&self.source, self.start + 1, q);
        self.add_token_object(TokenType::String, Some(Object::Str(value)));
        Ok(())
    }

    /// Scan the remainder of a numeric literal after its first digit.
    fn read_number(&mut self) -> (r: Result<(), TeciError>)
        requires
            old(self).start + 1 == old(self).current,
            old(self).current <= old(self).src().len(),
            old(self).src().len() < usize::MAX,
            is_digit_char(old(self).src()[old(self).start as int]),
        ensures
            final(self).source == old(self).source,
            final(self).start == old(self).start,
            final(self).errors == old(self).errors,
            final(self).line == old(self).line,
            ({
                let st = number_step(old(self).src(), old(self).start as int, old(self).line as int);
                &&& final(self).current as int == st.next
                &&& match st.error {
                    Some(em) => r is Err && r->Err_0@ == em && final(self).tokens == old(
                        self,
                    ).tokens,
                    None => r is Ok && tok_models(final(self).tokens@) == tok_models(
                        old(self).tokens@,
                    ).push(st.token->0),
                }
                &&& (all_tokens_wf(old(self).tokens@) ==> all_tokens_wf(final(self).tokens@))
            }),
    {
        loop
            invariant
                self.source == old(self).source,
                self.tokens == old(self).tokens,
                self.errors == old(self).errors,
                self.start == old(self).start,
                self.line == old(self).line,
                old(self).start + 1 <= self.current <= self.src().len(),
                self.src().len() < usize::MAX,
                seek_digits(self.src(), old(self).start + 1) == seek_digits(
                    self.src(),
                    self.current as int,
                ),
            ensures
                self.source == old(self).source,
                self.tokens == old(self).tokens,
                self.errors == old(self).errors,
                self.start == old(self).start,
                self.line == old(self).line,
                self.current as int == seek_digits(self.src(), old(self).start + 1),
                self.current <= self.src().len(),
            decreases self.src().len() - self.current,
        {
            let p = self.peek();
            if Scanner::is_digit(p) {
                self.advance();
            } else {
                proof {
                    assert(seek_digits(self.src(), self.current as int) == self.current as int);
                }
                break ;
            }
        }
        let e1 = self.current;
        let mut frac = false;
        if Scanner::is_digit(self.peek_next()) {
            let p = self.peek();
            if p == Some('.') {
                frac = true;
                self.advance();
                self.advance();
                loop
                    invariant
                        self.source == old(self).source,
                        self.tokens == old(self).tokens,
                        self.errors == old(self).errors,
                        self.start == old(self).start,
                        self.line == old(self).line,
                        e1 + 2 <= self.current <= self.src().len(),
                        self.src().len() < usize::MAX,
                        seek_digits(self.src(), e1 + 2) == seek_digits(
                            self.src(),
                            self.current as int,
                        ),
                    ensures
                        self.source == old(self).source,
                        self.tokens == old(self).tokens,
                        self.errors == old(self).errors,
                        self.start == old(self).start,
                        self.line == old(self).line,
                        self.current as int == seek_digits(self.src(), e1 + 2),
                        e1 + 2 <= self.current <= self.src().len(),
                    decreases self.src().len() - self.current,
                {
                    let p2 = self.peek();
                    if Scanner::is_digit(p2) {
                        self.advance();
                    } else {
                        proof {
                            assert(seek_digits(self.src(), self.current as int)
                                == self.current as int);
                        }
                        break ;
                    }
                }
            }
        }
        let end = self.current;
        proof {
            lemma_seek_digits_content(self.src(), old(self).start + 1);
            if frac {
                lemma_seek_digits_content(self.src(), e1 + 2);
            }
        }
        let acc1 = accum_digits(&self.source, self.start, e1, 0, Ghost(Seq::empty()));
        proof {
            assert(Seq::<char>::empty() + self.src().subrange(old(self).start as int, e1 as int)
                =~= self.src().subrange(old(self).start as int, e1 as int));
        }
        let acc = if frac {
            accum_digits(
                &self.source,
                e1 + 1,
                end,
                acc1,
                Ghost(self.src().subrange(old(self).start as int, e1 as int)),
            )
        } else {
            acc1
        };
        let k: usize = if frac {
            end - e1 - 1
        } else {
            0
        };
        proof {
            if frac {
                assert(self.src().subrange(old(self).start as int, e1 as int) + self.src().subrange(
                    e1 + 1,
                    end as int,
                ) =~= number_digits(self.src(), old(self).start as int, end as int));
            } else {
                assert(self.src().subrange(old(self).start as int, e1 as int) =~= number_digits(
                    self.src(),
                    old(self).start as int,
                    end as int,
                ));
            }
        }
        if acc <= i64::MAX as u128 && k <= 18 {
            let mut p: u64 = 1;
            let mut j: usize = 0;
            while j < k
                invariant
                    j <= k <= 18,
                    p as int == pow10(j as int),
                decreases k - j,
            {
                proof {
                    lemma_pow10_mono(j as int, 17);
                    lemma_pow10_18();
                }
                p = p * 10;
                j = j + 1;
            }
            proof {
                lemma_pow10_mono(k as int, 18);
                lemma_pow10_18();
                lemma_pow10_pos(k as int);
            }
            let literal = Object::Num(Rat { num: acc as i64, den: p as i64 });
            self.add_token_object(TokenType::Number, Some(literal));
            Ok(())
        } else {
            Err(TeciError::new(self.line, "Number literal out of range."))
        }
    }
}

} // verus!

verus! {

/// Appending one element is concatenating a singleton.
proof fn lemma_push_opt<T>(s: Seq<T>, x: T)
    ensures
        s.push(x) == s + opt_seq(Some(x)),
{
    assert(s.push(x) =~= s + opt_seq(Some(x)));
}

/// Appending nothing is the identity.
proof fn lemma_none_opt<T>(s: Seq<T>)
    ensures
        s == s + opt_seq(None::<T>),
{
    assert(s + opt_seq(None::<T>) =~= s);
}

impl Scanner {
    /// Scan the body of a block comment whose opening delimiter stood on
    /// line `open_line`; an unterminated comment is an error tied to that
    /// line.
    fn read_comment(&mut self, open_line: usize) -> (r: Result<(), TeciError>)
        requires
            old(self).current <= old(self).src().len(),
            old(self).src().len() < usize::MAX,
            1 <= old(self).line <= 1 + old(self).current,
        ensures
            final(self).source == old(self).source,
            final(self).tokens == old(self).tokens,
            final(self).errors == old(self).errors,
            final(self).start == old(self).start,
            ({
                let cs = comment_scan(old(self).src(), old(self).current as int, 1);
                &&& final(self).line as int == old(self).line + cs.lines
                &&& 1 <= final(self).line <= 1 + final(self).current
                &&& old(self).current <= final(self).current
                &&& match cs.end {
                    Some(e) => r is Ok && final(self).current as int == e,
                    None => r is Err && final(self).current as int == old(self).src().len()
                        && r->Err_0@ == (ErrModel {
                        token: None,
                        line: open_line as int,
                        message: "Unterminated comment."@,
                    }),
                }
            }),
    {
        let mut depth: usize = 1;
        loop
            invariant
                self.source == old(self).source,
                self.tokens == old(self).tokens,
                self.errors == old(self).errors,
                self.start == old(self).start,
                old(self).current <= self.current <= self.src().len(),
                self.src().len() < usize::MAX,
                1 <= depth <= 1 + self.current,
                1 <= self.line <= 1 + self.current,
                old(self).line <= self.line,
                comment_scan(old(self).src(), old(self).current as int, 1).end == comment_scan(
                    self.src(),
                    self.current as int,
                    depth as int,
                ).end,
                comment_scan(old(self).src(), old(self).current as int, 1).lines == (
                self.line - old(self).line) + comment_scan(
                    self.src(),
                    self.current as int,
                    depth as int,
                ).lines,
            decreases self.src().len() - self.current,
        {
            let p = self.peek();
            match p {
                None => {
                    proof {
                        lemma_comment_scan_range(self.src(), self.current as int, depth as int);
                    }
                    return Err(TeciError::new(open_line, "Unterminated comment."));
                },
                Some(c) => {
                    if c == '*' {
                        self.advance();
                        if self.next_is_and_advance('/') {
                            if depth == 1 {
                                return Ok(());
                            }
                            depth = depth - 1;
                        }
                    } else if c == '/' {
                        self.advance();
                        if self.next_is_and_advance('*') {
                            depth = depth + 1;
                        }
                    } else if c == '\n' {
                        self.advance();
                        self.line = self.line + 1;
                    } else {
                        self.advance();
                    }
                },
            }
        }
    }

    /// Scan one maximal token (or skip whitespace or a comment), recording
    /// any lexical diagnostic and carrying on.
    fn scan_token(&mut self)
        requires
            old(self).start == old(self).current,
            old(self).current < old(self).src().len(),
            old(self).src().len() < usize::MAX,
            1 <= old(self).line <= 1 + old(self).current,
            all_tokens_wf(old(self).tokens@),
        ensures
            final(self).source == old(self).source,
            ({
                let st = spec_step(old(self).src(), old(self).current as int, old(self).line as int);
                &&& final(self).current as int == st.next
                &&& final(self).line as int == st.line
                &&& tok_models(final(self).tokens@) == tok_models(old(self).tokens@) + opt_seq(
                    st.token,
                )
                &&& err_models(final(self).errors@) == err_models(old(self).errors@) + opt_seq(
                    st.error,
                )
            }),
            all_tokens_wf(final(self).tokens@),
            old(self).current < final(self).current <= old(self).src().len(),
            1 <= final(self).line <= 1 + final(self).current,
    {
        let ghost st = spec_step(old(self).src(), old(self).current as int, old(self).line as int);
        let c = self.advance();
        if c == '(' {
            self.add_token(TokenType::LeftParen);
            proof {
                lemma_push_opt(tok_models(old(self).tokens@), st.token->0);
                lemma_none_opt(err_models(old(self).errors@));
            }
        } else if c == ')' {
            self.add_token(TokenType::RightParen);
            proof {
                lemma_push_opt(tok_models(old(self).tokens@), st.token->0);
                lemma_none_opt(err_models(old(self).errors@));
            }
        } else if c == '{' {
            self.add_token(TokenType::LeftBrace);
            proof {
                lemma_push_opt(tok_models(old(self).tokens@), st.token->0);
                lemma_none_opt(err_models(old(self).errors@));
            }
        } else if c == '}' {
            self.add_token(TokenType::RightBrace);
            proof {
                lemma_push_opt(tok_models(old(self).tokens@), st.token->0);
                lemma_none_opt(err_models(old(self).errors@));
            }
        } else if c == ',' {
            self.add_token(TokenType::Comma);
            proof {
                lemma_push_opt(tok_models(old(self).tokens@), st.token->0);
                lemma_none_opt(err_models(old(self).errors@));
            }
        } else if c == '.' {
            self.add_token(TokenType::Dot);
            proof {
                lemma_push_opt(tok_models(old(self).tokens@), st.token->0);
                lemma_none_opt(err_models(old(self).errors@));
            }
        } else if c == ';' {
            self.add_token(TokenType::Semicolon);
            proof {
                lemma_push_opt(tok_models(old(self).tokens@), st.token->0);
                lemma_none_opt(err_models(old(self).errors@));
            }
        } else if c == '+' {
            self.add_token(TokenType::Plus);
            proof {
                lemma_push_opt(tok_models(old(self).tokens@), st.token->0);
                lemma_none_opt(err_models(old(self).errors@));
            }
        } else if c == '-' {
            self.add_token(TokenType::Minus);
            proof {
                lemma_push_opt(tok_models(old(self).tokens@), st.token->0);
                lemma_none_opt(err_models(old(self).errors@));
            }
        } else if c == '*' {
            self.add_token(TokenType::Star);
            proof {
                lemma_push_opt(tok_models(old(self).tokens@), st.token->0);
                lemma_none_opt(err_models(old(self).errors@));
            }
        } else if c == '!' {
            let two = self.next_is_and_advance('=');
            self.add_token(
                if two {
                    TokenType::BangEqual
                } else {
                    TokenType::Bang
                },
            );
            proof {
                lemma_push_opt(tok_models(old(self).tokens@), st.token->0);
                lemma_none_opt(err_models(old(self).errors@));
            }
        } else if c == '<' {
            let two = self.next_is_and_advance('=');
            self.add_token(
                if two {
                    TokenType::LessEqual
                } else {
                    TokenType::Less
                },
            );
            proof {
                lemma_push_opt(tok_models(old(self).tokens@), st.token->0);
                lemma_none_opt(err_models(old(self).errors@));
            }
        } else if c == '>' {
            let two = self.next_is_and_advance('=');
            self.add_token(
                if two {
                    TokenType::GreaterEqual
                } else {
                    TokenType::Greater
                },
            );
            proof {
                lemma_push_opt(tok_models(old(self).tokens@), st.token->0);
                lemma_none_opt(err_models(old(self).errors@));
            }
        } else if c == '=' {
            let two = self.next_is_and_advance('=');
            self.add_token(
                if two {
                    TokenType::Equals
                } else {
                    TokenType::Assign
                },
            );
            proof {
                lemma_push_opt(tok_models(old(self).tokens@), st.token->0);
                lemma_none_opt(err_models(old(self).errors@));
            }
        } else if c == '/' {
            if self.next_is_and_advance('/') {
                loop
                    invariant
                        self.source == old(self).source,
                        self.tokens == old(self).tokens,
                        self.errors == old(self).errors,
                        self.start == old(self).start,
                        self.line == old(self).line,
                        old(self).current + 2 <= self.current <= self.src().len(),
                        self.src().len() < usize::MAX,
                        seek_newline(self.src(), old(self).current + 2) == seek_newline(
                            self.src(),
                            self.current as int,
                        ),
                    ensures
                        self.source == old(self).source,
                        self.tokens == old(self).tokens,
                        self.errors == old(self).errors,
                        self.start == old(self).start,
                        self.line == old(self).line,
                        self.current as int == seek_newline(self.src(), old(self).current + 2),
                        self.current <= self.src().len(),
                    decreases self.src().len() - self.current,
                {
                    let p = self.peek();
                    match p {
                        Some(ch) => {
                            if ch != '\n' {
                                self.advance();
                            } else {
                                proof {
                                    assert(seek_newline(self.src(), self.current as int)
                                        == self.current as int);
                                }
                                break ;
                            }
                        },
                        None => {
                            proof {
                                assert(seek_newline(self.src(), self.current as int)
                                    == self.current as int);
                            }
                            break ;
                        },
                    }
                }
                proof {
                    lemma_seek_newline_range(old(self).src(), old(self).current + 2);
                    lemma_none_opt(tok_models(old(self).tokens@));
                    lemma_none_opt(err_models(old(self).errors@));
                }
            } else if self.next_is_and_advance('*') {
                let open_line = self.line;
                let r = self.read_comment(open_line);
                match r {
                    Ok(_) => {
                        proof {
                            lemma_none_opt(tok_models(old(self).tokens@));
                            lemma_none_opt(err_models(old(self).errors@));
                        }
                    },
                    Err(e) => {
                        self.errors.push(e);
                        proof {
                            lemma_none_opt(tok_models(old(self).tokens@));
                            assert(err_models(self.errors@) =~= err_models(old(self).errors@)
                                + opt_seq(st.error));
                        }
                    },
                }
                proof {
                    lemma_comment_scan_lines_bound(
                        old(self).src(),
                        old(self).current + 2,
                        1,
                    );
                    lemma_comment_scan_range(old(self).src(), old(self).current + 2, 1);
                }
            } else {
                self.add_token(TokenType::Slash);
                proof {
                    lemma_push_opt(tok_models(old(self).tokens@), st.token->0);
                    lemma_none_opt(err_models(old(self).errors@));
                }
            }
        } else if c == ' ' || c == '\r' || c == '\t' {
            proof {
                lemma_none_opt(tok_models(old(self).tokens@));
                lemma_none_opt(err_models(old(self).errors@));
            }
        } else if c == '\n' {
            self.line = self.line + 1;
            proof {
                lemma_none_opt(tok_models(old(self).tokens@));
                lemma_none_opt(err_models(old(self).errors@));
            }
        } else if c == '"' {
            let r = self.read_string();
            match r {
                Ok(_) => {
                    proof {
                        lemma_push_opt(tok_models(old(self).tokens@), st.token->0);
                        lemma_none_opt(err_models(old(self).errors@));
                    }
                },
                Err(e) => {
                    self.errors.push(e);
                    proof {
                        lemma_none_opt(tok_models(old(self).tokens@));
                        assert(err_models(self.errors@) =~= err_models(old(self).errors@)
                            + opt_seq(st.error));
                    }
                },
            }
            proof {
                lemma_seek_quote_range(old(self).src(), old(self).current + 1);
                lemma_newlines_in_range(
                    old(self).src(),
                    old(self).current + 1,
                    seek_quote(old(self).src(), old(self).current + 1),
                );
                lemma_newlines_in_range(
                    old(self).src(),
                    old(self).current + 1,
                    old(self).src().len() as int,
                );
            }
        } else if '0' <= c && c <= '9' {
            let r = self.read_number();
            match r {
                Ok(_) => {
                    proof {
                        lemma_push_opt(tok_models(old(self).tokens@), st.token->0);
                        lemma_none_opt(err_models(old(self).errors@));
                    }
                },
                Err(e) => {
                    self.errors.push(e);
                    proof {
                        lemma_none_opt(tok_models(old(self).tokens@));
                        assert(err_models(self.errors@) =~= err_models(old(self).errors@)
                            + opt_seq(st.error));
                    }
                },
            }
            proof {
                lemma_step_advances(
                    old(self).src(),
                    old(self).current as int,
                    old(self).line as int,
                );
            }
        } else if ('a' <= c && c <= 'z') || ('A' <= c && c <= 'Z') || c == '_' {
            self.read_identifier();
            proof {
                lemma_push_opt(tok_models(old(self).tokens@), st.token->0);
                lemma_none_opt(err_models(old(self).errors@));
                lemma_seek_alnum_range(old(self).src(), old(self).current + 1);
            }
        } else {
            self.errors.push(TeciError::new(self.line, "Unexpected character."));
            proof {
                lemma_none_opt(tok_models(old(self).tokens@));
                assert(err_models(self.errors@) =~= err_models(old(self).errors@) + opt_seq(
                    st.error,
                ));
            }
        }
    }

    /// Scan the whole source: the ordered token stream, always ended by the
    /// end-of-input token, together with every lexical diagnostic found on
    /// the way.  The caller should treat a nonempty diagnostic sequence as
    /// an aggregate lexical failure and not execute the program.
    pub fn scan_tokens(&mut self) -> (r: (Vec<Token>, Vec<TeciError>))
        requires
            old(self).fresh(),
        ensures
            tok_models(r.0@) == spec_scan(old(self).src(), 0, 1).tokens,
            err_models(r.1@) == spec_scan(old(self).src(), 0, 1).errors,
            all_tokens_wf(r.0@),
    {
        let ghost total = spec_scan(old(self).src(), 0, 1);
        while !self.is_at_end()
            invariant
                self.source == old(self).source,
                self.current <= self.src().len(),
                self.src().len() < usize::MAX,
                1 <= self.line <= 1 + self.current,
                all_tokens_wf(self.tokens@),
                tok_models(self.tokens@) + spec_scan(
                    self.src(),
                    self.current as int,
                    self.line as int,
                ).tokens == total.tokens,
                err_models(self.errors@) + spec_scan(
                    self.src(),
                    self.current as int,
                    self.line as int,
                ).errors == total.errors,
            decreases self.src().len() - self.current,
        {
            self.start = self.current;
            let ghost pc = self.current as int;
            let ghost pl = self.line as int;
            let ghost ptoks = tok_models(self.tokens@);
            let ghost perrs = err_models(self.errors@);
            self.scan_token();
            proof {
                let src = self.src();
                let st = spec_step(src, pc, pl);
                lemma_step_advances(src, pc, pl);
                assert(spec_scan(src, pc, pl).tokens == opt_seq(st.token) + spec_scan(
                    src,
                    st.next,
                    st.line,
                ).tokens);
                assert(spec_scan(src, pc, pl).errors == opt_seq(st.error) + spec_scan(
                    src,
                    st.next,
                    st.line,
                ).errors);
                assert((ptoks + opt_seq(st.token)) + spec_scan(src, st.next, st.line).tokens
                    =~= ptoks + spec_scan(src, pc, pl).tokens);
                assert((perrs + opt_seq(st.error)) + spec_scan(src, st.next, st.line).errors
                    =~= perrs + spec_scan(src, pc, pl).errors);
            }
        }
        let ghost ptoks = tok_models(self.tokens@);
        self.tokens.push(Token::new(TokenType::Eof, String::new(), None, self.line));
        proof {
            assert(spec_scan(self.src(), self.current as int, self.line as int).tokens
                =~= seq![eof_token(self.line as int)]);
            assert(spec_scan(self.src(), self.current as int, self.line as int).errors
                =~= Seq::<ErrModel>::empty());
            assert(tok_models(self.tokens@) =~= ptoks.push(eof_token(self.line as int)));
            assert(tok_models(self.tokens@) =~= total.tokens);
            assert(err_models(self.errors@) =~= total.errors);
            assert forall|k: int| 0 <= k < self.tokens@.len() implies (
            #[trigger] self.tokens@[k]).wf() by {
                if k < self.tokens@.len() - 1 {
                    assert(ptoks == tok_models(self.tokens@.drop_last()));
                }
            }
        }
        let mut toks: Vec<Token> = Vec::new();
        let mut errs: Vec<TeciError> = Vec::new();
        core::mem::swap(&mut toks, &mut self.tokens);
        core::mem::swap(&mut errs, &mut self.errors);
        (toks, errs)
    }
}

} // verus!

verus! {

/// A digit run ends exactly at the first non-digit.
proof fn lemma_seek_digits_all(s: Seq<char>, i: int, j: int)
    requires
        0 <= i <= j <= s.len(),
        forall|k: int| i <= k < j ==> is_digit_char(#[trigger] s[k]),
        j == s.len() || !is_digit_char(s[j]),
    ensures
        seek_digits(s, i) == j,
    decreases j - i,
{
    if i < j {
        lemma_seek_digits_all(s, i + 1, j);
    }
}

/// A quote search ends exactly at the first quote.
proof fn lemma_seek_quote_all(s: Seq<char>, i: int, j: int)
    requires
        0 <= i <= j <= s.len(),
        forall|k: int| i <= k < j ==> s[k] != '"',
        j == s.len() || s[j] == '"',
    ensures
        seek_quote(s, i) == j,
    decreases j - i,
{
    if i < j {
        lemma_seek_quote_all(s, i + 1, j);
    }
}

/// Law: scanning a whole-number literal (a nonempty run of digits whose
/// value is representable) yields exactly one Number token whose literal is
/// the exact value of the numeral over the denominator one, then the
/// end-of-input token, and no diagnostic.
pub proof fn lemma_scan_integer_literal(s: Seq<char>)
    requires
        s.len() > 0,
        forall|k: int| 0 <= k < s.len() ==> is_digit_char(#[trigger] s[k]),
        dec_val(s) <= i64::MAX,
    ensures
        spec_scan(s, 0, 1).errors == Seq::<ErrModel>::empty(),
        spec_scan(s, 0, 1).tokens == seq![
            TokenModel {
                kind: TokenType::Number,
                lexeme: s,
                literal: Some(ObjModel::Num { n: dec_val(s), d: 1 }),
                line: 1,
            },
            eof_token(1),
        ],
{
    lemma_seek_digits_all(s, 1, s.len() as int);
    let st = spec_step(s, 0, 1);
    assert(s.subrange(0, s.len() as int) =~= s);
    assert(number_digits(s, 0, s.len() as int) =~= s);
    assert(st.next == s.len());
    assert(spec_scan(s, 0, 1).tokens =~= opt_seq(st.token) + spec_scan(s, s.len() as int, 1).tokens);
    assert(spec_scan(s, 0, 1).errors =~= opt_seq(st.error) + spec_scan(s, s.len() as int, 1).errors);
    assert(spec_scan(s, 0, 1).tokens =~= seq![
        TokenModel {
            kind: TokenType::Number,
            lexeme: s,
            literal: Some(ObjModel::Num { n: dec_val(s), d: 1 }),
            line: 1,
        },
        eof_token(1),
    ]);
    assert(spec_scan(s, 0, 1).errors =~= Seq::<ErrModel>::empty());
}

/// Law: scanning a fractional literal `ip.fp` (nonempty digit runs either
/// side of the point, with a representable value) yields exactly one Number
/// token whose literal is the exact rational value of the numeral, then the
/// end-of-input token, and no diagnostic.
pub proof fn lemma_scan_fraction_literal(ip: Seq<char>, fp: Seq<char>)
    requires
        ip.len() > 0,
        fp.len() > 0,
        forall|k: int| 0 <= k < ip.len() ==> is_digit_char(#[trigger] ip[k]),
        forall|k: int| 0 <= k < fp.len() ==> is_digit_char(#[trigger] fp[k]),
        dec_val(ip + fp) <= i64::MAX,
        fp.len() <= 18,
    ensures
        spec_scan(ip + seq!['.'] + fp, 0, 1).errors == Seq::<ErrModel>::empty(),
        spec_scan(ip + seq!['.'] + fp, 0, 1).tokens == seq![
            TokenModel {
                kind: TokenType::Number,
                lexeme: ip + seq!['.'] + fp,
                literal: Some(ObjModel::Num { n: dec_val(ip + fp), d: pow10(fp.len() as int) }),
                line: 1,
            },
            eof_token(1),
        ],
{
    let s = ip + seq!['.'] + fp;
    let il = ip.len() as int;
    let n = s.len() as int;
    assert(s[il] == '.');
    assert(forall|k: int| 0 <= k < il ==> s[k] == ip[k] && is_digit_char(#[trigger] s[k]));
    assert(forall|k: int| il + 1 <= k < n ==> s[k] == fp[k - il - 1] && is_digit_char(
        #[trigger] s[k],
    ));
    lemma_seek_digits_all(s, 1, il);
    lemma_seek_digits_all(s, il + 2, n);
    let st = spec_step(s, 0, 1);
    assert(number_end(s, 0) == n);
    assert(s.subrange(0, il) =~= ip);
    assert(s.subrange(il + 1, n) =~= fp);
    assert(number_digits(s, 0, n) =~= ip + fp);
    assert(number_frac_len(s, 0, n) == fp.len());
    assert(s.subrange(0, n) =~= s);
    assert(st.next == n);
    assert(spec_scan(s, 0, 1).tokens =~= opt_seq(st.token) + spec_scan(s, n, 1).tokens);
    assert(spec_scan(s, 0, 1).errors =~= opt_seq(st.error) + spec_scan(s, n, 1).errors);
    assert(spec_scan(s, 0, 1).tokens =~= seq![
        TokenModel {
            kind: TokenType::Number,
            lexeme: s,
            literal: Some(ObjModel::Num { n: dec_val(ip + fp), d: pow10(fp.len() as int) }),
            line: 1,
        },
        eof_token(1),
    ]);
    assert(spec_scan(s, 0, 1).errors =~= Seq::<ErrModel>::empty());
}

/// Law: scanning a quoted string whose body holds no quote yields exactly
/// one String token whose literal value is the body itself, then the
/// end-of-input token, and no diagnostic.
pub proof fn lemma_scan_string_literal(body: Seq<char>)
    requires
        forall|k: int| 0 <= k < body.len() ==> (#[trigger] body[k]) != '"',
    ensures
        spec_scan(seq!['"'] + body + seq!['"'], 0, 1).errors == Seq::<ErrModel>::empty(),
        spec_scan(seq!['"'] + body + seq!['"'], 0, 1).tokens == seq![
            TokenModel {
                kind: TokenType::String,
                lexeme: seq!['"'] + body + seq!['"'],
                literal: Some(ObjModel::Str(body)),
                line: 1 + newlines_in(seq!['"'] + body + seq!['"'], 1, body.len() as int + 1),
            },
            eof_token(1 + newlines_in(seq!['"'] + body + seq!['"'], 1, body.len() as int + 1)),
        ],
{
    let s = seq!['"'] + body + seq!['"'];
    let bl = body.len() as int;
    let n = s.len() as int;
    assert(s[0] == '"');
    assert(s[bl + 1] == '"');
    assert(forall|k: int| 1 <= k < bl + 1 ==> s[k] == body[k - 1] && (#[trigger] s[k]) != '"');
    lemma_seek_quote_all(s, 1, bl + 1);
    let st = spec_step(s, 0, 1);
    let l2 = 1 + newlines_in(s, 1, bl + 1);
    assert(st.next == n);
    assert(s.subrange(0, n) =~= s);
    assert(s.subrange(1, bl + 1) =~= body);
    assert(spec_scan(s, 0, 1).tokens =~= opt_seq(st.token) + spec_scan(s, n, l2).tokens);
    assert(spec_scan(s, 0, 1).errors =~= opt_seq(st.error) + spec_scan(s, n, l2).errors);
    assert(spec_scan(s, 0, 1).tokens =~= seq![
        TokenModel {
            kind: TokenType::String,
            lexeme: s,
            literal: Some(ObjModel::Str(body)),
            line: l2,
        },
        eof_token(l2),
    ]);
    assert(spec_scan(s, 0, 1).errors =~= Seq::<ErrModel>::empty());
}

} // verus!

verus! {

/// The scanned token stream always ends with the end-of-input token, which
/// appears nowhere else in it.
pub proof fn lemma_spec_scan_shape(s: Seq<char>, i: int, line: int)
    ensures
        spec_scan(s, i, line).tokens.len() >= 1,
        spec_scan(s, i, line).tokens.last().kind == TokenType::Eof,
        forall|k: int|
            0 <= k < spec_scan(s, i, line).tokens.len() - 1 ==> (#[trigger] spec_scan(
                s,
                i,
                line,
            ).tokens[k]).kind != TokenType::Eof,
    decreases s.len() - i,
{
    if i < 0 || i >= s.len() {
    } else {
        let st = spec_step(s, i, line);
        let ni = if i < st.next <= s.len() {
            st.next
        } else {
            i + 1
        };
        let rest = spec_scan(s, ni, st.line);
        lemma_spec_scan_shape(s, ni, st.line);
        let toks = spec_scan(s, i, line).tokens;
        assert(toks == opt_seq(st.token) + rest.tokens);
        match st.token {
            Some(tm) => {
                assert(tm.kind != TokenType::Eof);
                assert(toks.last() == rest.tokens.last());
                assert forall|k: int| 0 <= k < toks.len() - 1 implies (
                #[trigger] toks[k]).kind != TokenType::Eof by {
                    if k == 0 {
                        assert(toks[0] == tm);
                    } else {
                        assert(toks[k] == rest.tokens[k - 1]);
                    }
                }
            },
            None => {
                assert(toks.last() == rest.tokens.last());
                assert forall|k: int| 0 <= k < toks.len() - 1 implies (
                #[trigger] toks[k]).kind != TokenType::Eof by {
                    assert(toks[k] == rest.tokens[k]);
                }
            },
        }
    }
}

} // verus!

verus! {

/// Law: a block comment that never closes is reported at the line its
/// opening delimiter stood on, not at the end of input, while the line
/// counter still advances past every newline the comment crossed.
pub proof fn lemma_unterminated_comment_line(s: Seq<char>, i: int, line: int)
    requires
        0 <= i,
        i + 1 < s.len(),
        s[i] == '/',
        s[i + 1] == '*',
        comment_scan(s, i + 2, 1).end is None,
    ensures
        spec_step(s, i, line).error == Some(
            ErrModel { token: None, line: line, message: "Unterminated comment."@ },
        ),
        spec_step(s, i, line).token is None,
        spec_step(s, i, line).next == s.len(),
        spec_step(s, i, line).line == line + comment_scan(s, i + 2, 1).lines,
{
}

} // verus!
