//! The tokenizer: a single-pass, stateful scanner over the full source
//! text, exposing a pull-based token stream.
//!
//! The scanner's behaviour is stated against a character-level model of
//! the source buffer. The spec functions in this module describe, for any
//! character sequence and cursor position, where scanning resumes after
//! whitespace and comments ([`scan_start`]), what token or error the
//! dispatch produces there ([`step_at`]), and the whole token stream that
//! repeated scanning yields ([`lex_from`]). Every public operation of
//! [`Lexer`] is proved to agree with this model.

use vstd::prelude::*;

use crate::tokens::{KindModel, NumberLiteral, NumberModel, Token, TokenKind, TokenModel};

verus! {

/// A lexical error: either a character that cannot begin any valid token
/// (or a required follow-up character is absent, e.g. a bare `!`), or a
/// numeric literal whose matched text fails to parse. Both carry the
/// character offset at which the problem was found.
#[derive(Debug, PartialEq, Eq, Clone, Copy, Structural)]
pub enum LexerError {
    UnexpectedCharacter(char, usize),
    InvalidNumberFormat(usize),
}

/// Whether a character has the Unicode `White_Space` property: the
/// control characters TAB through CR, space, NEL, and the fixed set of
/// higher space code points (no-break space, ogham space mark, the
/// en-quad..hair-space range, the line and paragraph separators, the
/// narrow no-break space, the medium mathematical space, and the
/// ideographic space).
pub open spec fn is_unicode_whitespace(c: char) -> bool {
    let u = c as u32;
    (9 <= u && u <= 13) || u == 32 || u == 0x85 || u == 0xA0 || u == 0x1680 || (0x2000 <= u && u
        <= 0x200A) || u == 0x2028 || u == 0x2029 || u == 0x202F || u == 0x205F || u == 0x3000
}

/// Relies on `char::is_whitespace`: true exactly when the character has
/// the Unicode `White_Space` property, whose members its documentation
/// lists.
pub assume_specification[ char::is_whitespace ](c: char) -> (r: bool)
    ensures
        r == is_unicode_whitespace(c),
;

/// Whitespace that the scanner skips silently: any whitespace character
/// except newline, which is itself a significant token.
pub open spec fn is_skippable_space(c: char) -> bool {
    is_unicode_whitespace(c) && c != '\n'
}

/// ASCII decimal digit.
pub open spec fn is_digit_char(c: char) -> bool {
    '0' as u32 <= c as u32 && c as u32 <= '9' as u32
}

/// A character that may begin an identifier: ASCII letter or underscore.
pub open spec fn is_ident_start(c: char) -> bool {
    ('a' as u32 <= c as u32 && c as u32 <= 'z' as u32)
        || ('A' as u32 <= c as u32 && c as u32 <= 'Z' as u32)
        || c == '_'
}

/// A character that may continue an identifier: ASCII letter, digit, or
/// underscore.
pub open spec fn is_ident_char(c: char) -> bool {
    is_ident_start(c) || is_digit_char(c)
}

/// Numeric value of an ASCII digit character.
pub open spec fn digit_val(c: char) -> int {
    c as u32 - '0' as u32
}

/// First position at or after `p` whose character is not skippable
/// whitespace (the buffer length if all remaining characters are).
pub open spec fn ws_end(s: Seq<char>, p: int) -> int
    decreases s.len() - p,
{
    if 0 <= p < s.len() && is_skippable_space(s[p]) {
        ws_end(s, p + 1)
    } else {
        p
    }
}

/// Position at which a line comment whose body starts at `p` ends: the
/// position of the terminating newline (which is not part of the
/// comment), or the buffer length.
pub open spec fn line_comment_end(s: Seq<char>, p: int) -> int
    decreases s.len() - p,
{
    if 0 <= p < s.len() {
        if s[p] == '\n' {
            p
        } else {
            line_comment_end(s, p + 1)
        }
    } else {
        s.len() as int
    }
}

/// Position just after the first `*/` at or after `p`, or the buffer
/// length if none occurs: where scanning resumes after a block comment
/// whose body starts at `p`. An unterminated block comment silently
/// consumes the rest of the input.
pub open spec fn block_comment_end(s: Seq<char>, p: int) -> int
    decreases s.len() - p,
{
    if 0 <= p < s.len() {
        if s[p] == '*' && p + 1 < s.len() && s[p + 1] == '/' {
            p + 2
        } else {
            block_comment_end(s, p + 1)
        }
    } else {
        s.len() as int
    }
}

/// Position of the first character that can begin a real token at or
/// after `p`: whitespace is skipped, then each comment is skipped in
/// turn, until neither applies.
pub open spec fn scan_start(s: Seq<char>, p: int) -> int
    decreases s.len() - p,
    via scan_start_decreases
{
    let q = ws_end(s, p);
    if 0 <= q && q + 1 < s.len() && s[q] == '/' && s[q + 1] == '/' {
        scan_start(s, line_comment_end(s, q + 2))
    } else if 0 <= q && q + 1 < s.len() && s[q] == '/' && s[q + 1] == '*' {
        scan_start(s, block_comment_end(s, q + 2))
    } else {
        q
    }
}

#[via_fn]
proof fn scan_start_decreases(s: Seq<char>, p: int) {
    lemma_ws_end_bounds(s, p);
    let q = ws_end(s, p);
    if 0 <= q && q + 1 < s.len() && s[q] == '/' {
        lemma_line_comment_end_bounds(s, q + 2);
        lemma_block_comment_end_bounds(s, q + 2);
    }
}

/// `ws_end` never moves the cursor backwards and never past the end of
/// the buffer.
pub proof fn lemma_ws_end_bounds(s: Seq<char>, p: int)
    ensures
        p <= ws_end(s, p),
        p <= s.len() ==> ws_end(s, p) <= s.len(),
    decreases s.len() - p,
{
    if 0 <= p < s.len() && is_skippable_space(s[p]) {
        lemma_ws_end_bounds(s, p + 1);
    }
}

/// `line_comment_end` stays within `[p, s.len()]`.
pub proof fn lemma_line_comment_end_bounds(s: Seq<char>, p: int)
    requires
        0 <= p <= s.len(),
    ensures
        p <= line_comment_end(s, p) <= s.len(),
    decreases s.len() - p,
{
    if 0 <= p < s.len() && s[p] != '\n' {
        lemma_line_comment_end_bounds(s, p + 1);
    }
}

/// `block_comment_end` stays within `[p, s.len()]`.
pub proof fn lemma_block_comment_end_bounds(s: Seq<char>, p: int)
    requires
        0 <= p <= s.len(),
    ensures
        p <= block_comment_end(s, p) <= s.len(),
    decreases s.len() - p,
{
    if 0 <= p < s.len() && !(s[p] == '*' && p + 1 < s.len() && s[p + 1] == '/') {
        lemma_block_comment_end_bounds(s, p + 1);
    }
}

/// `scan_start` never moves the cursor backwards and, from a position
/// inside the buffer, never past its end.
pub proof fn lemma_scan_start_bounds(s: Seq<char>, p: int)
    ensures
        p <= scan_start(s, p),
        p <= s.len() ==> scan_start(s, p) <= s.len(),
    decreases s.len() - p,
{
    lemma_ws_end_bounds(s, p);
    let q = ws_end(s, p);
    if 0 <= q && q + 1 < s.len() && s[q] == '/' && s[q + 1] == '/' {
        lemma_line_comment_end_bounds(s, q + 2);
        lemma_scan_start_bounds(s, line_comment_end(s, q + 2));
    } else if 0 <= q && q + 1 < s.len() && s[q] == '/' && s[q + 1] == '*' {
        lemma_block_comment_end_bounds(s, q + 2);
        lemma_scan_start_bounds(s, block_comment_end(s, q + 2));
    }
}

/// Skipping whitespace is idempotent: the position `ws_end` returns has
/// no skippable whitespace under it.
pub proof fn lemma_ws_end_fixed(s: Seq<char>, p: int)
    ensures
        ws_end(s, ws_end(s, p)) == ws_end(s, p),
    decreases s.len() - p,
{
    if 0 <= p < s.len() && is_skippable_space(s[p]) {
        lemma_ws_end_fixed(s, p + 1);
    }
}

/// The position `scan_start` returns is a fixed point: no skippable
/// whitespace under it, and no comment opens there.
pub proof fn lemma_scan_start_fixed(s: Seq<char>, p: int)
    ensures
        ({
            let q = scan_start(s, p);
            &&& ws_end(s, q) == q
            &&& scan_start(s, q) == q
            &&& !(0 <= q && q + 1 < s.len() && s[q] == '/' && (s[q + 1] == '/' || s[q + 1]
                == '*'))
        }),
    decreases s.len() - p,
{
    let q0 = ws_end(s, p);
    lemma_ws_end_fixed(s, p);
    if 0 <= q0 && q0 + 1 < s.len() && s[q0] == '/' && s[q0 + 1] == '/' {
        lemma_ws_end_bounds(s, p);
        lemma_line_comment_end_bounds(s, q0 + 2);
        lemma_scan_start_fixed(s, line_comment_end(s, q0 + 2));
    } else if 0 <= q0 && q0 + 1 < s.len() && s[q0] == '/' && s[q0 + 1] == '*' {
        lemma_ws_end_bounds(s, p);
        lemma_block_comment_end_bounds(s, q0 + 2);
        lemma_scan_start_fixed(s, block_comment_end(s, q0 + 2));
    }
}

/// First position at or after `p` whose character cannot continue an
/// identifier.
pub open spec fn ident_end(s: Seq<char>, p: int) -> int
    decreases s.len() - p,
{
    if 0 <= p < s.len() && is_ident_char(s[p]) {
        ident_end(s, p + 1)
    } else {
        p
    }
}

/// First position at or after `p` whose character is neither an ASCII
/// digit nor a decimal point: the end of the greedily matched numeric
/// text.
pub open spec fn number_end(s: Seq<char>, p: int) -> int
    decreases s.len() - p,
{
    if 0 <= p < s.len() && (is_digit_char(s[p]) || s[p] == '.') {
        number_end(s, p + 1)
    } else {
        p
    }
}

/// How many decimal points the matched numeric text contains.
pub open spec fn dot_count(t: Seq<char>) -> int
    decreases t.len(),
{
    if t.len() == 0 {
        0
    } else {
        dot_count(t.drop_last()) + if t.last() == '.' {
            1int
        } else {
            0int
        }
    }
}

/// The numeric value of a digit string, read in base ten.
pub open spec fn digits_val(t: Seq<char>) -> int
    decreases t.len(),
{
    if t.len() == 0 {
        0
    } else {
        digits_val(t.drop_last()) * 10 + digit_val(t.last())
    }
}

/// The kind an identifier-shaped text denotes: one of the fixed keywords
/// if the text matches it exactly (case-sensitive, whole-token), an
/// identifier otherwise.
pub open spec fn keyword_or_identifier(t: Seq<char>) -> KindModel {
    if t == "break"@ {
        KindModel::Break
    } else if t == "else"@ {
        KindModel::Else
    } else if t == "end"@ {
        KindModel::End
    } else if t == "false"@ {
        KindModel::False
    } else if t == "fn"@ {
        KindModel::Fun
    } else if t == "for"@ {
        KindModel::For
    } else if t == "if"@ {
        KindModel::If
    } else if t == "in"@ {
        KindModel::In
    } else if t == "loop"@ {
        KindModel::Loop
    } else if t == "patch"@ {
        KindModel::Patch
    } else if t == "record"@ {
        KindModel::Record
    } else if t == "return"@ {
        KindModel::Return
    } else if t == "true"@ {
        KindModel::True
    } else if t == "union"@ {
        KindModel::Union
    } else if t == "when"@ {
        KindModel::When
    } else if t == "and"@ {
        KindModel::And
    } else if t == "or"@ {
        KindModel::Or
    } else if t == "not"@ {
        KindModel::Not
    } else {
        KindModel::Identifier(t)
    }
}

/// What one dispatch of the scanner produces at a token start: a token
/// kind together with the number of characters it consumes, or an error
/// together with the number of characters consumed before reporting it.
pub enum Step {
    Tok { kind: KindModel, len: int },
    Fail { err: LexerError, len: int },
}

/// Dispatch for the characters that may extend to a two-character
/// assignment form: a peek at the next character for `=` decides between
/// the bare and the compound kind.
pub open spec fn eq_step(s: Seq<char>, q: int, bare: KindModel, with_eq: KindModel) -> Step {
    if q + 1 < s.len() && s[q + 1] == '=' {
        Step::Tok { kind: with_eq, len: 2 }
    } else {
        Step::Tok { kind: bare, len: 1 }
    }
}

/// Dispatch for a numeric literal starting at `q`: digits and decimal
/// points are consumed greedily; the matched text is an integer if it has
/// no decimal point (malformed if its value exceeds `i64::MAX`), a float
/// if it has exactly one, and malformed otherwise. The error is anchored
/// at the literal's start even though the full text was consumed.
pub open spec fn number_step(s: Seq<char>, q: int) -> Step
    recommends
        0 <= q < s.len() && is_digit_char(s[q]),
{
    let e = number_end(s, q);
    let t = s.subrange(q, e);
    if dot_count(t) == 0 {
        if digits_val(t) <= i64::MAX {
            Step::Tok { kind: KindModel::Number(NumberModel::Integer(digits_val(t))), len: e - q }
        } else {
            Step::Fail { err: LexerError::InvalidNumberFormat(q as usize), len: e - q }
        }
    } else if dot_count(t) == 1 {
        Step::Tok { kind: KindModel::Number(NumberModel::Float(t)), len: e - q }
    } else {
        Step::Fail { err: LexerError::InvalidNumberFormat(q as usize), len: e - q }
    }
}

/// The single dispatch of the scanner on the character at `q`, a position
/// where a real token must start (whitespace and comments already
/// skipped). Longest match wins for ambiguous prefixes.
pub open spec fn step_at(s: Seq<char>, q: int) -> Step
    recommends
        0 <= q < s.len(),
{
    let c = s[q];
    if c == '@' {
        Step::Tok { kind: KindModel::Mut, len: 1 }
    } else if c == ';' {
        Step::Tok { kind: KindModel::Semicolon, len: 1 }
    } else if c == ',' {
        Step::Tok { kind: KindModel::Comma, len: 1 }
    } else if c == '&' {
        Step::Tok { kind: KindModel::Ampersand, len: 1 }
    } else if c == '|' {
        Step::Tok { kind: KindModel::Pipe, len: 1 }
    } else if c == '{' {
        Step::Tok { kind: KindModel::LeftBrace, len: 1 }
    } else if c == '}' {
        Step::Tok { kind: KindModel::RightBrace, len: 1 }
    } else if c == '[' {
        Step::Tok { kind: KindModel::LeftBracket, len: 1 }
    } else if c == ']' {
        Step::Tok { kind: KindModel::RightBracket, len: 1 }
    } else if c == '(' {
        Step::Tok { kind: KindModel::LeftParen, len: 1 }
    } else if c == ')' {
        Step::Tok { kind: KindModel::RightParen, len: 1 }
    } else if c == '\n' {
        Step::Tok { kind: KindModel::Newline, len: 1 }
    } else if c == '\'' {
        Step::Tok { kind: KindModel::SingleQuote, len: 1 }
    } else if c == '"' {
        Step::Tok { kind: KindModel::DoubleQuote, len: 1 }
    } else if c == '=' {
        eq_step(s, q, KindModel::Equal, KindModel::DoubleEqual)
    } else if c == '<' {
        eq_step(s, q, KindModel::LessThan, KindModel::LessEqual)
    } else if c == '>' {
        eq_step(s, q, KindModel::GreaterThan, KindModel::GreaterEqual)
    } else if c == '+' {
        eq_step(s, q, KindModel::Plus, KindModel::PlusEqual)
    } else if c == '%' {
        eq_step(s, q, KindModel::Modulo, KindModel::ModuloEqual)
    } else if c == '*' {
        eq_step(s, q, KindModel::Star, KindModel::TimesEqual)
    } else if c == ':' {
        if q + 1 < s.len() && s[q + 1] == ':' {
            Step::Tok { kind: KindModel::Scope, len: 2 }
        } else {
            Step::Tok { kind: KindModel::Colon, len: 1 }
        }
    } else if c == '!' {
        if q + 1 < s.len() && s[q + 1] == '=' {
            Step::Tok { kind: KindModel::NotEqual, len: 2 }
        } else {
            Step::Fail { err: LexerError::UnexpectedCharacter('!', q as usize), len: 0 }
        }
    } else if c == '.' {
        if q + 1 < s.len() && s[q + 1] == '.' {
            if q + 2 < s.len() && s[q + 2] == '=' {
                Step::Tok { kind: KindModel::RangeInclusive, len: 3 }
            } else {
                Step::Tok { kind: KindModel::Range, len: 2 }
            }
        } else {
            Step::Tok { kind: KindModel::Dot, len: 1 }
        }
    } else if c == '-' {
        if q + 1 < s.len() && s[q + 1] == '>' {
            Step::Tok { kind: KindModel::RightArrow, len: 2 }
        } else if q + 1 < s.len() && s[q + 1] == '=' {
            Step::Tok { kind: KindModel::MinusEqual, len: 2 }
        } else {
            Step::Tok { kind: KindModel::Minus, len: 1 }
        }
    } else if c == '/' {
        // At a scan start `//` and `/*` cannot occur: comments were
        // already skipped.
        if q + 1 < s.len() && s[q + 1] == '=' {
            Step::Tok { kind: KindModel::DivideEqual, len: 2 }
        } else {
            Step::Tok { kind: KindModel::Divide, len: 1 }
        }
    } else if is_ident_start(c) {
        let e = ident_end(s, q);
        Step::Tok { kind: keyword_or_identifier(s.subrange(q, e)), len: e - q }
    } else if is_digit_char(c) {
        number_step(s, q)
    } else {
        Step::Fail { err: LexerError::UnexpectedCharacter(c, q as usize), len: 0 }
    }
}

/// `ident_end` stays within `(q, s.len()]` when an identifier starts at
/// `q`, and `number_end` likewise when a digit stands at `q`.
pub proof fn lemma_ident_end_bounds(s: Seq<char>, p: int)
    requires
        0 <= p <= s.len(),
    ensures
        p <= ident_end(s, p) <= s.len(),
        p <= number_end(s, p) <= s.len(),
    decreases s.len() - p,
{
    if p < s.len() {
        lemma_ident_end_bounds(s, p + 1);
    }
}

/// Every step consumes at most the rest of the buffer, and a successful
/// step consumes at least one character: zero-length tokens never occur.
pub proof fn lemma_step_at_len(s: Seq<char>, q: int)
    requires
        0 <= q < s.len(),
    ensures
        match step_at(s, q) {
            Step::Tok { len, .. } => 1 <= len <= s.len() - q,
            Step::Fail { len, .. } => 0 <= len <= s.len() - q,
        },
{
    lemma_ident_end_bounds(s, q);
    if is_ident_start(s[q]) {
        assert(ident_end(s, q) == ident_end(s, q + 1));
        lemma_ident_end_bounds(s, q + 1);
    }
    if is_digit_char(s[q]) {
        assert(number_end(s, q) == number_end(s, q + 1));
        lemma_ident_end_bounds(s, q + 1);
    }
}

/// The full token stream obtained by scanning from position `p` to the
/// end of the buffer: the ordered sequence of tokens, or the first
/// lexical error.
pub open spec fn lex_from(s: Seq<char>, p: int) -> Result<Seq<TokenModel>, LexerError>
    decreases s.len() - p,
    via lex_from_decreases
{
    let q = scan_start(s, p);
    if !(0 <= q < s.len()) {
        Result::Ok(Seq::empty())
    } else {
        match step_at(s, q) {
            Step::Tok { kind, len } => match lex_from(s, q + len) {
                Result::Ok(rest) => Result::Ok(
                    seq![TokenModel { kind, start: q, end: q + len - 1 }] + rest,
                ),
                Result::Err(e) => Result::Err(e),
            },
            Step::Fail { err, .. } => Result::Err(err),
        }
    }
}

#[via_fn]
proof fn lex_from_decreases(s: Seq<char>, p: int) {
    lemma_scan_start_bounds(s, p);
    let q = scan_start(s, p);
    if 0 <= q < s.len() {
        lemma_step_at_len(s, q);
    }
}

/// The tokenizer. It owns a view of the source buffer for its lifetime,
/// and its sole mutable state is the cursor (a character index into the
/// buffer) and the latched last error.
#[derive(Debug)]
pub struct Lexer<'a> {
    content: &'a str,
    position: usize,
    error_state: Option<LexerError>,
}

impl<'a> Lexer<'a> {
    /// The source buffer as a character sequence.
    pub closed spec fn text(&self) -> Seq<char> {
        self.content@
    }

    /// The cursor: the current scanning position, as a character index.
    pub closed spec fn pos(&self) -> int {
        self.position as int
    }

    /// The latched last lexical error, if any.
    pub closed spec fn latched(&self) -> Option<LexerError> {
        self.error_state
    }

    /// Create a new lexer instance with the given input content.
    pub fn new(content: &'a str) -> (l: Self)
        ensures
            l.text() == content@,
            l.pos() == 0,
            l.latched() is None,
    {
        Self { content, position: 0, error_state: None }
    }

    /// Peek at the character `num_ahead` positions past the cursor
    /// without advancing; `None` past the end of the buffer.
    pub fn peek_char(&self, num_ahead: usize) -> (r: Option<char>)
        ensures
            r == if self.pos() + num_ahead < self.text().len() {
                Some(self.text()[self.pos() + num_ahead])
            } else {
                None::<char>
            },
            self.text().len() <= usize::MAX,
    {
        let n = self.content.unicode_len();
        if num_ahead < n && self.position < n - num_ahead {
            Some(self.content.get_char(self.position + num_ahead))
        } else {
            None
        }
    }

    /// Advance the cursor by the specified number of steps.
    pub fn advance(&mut self, steps: usize)
        requires
            old(self).pos() + steps <= usize::MAX,
        ensures
            final(self).text() == old(self).text(),
            final(self).pos() == old(self).pos() + steps,
            final(self).latched() == old(self).latched(),
    {
        self.position = self.position + steps;
    }

    /// Move the cursor past every whitespace character except newline.
    pub fn skip_whitespace(&mut self)
        ensures
            final(self).text() == old(self).text(),
            final(self).latched() == old(self).latched(),
            final(self).pos() == ws_end(old(self).text(), old(self).pos()),
    {
        loop
            invariant
                self.text() == old(self).text(),
                self.latched() == old(self).latched(),
                ws_end(self.text(), self.pos()) == ws_end(old(self).text(), old(self).pos()),
                old(self).pos() <= self.pos(),
                self.pos() <= self.text().len() || self.pos() == old(self).pos(),
            ensures
                self.text() == old(self).text(),
                self.latched() == old(self).latched(),
                self.pos() == ws_end(old(self).text(), old(self).pos()),
            decreases self.text().len() - self.pos(),
        {
            match self.peek_char(0) {
                Some(c) => {
                    if c.is_whitespace() && c != '\n' {
                        self.advance(1);
                    } else {
                        break ;
                    }
                },
                None => {
                    break ;
                },
            }
        }
    }
}

/// Executable test for [`is_digit_char`].
fn digit_char(c: char) -> (r: bool)
    ensures
        r == is_digit_char(c),
{
    let u = c as u32;
    '0' as u32 <= u && u <= '9' as u32
}

/// Executable test for [`is_ident_start`].
fn ident_start_char(c: char) -> (r: bool)
    ensures
        r == is_ident_start(c),
{
    let u = c as u32;
    ('a' as u32 <= u && u <= 'z' as u32) || ('A' as u32 <= u && u <= 'Z' as u32) || c == '_'
}

/// Executable test for [`is_ident_char`].
fn ident_char(c: char) -> (r: bool)
    ensures
        r == is_ident_char(c),
{
    ident_start_char(c) || digit_char(c)
}

impl<'a> Lexer<'a> {
    /// Greedily consume identifier characters from the cursor onwards and
    /// return the matched text.
    pub fn get_identifier_string(&mut self) -> (r: String)
        requires
            old(self).pos() <= old(self).text().len(),
        ensures
            final(self).text() == old(self).text(),
            final(self).latched() == old(self).latched(),
            final(self).pos() == ident_end(old(self).text(), old(self).pos()),
            r@ == old(self).text().subrange(
                old(self).pos(),
                ident_end(old(self).text(), old(self).pos()),
            ),
    {
        let start = self.position;
        loop
            invariant
                self.text() == old(self).text(),
                self.latched() == old(self).latched(),
                ident_end(self.text(), self.pos()) == ident_end(
                    old(self).text(),
                    old(self).pos(),
                ),
                old(self).pos() <= self.pos() <= self.text().len(),
            ensures
                self.text() == old(self).text(),
                self.latched() == old(self).latched(),
                old(self).pos() <= self.pos(),
                self.pos() == ident_end(old(self).text(), old(self).pos()),
            decreases self.text().len() - self.pos(),
        {
            match self.peek_char(0) {
                Some(c) => {
                    if ident_char(c) {
                        self.advance(1);
                    } else {
                        break ;
                    }
                },
                None => {
                    break ;
                },
            }
        }
        proof {
            lemma_ident_end_bounds(old(self).text(), old(self).pos());
        }
        let sub = self.content.substring_char(start, self.position);
        sub.to_owned()
    }

    /// Emit a token of the given kind covering the next `length`
    /// characters, advancing the cursor past them.
    fn create_simple_token(&mut self, kind: TokenKind, length: usize) -> (t: Token)
        requires
            1 <= length,
            old(self).pos() + length <= old(self).text().len(),
            old(self).text().len() <= usize::MAX,
        ensures
            final(self).text() == old(self).text(),
            final(self).latched() == old(self).latched(),
            final(self).pos() == old(self).pos() + length,
            t.kind == kind,
            t.position.start == old(self).pos(),
            t.position.end == old(self).pos() + length - 1,
    {
        let start = self.position;
        self.advance(length);
        Token::new(kind, start, length)
    }

    /// Emit the compound form if the next character is `=`, the bare form
    /// otherwise.
    fn create_optional_eq_token(&mut self, without_eq_kind: TokenKind, with_eq_kind: TokenKind) -> (t:
        Token)
        requires
            old(self).pos() < old(self).text().len(),
        ensures
            final(self).text() == old(self).text(),
            final(self).latched() == old(self).latched(),
            ({
                let s = old(self).text();
                let q = old(self).pos();
                if q + 1 < s.len() && s[q + 1] == '=' {
                    &&& t.kind == with_eq_kind
                    &&& t.position.start == q
                    &&& t.position.end == q + 1
                    &&& final(self).pos() == q + 2
                } else {
                    &&& t.kind == without_eq_kind
                    &&& t.position.start == q
                    &&& t.position.end == q
                    &&& final(self).pos() == q + 1
                }
            }),
    {
        let two = match self.peek_char(1) {
            Some(c) => c == '=',
            None => false,
        };
        if two {
            self.create_simple_token(with_eq_kind, 2)
        } else {
            self.create_simple_token(without_eq_kind, 1)
        }
    }
}

/// Every character of the greedily matched numeric text is a digit or a
/// decimal point.
pub proof fn lemma_number_span_chars(s: Seq<char>, p: int)
    requires
        0 <= p <= s.len(),
    ensures
        forall|i: int|
            p <= i < number_end(s, p) ==> is_digit_char(#[trigger] s[i]) || s[i] == '.',
    decreases s.len() - p,
{
    if 0 <= p < s.len() && (is_digit_char(s[p]) || s[p] == '.') {
        lemma_number_span_chars(s, p + 1);
    }
}

proof fn lemma_dot_count_push(t: Seq<char>, c: char)
    ensures
        dot_count(t.push(c)) == dot_count(t) + if c == '.' {
            1int
        } else {
            0int
        },
{
    assert(t.push(c).drop_last() =~= t);
}

proof fn lemma_dot_count_nonneg(t: Seq<char>)
    ensures
        dot_count(t) >= 0,
    decreases t.len(),
{
    if t.len() > 0 {
        lemma_dot_count_nonneg(t.drop_last());
    }
}

/// A text without decimal points consists of other characters entirely.
proof fn lemma_no_dots(t: Seq<char>)
    requires
        dot_count(t) == 0,
    ensures
        forall|j: int| 0 <= j < t.len() ==> #[trigger] t[j] != '.',
    decreases t.len(),
{
    if t.len() > 0 {
        lemma_dot_count_nonneg(t.drop_last());
        lemma_no_dots(t.drop_last());
        assert forall|j: int| 0 <= j < t.len() implies #[trigger] t[j] != '.' by {
            if j < t.len() - 1 {
                assert(t.drop_last()[j] == t[j]);
            }
        }
    }
}

proof fn lemma_digits_val_push(t: Seq<char>, c: char)
    ensures
        digits_val(t.push(c)) == digits_val(t) * 10 + digit_val(c),
{
    assert(t.push(c).drop_last() =~= t);
}

proof fn lemma_digits_val_nonneg(t: Seq<char>)
    requires
        forall|j: int| 0 <= j < t.len() ==> is_digit_char(#[trigger] t[j]),
    ensures
        digits_val(t) >= 0,
    decreases t.len(),
{
    if t.len() > 0 {
        assert forall|j: int| 0 <= j < t.drop_last().len() implies is_digit_char(
            #[trigger] t.drop_last()[j],
        ) by {
            assert(t.drop_last()[j] == t[j]);
        }
        lemma_digits_val_nonneg(t.drop_last());
        assert(is_digit_char(t[t.len() - 1]));
    }
}

/// Reading more digits can only increase the value: the value of a digit
/// string bounds the value of each of its prefixes.
proof fn lemma_digits_val_prefix(t: Seq<char>, k: int)
    requires
        0 <= k <= t.len(),
        forall|j: int| 0 <= j < t.len() ==> is_digit_char(#[trigger] t[j]),
    ensures
        digits_val(t.subrange(0, k)) <= digits_val(t),
    decreases t.len() - k,
{
    if k == t.len() {
        assert(t.subrange(0, k) =~= t);
    } else {
        lemma_digits_val_prefix(t, k + 1);
        assert(t.subrange(0, k + 1) =~= t.subrange(0, k).push(t[k]));
        lemma_digits_val_push(t.subrange(0, k), t[k]);
        assert forall|j: int| 0 <= j < t.subrange(0, k).len() implies is_digit_char(
            #[trigger] t.subrange(0, k)[j],
        ) by {
            assert(t.subrange(0, k)[j] == t[j]);
        }
        lemma_digits_val_nonneg(t.subrange(0, k));
        assert(is_digit_char(t[k]));
    }
}

impl<'a> Lexer<'a> {
    /// Scan a numeric literal starting at the cursor: greedily consume
    /// digits and decimal points, then validate the matched text. A
    /// malformed literal reports `InvalidNumberFormat` anchored at the
    /// literal's start offset, with the full text still consumed.
    fn create_number_token(&mut self) -> (r: Result<Token, LexerError>)
        requires
            old(self).pos() < old(self).text().len(),
            is_digit_char(old(self).text()[old(self).pos()]),
        ensures
            final(self).text() == old(self).text(),
            final(self).latched() == old(self).latched(),
            ({
                let s = old(self).text();
                let q = old(self).pos();
                match number_step(s, q) {
                    Step::Tok { kind, len } => {
                        &&& r matches Ok(t) && t.kind@ == kind && t.position.start == q
                            && t.position.end == q + len - 1
                        &&& final(self).pos() == q + len
                    },
                    Step::Fail { err, len } => {
                        &&& r == Err::<Token, LexerError>(err)
                        &&& final(self).pos() == q + len
                    },
                }
            }),
    {
        let ghost s = self.text();
        let ghost q0 = self.pos();
        let start = self.position;
        let mut dots: usize = 0;
        loop
            invariant
                self.text() == s,
                self.latched() == old(self).latched(),
                number_end(self.text(), self.pos()) == number_end(s, q0),
                q0 <= self.pos() <= s.len(),
                start == q0,
                dots == dot_count(s.subrange(q0, self.pos())),
                dots <= self.pos() - q0,
            ensures
                self.text() == s,
                self.latched() == old(self).latched(),
                self.pos() == number_end(s, q0),
                q0 <= self.pos() <= s.len(),
                dots == dot_count(s.subrange(q0, self.pos())),
            decreases s.len() - self.pos(),
        {
            match self.peek_char(0) {
                Some(c) => {
                    if digit_char(c) || c == '.' {
                        proof {
                            let p = self.pos();
                            assert(s.subrange(q0, p + 1) =~= s.subrange(q0, p).push(s[p]));
                            lemma_dot_count_push(s.subrange(q0, p), s[p]);
                        }
                        if c == '.' {
                            dots = dots + 1;
                        }
                        self.advance(1);
                    } else {
                        break ;
                    }
                },
                None => {
                    break ;
                },
            }
        }
        let end = self.position;
        let ghost t = s.subrange(q0, end as int);
        let length = end - start;
        proof {
            assert(number_end(s, q0) == number_end(s, q0 + 1));
            lemma_ident_end_bounds(s, q0 + 1);
            lemma_number_span_chars(s, q0);
        }
        if dots == 0 {
            proof {
                lemma_no_dots(t);
                assert forall|j: int| 0 <= j < t.len() implies is_digit_char(#[trigger] t[j]) by {
                    assert(t[j] == s[q0 + j]);
                }
            }
            let mut acc: i64 = 0;
            let mut i = start;
            let mut overflowed = false;
            while i < end
                invariant
                    self.text() == s,
                    q0 <= i <= end,
                    end == number_end(s, q0),
                    end <= s.len(),
                    t == s.subrange(q0, end as int),
                    start == q0,
                    forall|j: int| 0 <= j < t.len() ==> is_digit_char(#[trigger] t[j]),
                    !overflowed ==> acc == digits_val(s.subrange(q0, i as int)) && 0 <= acc,
                    overflowed ==> digits_val(t) > i64::MAX,
                decreases end - i,
            {
                if !overflowed {
                    let c = self.content.get_char(i);
                    proof {
                        assert(c == t[i - q0]);
                        assert(is_digit_char(c));
                    }
                    let d = (c as u32 - '0' as u32) as i64;
                    proof {
                        assert(s.subrange(q0, i + 1) =~= s.subrange(q0, i as int).push(s[i as int]));
                        lemma_digits_val_push(s.subrange(q0, i as int), s[i as int]);
                    }
                    if acc < 922337203685477580i64 || (acc == 922337203685477580i64 && d <= 7) {
                        acc = acc * 10 + d;
                    } else {
                        overflowed = true;
                        proof {
                            assert(digits_val(s.subrange(q0, i + 1)) > i64::MAX);
                            assert(s.subrange(q0, i + 1) =~= t.subrange(0, i + 1 - q0));
                            lemma_digits_val_prefix(t, i + 1 - q0);
                        }
                    }
                }
                i = i + 1;
            }
            if overflowed {
                return Err(LexerError::InvalidNumberFormat(start));
            }
            proof {
                assert(s.subrange(q0, i as int) =~= t);
            }
            Ok(Token::new(TokenKind::Number(NumberLiteral::Integer(acc)), start, length))
        } else if dots == 1 {
            let text = self.content.substring_char(start, end).to_owned();
            Ok(Token::new(TokenKind::Number(NumberLiteral::Float(text)), start, length))
        } else {
            Err(LexerError::InvalidNumberFormat(start))
        }
    }
}

/// Whether an owned text equals a fixed lexeme.
fn text_is(a: &String, lit: &str) -> (r: bool)
    ensures
        r == (a@ == lit@),
{
    let b = lit.to_owned();
    *a == b
}

impl<'a> Lexer<'a> {
    /// Get the next token from the input content.
    ///
    /// Whitespace (except newline) and comments before the token are
    /// skipped; the cursor then stands at `scan_start` of its old
    /// position, and the result is exactly what `step_at` prescribes
    /// there: `Ok(Some(token))` for a successfully scanned token,
    /// `Ok(None)` at the end of the buffer, and `Err` if the character
    /// under the cursor cannot start any valid token or a numeric literal
    /// is malformed. On `UnexpectedCharacter` the cursor rests on the
    /// offending character; on `InvalidNumberFormat` the malformed text
    /// has been consumed but the error is anchored at its start. Every
    /// produced error is also latched for later retrieval through
    /// [`Lexer::error`].
    pub fn next_token(&mut self) -> (r: Result<Option<Token>, LexerError>)
        ensures
            final(self).text() == old(self).text(),
            r matches Ok(_) ==> final(self).latched() == old(self).latched(),
            r matches Err(e) ==> final(self).latched() == Some(e),
            ({
                let s = old(self).text();
                let q = scan_start(s, old(self).pos());
                if q >= s.len() {
                    &&& r == Ok::<Option<Token>, LexerError>(None)
                    &&& final(self).pos() == q
                } else {
                    match step_at(s, q) {
                        Step::Tok { kind, len } => {
                            &&& r matches Ok(Some(t)) && t.kind@ == kind && t.position.start == q
                                && t.position.end == q + len - 1
                            &&& final(self).pos() == q + len
                        },
                        Step::Fail { err, len } => {
                            &&& r == Err::<Option<Token>, LexerError>(err)
                            &&& final(self).pos() == q + len
                        },
                    }
                }
            }),
    {
        let ghost s = self.text();
        let ghost p0 = self.pos();
        let ghost err0 = self.latched();
        loop
            invariant
                self.text() == s,
                self.latched() == err0,
                scan_start(s, self.pos()) == scan_start(s, p0),
                p0 <= self.pos(),
                self.pos() <= s.len() || self.pos() == p0,
            ensures
                self.text() == s,
                self.latched() == err0,
                self.pos() == scan_start(s, p0),
            decreases s.len() - self.pos(),
        {
            let ghost pb = self.pos();
            self.skip_whitespace();
            let ghost pw = self.pos();
            proof {
                lemma_ws_end_bounds(s, pb);
            }
            let slash = match self.peek_char(0) {
                Some(c) => c == '/',
                None => false,
            };
            if !slash {
                proof {
                    lemma_ws_end_fixed(s, pb);
                }
                break ;
            }
            let c1 = self.peek_char(1);
            let is_line = match c1 {
                Some(c) => c == '/',
                None => false,
            };
            let is_block = match c1 {
                Some(c) => c == '*',
                None => false,
            };
            if is_line {
                // Skip single-line comment
                self.advance(2);
                let ghost body0 = self.pos();
                loop
                    invariant
                        self.text() == s,
                        self.latched() == err0,
                        line_comment_end(s, body0) == line_comment_end(s, self.pos()),
                        body0 <= self.pos() <= s.len(),
                    ensures
                        self.text() == s,
                        self.latched() == err0,
                        self.pos() == line_comment_end(s, body0),
                        body0 <= self.pos() <= s.len(),
                    decreases s.len() - self.pos(),
                {
                    match self.peek_char(0) {
                        Some(c) => {
                            if c == '\n' {
                                break ;
                            } else {
                                self.advance(1);
                            }
                        },
                        None => {
                            break ;
                        },
                    }
                }
            } else if is_block {
                // Skip multi-line comment
                self.advance(2);
                let ghost body0 = self.pos();
                loop
                    invariant_except_break
                        block_comment_end(s, body0) == block_comment_end(s, self.pos()),
                    invariant
                        self.text() == s,
                        self.latched() == err0,
                        body0 <= self.pos() <= s.len(),
                    ensures
                        self.text() == s,
                        self.latched() == err0,
                        self.pos() == block_comment_end(s, body0),
                        body0 <= self.pos() <= s.len(),
                    decreases s.len() - self.pos(),
                {
                    match self.peek_char(0) {
                        Some(c) => {
                            let close = if c == '*' {
                                match self.peek_char(1) {
                                    Some(c2) => c2 == '/',
                                    None => false,
                                }
                            } else {
                                false
                            };
                            if close {
                                self.advance(2);
                                break ;
                            } else {
                                self.advance(1);
                            }
                        },
                        None => {
                            break ;
                        },
                    }
                }
            } else {
                proof {
                    lemma_ws_end_fixed(s, pb);
                }
                break ;
            }
        }
        proof {
            lemma_scan_start_fixed(s, p0);
            lemma_scan_start_bounds(s, p0);
        }
        let ghost q = self.pos();
        match self.peek_char(0) {
            None => Ok(None),
            Some(c) => {
                if c == '@' {
                    Ok(Some(self.create_simple_token(TokenKind::Mut, 1)))
                } else if c == ';' {
                    Ok(Some(self.create_simple_token(TokenKind::Semicolon, 1)))
                } else if c == ',' {
                    Ok(Some(self.create_simple_token(TokenKind::Comma, 1)))
                } else if c == '&' {
                    Ok(Some(self.create_simple_token(TokenKind::Ampersand, 1)))
                } else if c == '|' {
                    Ok(Some(self.create_simple_token(TokenKind::Pipe, 1)))
                } else if c == '{' {
                    Ok(Some(self.create_simple_token(TokenKind::LeftBrace, 1)))
                } else if c == '}' {
                    Ok(Some(self.create_simple_token(TokenKind::RightBrace, 1)))
                } else if c == '[' {
                    Ok(Some(self.create_simple_token(TokenKind::LeftBracket, 1)))
                } else if c == ']' {
                    Ok(Some(self.create_simple_token(TokenKind::RightBracket, 1)))
                } else if c == '(' {
                    Ok(Some(self.create_simple_token(TokenKind::LeftParen, 1)))
                } else if c == ')' {
                    Ok(Some(self.create_simple_token(TokenKind::RightParen, 1)))
                } else if c == '\n' {
                    Ok(Some(self.create_simple_token(TokenKind::Newline, 1)))
                } else if c == '\'' {
                    Ok(Some(self.create_simple_token(TokenKind::SingleQuote, 1)))
                } else if c == '"' {
                    Ok(Some(self.create_simple_token(TokenKind::DoubleQuote, 1)))
                } else if c == '=' {
                    Ok(Some(self.create_optional_eq_token(TokenKind::Equal, TokenKind::DoubleEqual)))
                } else if c == '<' {
                    Ok(
                        Some(
                            self.create_optional_eq_token(TokenKind::LessThan, TokenKind::LessEqual),
                        ),
                    )
                } else if c == '>' {
                    Ok(
                        Some(
                            self.create_optional_eq_token(
                                TokenKind::GreaterThan,
                                TokenKind::GreaterEqual,
                            ),
                        ),
                    )
                } else if c == '+' {
                    Ok(Some(self.create_optional_eq_token(TokenKind::Plus, TokenKind::PlusEqual)))
                } else if c == '%' {
                    Ok(
                        Some(
                            self.create_optional_eq_token(TokenKind::Modulo, TokenKind::ModuloEqual),
                        ),
                    )
                } else if c == '*' {
                    Ok(Some(self.create_optional_eq_token(TokenKind::Star, TokenKind::TimesEqual)))
                } else if c == ':' {
                    let two = match self.peek_char(1) {
                        Some(c2) => c2 == ':',
                        None => false,
                    };
                    if two {
                        Ok(Some(self.create_simple_token(TokenKind::Scope, 2)))
                    } else {
                        Ok(Some(self.create_simple_token(TokenKind::Colon, 1)))
                    }
                } else if c == '!' {
                    let two = match self.peek_char(1) {
                        Some(c2) => c2 == '=',
                        None => false,
                    };
                    if two {
                        Ok(Some(self.create_simple_token(TokenKind::NotEqual, 2)))
                    } else {
                        let e = LexerError::UnexpectedCharacter('!', self.position);
                        self.error_state = Some(e);
                        Err(e)
                    }
                } else if c == '.' {
                    let second = match self.peek_char(1) {
                        Some(c2) => c2 == '.',
                        None => false,
                    };
                    if second {
                        let third = match self.peek_char(2) {
                            Some(c3) => c3 == '=',
                            None => false,
                        };
                        if third {
                            Ok(Some(self.create_simple_token(TokenKind::RangeInclusive, 3)))
                        } else {
                            Ok(Some(self.create_simple_token(TokenKind::Range, 2)))
                        }
                    } else {
                        Ok(Some(self.create_simple_token(TokenKind::Dot, 1)))
                    }
                } else if c == '-' {
                    let c1 = self.peek_char(1);
                    let arrow = match c1 {
                        Some(c2) => c2 == '>',
                        None => false,
                    };
                    let minus_eq = match c1 {
                        Some(c2) => c2 == '=',
                        None => false,
                    };
                    if arrow {
                        Ok(Some(self.create_simple_token(TokenKind::RightArrow, 2)))
                    } else if minus_eq {
                        Ok(Some(self.create_simple_token(TokenKind::MinusEqual, 2)))
                    } else {
                        Ok(Some(self.create_simple_token(TokenKind::Minus, 1)))
                    }
                } else if c == '/' {
                    // A comment cannot open here: the loop above consumed
                    // every comment before the token start.
                    let divide_eq = match self.peek_char(1) {
                        Some(c2) => c2 == '=',
                        None => false,
                    };
                    if divide_eq {
                        Ok(Some(self.create_simple_token(TokenKind::DivideEqual, 2)))
                    } else {
                        Ok(Some(self.create_simple_token(TokenKind::Divide, 1)))
                    }
                } else if ident_start_char(c) {
                    let start = self.position;
                    let identifier = self.get_identifier_string();
                    proof {
                        assert(ident_end(s, q) == ident_end(s, q + 1));
                        lemma_ident_end_bounds(s, q + 1);
                    }
                    let length = self.position - start;
                    let kind = if text_is(&identifier, "break") {
                        TokenKind::Break
                    } else if text_is(&identifier, "else") {
                        TokenKind::Else
                    } else if text_is(&identifier, "end") {
                        TokenKind::End
                    } else if text_is(&identifier, "false") {
                        TokenKind::False
                    } else if text_is(&identifier, "fn") {
                        TokenKind::Fun
                    } else if text_is(&identifier, "for") {
                        TokenKind::For
                    } else if text_is(&identifier, "if") {
                        TokenKind::If
                    } else if text_is(&identifier, "in") {
                        TokenKind::In
                    } else if text_is(&identifier, "loop") {
                        TokenKind::Loop
                    } else if text_is(&identifier, "patch") {
                        TokenKind::Patch
                    } else if text_is(&identifier, "record") {
                        TokenKind::Record
                    } else if text_is(&identifier, "return") {
                        TokenKind::Return
                    } else if text_is(&identifier, "true") {
                        TokenKind::True
                    } else if text_is(&identifier, "union") {
                        TokenKind::Union
                    } else if text_is(&identifier, "when") {
                        TokenKind::When
                    } else if text_is(&identifier, "and") {
                        TokenKind::And
                    } else if text_is(&identifier, "or") {
                        TokenKind::Or
                    } else if text_is(&identifier, "not") {
                        TokenKind::Not
                    } else {
                        TokenKind::Identifier(identifier)
                    };
                    Ok(Some(Token::new(kind, start, length)))
                } else if digit_char(c) {
                    match self.create_number_token() {
                        Ok(t) => Ok(Some(t)),
                        Err(e) => {
                            self.error_state = Some(e);
                            Err(e)
                        },
                    }
                } else {
                    let e = LexerError::UnexpectedCharacter(c, self.position);
                    self.error_state = Some(e);
                    Err(e)
                }
            },
        }
    }
}

/// The relation that draining a lexer establishes between its buffer
/// `s`, its starting cursor `p`, and the returned result: exactly the
/// postcondition of [`Lexer::tokenize`].
pub open spec fn drains_to(s: Seq<char>, p: int, r: Result<Vec<Token>, LexerError>) -> bool {
    match lex_from(s, p) {
        Result::Ok(models) => r matches Ok(tokens) && tokens@.len() == models.len() && (forall|
            i: int,
        | 0 <= i < models.len() ==> #[trigger] tokens@[i]@ == models[i]),
        Result::Err(e) => r == Err::<Vec<Token>, LexerError>(e),
    }
}

/// The views of a sequence of emitted tokens.
pub open spec fn models_of(ts: Seq<Token>) -> Seq<TokenModel> {
    ts.map_values(|t: Token| t@)
}

impl<'a> Lexer<'a> {
    /// The last lexical error this lexer produced, latched when it was
    /// reported, for introspection after the stream has been abandoned;
    /// `None` while no error has occurred.
    pub fn error(&self) -> (r: Option<&LexerError>)
        ensures
            match r {
                Some(e) => self.latched() == Some(*e),
                None => self.latched() is None,
            },
    {
        self.error_state.as_ref()
    }

    /// Pull one stream element: `Some(Ok(token))` for a scanned token,
    /// `None` at the end of the input, `Some(Err(e))` on a lexical error,
    /// latched as in [`Lexer::next_token`].
    pub fn next(&mut self) -> (r: Option<Result<Token, LexerError>>)
        ensures
            final(self).text() == old(self).text(),
            ({
                let s = old(self).text();
                let q = scan_start(s, old(self).pos());
                if q >= s.len() {
                    &&& r is None
                    &&& final(self).pos() == q
                    &&& final(self).latched() == old(self).latched()
                } else {
                    match step_at(s, q) {
                        Step::Tok { kind, len } => {
                            &&& r matches Some(Ok(t)) && t.kind@ == kind && t.position.start == q
                                && t.position.end == q + len - 1
                            &&& final(self).pos() == q + len
                            &&& final(self).latched() == old(self).latched()
                        },
                        Step::Fail { err, len } => {
                            &&& r == Some(Err::<Token, LexerError>(err))
                            &&& final(self).pos() == q + len
                            &&& final(self).latched() == Some(err)
                        },
                    }
                }
            }),
    {
        match self.next_token() {
            Ok(Some(token)) => Some(Ok(token)),
            Ok(None) => None,
            Err(e) => Some(Err(e)),
        }
    }

    /// Drain the token stream into an ordered sequence, short-circuiting
    /// on the first lexical error; no partial result is returned on
    /// error.
    pub fn tokenize(self) -> (r: Result<Vec<Token>, LexerError>)
        ensures
            drains_to(self.text(), self.pos(), r),
    {
        let ghost s = self.text();
        let ghost p0 = self.pos();
        let mut lexer = self;
        let mut tokens: Vec<Token> = Vec::new();
        loop
            invariant
                self.text() == s,
                self.pos() == p0,
                lexer.text() == s,
                p0 <= lexer.pos(),
                lexer.pos() <= s.len() || lexer.pos() == p0,
                match lex_from(s, lexer.pos()) {
                    Result::Ok(rest) => lex_from(s, p0) == Result::Ok::<Seq<TokenModel>, LexerError>(
                        models_of(tokens@) + rest,
                    ),
                    Result::Err(e) => lex_from(s, p0) == Result::Err::<
                        Seq<TokenModel>,
                        LexerError,
                    >(e),
                },
            ensures
                lex_from(s, p0) == Result::Ok::<Seq<TokenModel>, LexerError>(models_of(tokens@)),
            decreases s.len() - lexer.pos(),
        {
            let ghost pos_before = lexer.pos();
            let ghost prefix = models_of(tokens@);
            match lexer.next() {
                Some(res) => match res {
                    Ok(token) => {
                        proof {
                            lemma_scan_start_bounds(s, pos_before);
                            lemma_step_at_len(s, scan_start(s, pos_before));
                        }
                        tokens.push(token);
                        proof {
                            let q = scan_start(s, pos_before);
                            let len = step_at(s, q)->Tok_len;
                            assert(models_of(tokens@) =~= prefix + seq![token@]);
                            if let Result::Ok(rest) = lex_from(s, q + len) {
                                assert(prefix + (seq![token@] + rest) =~= models_of(tokens@)
                                    + rest);
                            }
                        }
                    },
                    Err(e) => {
                        proof {
                            lemma_scan_start_bounds(s, pos_before);
                        }
                        return Err(e);
                    },
                },
                None => {
                    proof {
                        lemma_scan_start_bounds(s, pos_before);
                        if let Result::Ok(rest) = lex_from(s, lexer.pos()) {
                            assert(models_of(tokens@) + rest =~= models_of(tokens@));
                        }
                    }
                    break ;
                },
            }
        }
        Ok(tokens)
    }
}

/// Determinism: tokenizing the same text twice yields identical token
/// sequences. The stream a lexer's contract prescribes is a function of
/// the buffer and the cursor alone, so any two results drained from the
/// same text agree token for token, and on the error.
pub proof fn lemma_tokenize_deterministic(
    s: Seq<char>,
    r1: Result<Vec<Token>, LexerError>,
    r2: Result<Vec<Token>, LexerError>,
)
    requires
        drains_to(s, 0, r1),
        drains_to(s, 0, r2),
    ensures
        r1 is Ok <==> r2 is Ok,
        r1 matches Ok(t1) ==> r2 matches Ok(t2) && t1@.len() == t2@.len() && (forall|i: int|
            0 <= i < t1@.len() ==> #[trigger] t1@[i]@ == t2@[i]@),
        r1 matches Err(e1) ==> r2 == Err::<Vec<Token>, LexerError>(e1),
{
}

/// Span invariant: every emitted token's span satisfies `end >= start`.
/// A token's span covers `end - start + 1` characters, so for
/// single-character tokens `end == start`.
pub proof fn lemma_span_invariant(s: Seq<char>, p: int)
    ensures
        lex_from(s, p) matches Ok(models) ==> forall|i: int|
            0 <= i < models.len() ==> (#[trigger] models[i]).start <= models[i].end,
    decreases s.len() - p,
{
    let q = scan_start(s, p);
    lemma_scan_start_bounds(s, p);
    if 0 <= q < s.len() {
        lemma_step_at_len(s, q);
        if let Step::Tok { kind, len } = step_at(s, q) {
            lemma_span_invariant(s, q + len);
        }
    }
}

/// Error anchoring: a numeric literal whose greedily matched digit and
/// decimal-point run is malformed — more than one decimal point, or an
/// integer value past `i64::MAX` — reports `InvalidNumberFormat`
/// anchored at the literal's start offset, and consumes the whole run:
/// by `next_token`'s contract the call returns exactly that error with
/// the cursor left at the run's end.
pub proof fn lemma_number_error_anchored(s: Seq<char>, q: int)
    requires
        0 <= q < s.len(),
        is_digit_char(s[q]),
        ({
            let t = s.subrange(q, number_end(s, q));
            (dot_count(t) == 0 && digits_val(t) > i64::MAX) || dot_count(t) >= 2
        }),
    ensures
        step_at(s, q) == (Step::Fail {
            err: LexerError::InvalidNumberFormat(q as usize),
            len: number_end(s, q) - q,
        }),
{
}

/// End-of-stream: once scanning reports the end of the buffer the cursor
/// rests at a fixed point of `scan_start`, so every later call reports
/// the end of the buffer again: the signal is stable.
pub proof fn lemma_end_of_stream_stable(s: Seq<char>, p: int)
    requires
        scan_start(s, p) >= s.len(),
    ensures
        scan_start(s, scan_start(s, p)) == scan_start(s, p),
        scan_start(s, scan_start(s, p)) >= s.len(),
{
    lemma_scan_start_fixed(s, p);
}

/// Every character of the greedily matched identifier text can continue
/// an identifier, and the first character after it (if any) cannot.
pub proof fn lemma_ident_span_chars(s: Seq<char>, p: int)
    requires
        0 <= p <= s.len(),
    ensures
        forall|i: int| p <= i < ident_end(s, p) ==> is_ident_char(#[trigger] s[i]),
        ident_end(s, p) < s.len() ==> !is_ident_char(s[ident_end(s, p)]),
    decreases s.len() - p,
{
    if 0 <= p < s.len() && is_ident_char(s[p]) {
        lemma_ident_span_chars(s, p + 1);
    }
}

/// Keyword exactness: greedy maximal-munch identifier matching takes
/// precedence over keyword lookup. A token that starts with an
/// identifier character consumes the longest possible run of identifier
/// characters, so a keyword immediately followed by more identifier
/// characters is one long identifier, never the keyword plus a
/// remainder.
pub proof fn lemma_ident_maximal(s: Seq<char>, q: int)
    requires
        0 <= q < s.len(),
        is_ident_start(s[q]),
    ensures
        step_at(s, q) matches Step::Tok { kind, len } && len == ident_end(s, q) - q && (q + len
            < s.len() ==> !is_ident_char(s[q + len])) && (forall|i: int|
            q <= i < q + len ==> is_ident_char(#[trigger] s[i])),
{
    lemma_ident_span_chars(s, q);
    lemma_ident_end_bounds(s, q);
}

/// The fixed lexeme from which a keyword or punctuation kind is derived.
/// `None` for newline tokens, identifiers and literals, which this
/// coverage statement does not speak of.
pub open spec fn fixed_lexeme(k: KindModel) -> Option<Seq<char>> {
    match k {
        KindModel::Break => Some("break"@),
        KindModel::Else => Some("else"@),
        KindModel::End => Some("end"@),
        KindModel::False => Some("false"@),
        KindModel::Fun => Some("fn"@),
        KindModel::For => Some("for"@),
        KindModel::If => Some("if"@),
        KindModel::In => Some("in"@),
        KindModel::Loop => Some("loop"@),
        KindModel::Patch => Some("patch"@),
        KindModel::Record => Some("record"@),
        KindModel::Return => Some("return"@),
        KindModel::True => Some("true"@),
        KindModel::Union => Some("union"@),
        KindModel::When => Some("when"@),
        KindModel::Mut => Some("@"@),
        KindModel::Colon => Some(":"@),
        KindModel::Scope => Some("::"@),
        KindModel::Semicolon => Some(";"@),
        KindModel::RightArrow => Some("->"@),
        KindModel::Dot => Some("."@),
        KindModel::Range => Some(".."@),
        KindModel::RangeInclusive => Some("..="@),
        KindModel::Comma => Some(","@),
        KindModel::Ampersand => Some("&"@),
        KindModel::Star => Some("*"@),
        KindModel::Pipe => Some("|"@),
        KindModel::LeftBrace => Some("{"@),
        KindModel::RightBrace => Some("}"@),
        KindModel::LeftBracket => Some("["@),
        KindModel::RightBracket => Some("]"@),
        KindModel::LeftParen => Some("("@),
        KindModel::RightParen => Some(")"@),
        KindModel::LessThan => Some("<"@),
        KindModel::GreaterThan => Some(">"@),
        KindModel::SingleQuote => Some("'"@),
        KindModel::DoubleQuote => Some("\""@),
        KindModel::Newline => None,
        KindModel::And => Some("and"@),
        KindModel::Or => Some("or"@),
        KindModel::Not => Some("not"@),
        KindModel::Plus => Some("+"@),
        KindModel::Minus => Some("-"@),
        KindModel::Divide => Some("/"@),
        KindModel::Modulo => Some("%"@),
        KindModel::Equal => Some("="@),
        KindModel::DoubleEqual => Some("=="@),
        KindModel::NotEqual => Some("!="@),
        KindModel::LessEqual => Some("<="@),
        KindModel::GreaterEqual => Some(">="@),
        KindModel::PlusEqual => Some("+="@),
        KindModel::MinusEqual => Some("-="@),
        KindModel::TimesEqual => Some("*="@),
        KindModel::DivideEqual => Some("/="@),
        KindModel::ModuloEqual => Some("%="@),
        KindModel::Identifier(_) => None,
        KindModel::Number(_) => None,
    }
}

/// One scanner dispatch agrees with `fixed_lexeme`: when it emits a kind
/// with a fixed lexeme, the consumed characters are exactly that lexeme.
pub proof fn lemma_step_lexeme(s: Seq<char>, q: int)
    requires
        0 <= q < s.len(),
    ensures
        step_at(s, q) matches Step::Tok { kind, len } ==> (fixed_lexeme(kind) matches Some(lex)
            ==> s.subrange(q, q + len) == lex),
{
    let c = s[q];
    if c == '@' {
        reveal_strlit("@");
        assert(s.subrange(q, q + 1) =~= "@"@);
    } else if c == ';' {
        reveal_strlit(";");
        assert(s.subrange(q, q + 1) =~= ";"@);
    } else if c == ',' {
        reveal_strlit(",");
        assert(s.subrange(q, q + 1) =~= ","@);
    } else if c == '&' {
        reveal_strlit("&");
        assert(s.subrange(q, q + 1) =~= "&"@);
    } else if c == '|' {
        reveal_strlit("|");
        assert(s.subrange(q, q + 1) =~= "|"@);
    } else if c == '{' {
        reveal_strlit("{");
        assert(s.subrange(q, q + 1) =~= "{"@);
    } else if c == '}' {
        reveal_strlit("}");
        assert(s.subrange(q, q + 1) =~= "}"@);
    } else if c == '[' {
        reveal_strlit("[");
        assert(s.subrange(q, q + 1) =~= "["@);
    } else if c == ']' {
        reveal_strlit("]");
        assert(s.subrange(q, q + 1) =~= "]"@);
    } else if c == '(' {
        reveal_strlit("(");
        assert(s.subrange(q, q + 1) =~= "("@);
    } else if c == ')' {
        reveal_strlit(")");
        assert(s.subrange(q, q + 1) =~= ")"@);
    } else if c == '\n' {
        // newline: no fixed lexeme claimed
    } else if c == '\'' {
        reveal_strlit("'");
        assert(s.subrange(q, q + 1) =~= "'"@);
    } else if c == '"' {
        reveal_strlit("\"");
        assert(s.subrange(q, q + 1) =~= "\""@);
    } else if c == '=' {
        if q + 1 < s.len() && s[q + 1] == '=' {
            reveal_strlit("==");
            assert(s.subrange(q, q + 2) =~= "=="@);
        } else {
            reveal_strlit("=");
            assert(s.subrange(q, q + 1) =~= "="@);
        }
    } else if c == '<' {
        if q + 1 < s.len() && s[q + 1] == '=' {
            reveal_strlit("<=");
            assert(s.subrange(q, q + 2) =~= "<="@);
        } else {
            reveal_strlit("<");
            assert(s.subrange(q, q + 1) =~= "<"@);
        }
    } else if c == '>' {
        if q + 1 < s.len() && s[q + 1] == '=' {
            reveal_strlit(">=");
            assert(s.subrange(q, q + 2) =~= ">="@);
        } else {
            reveal_strlit(">");
            assert(s.subrange(q, q + 1) =~= ">"@);
        }
    } else if c == '+' {
        if q + 1 < s.len() && s[q + 1] == '=' {
            reveal_strlit("+=");
            assert(s.subrange(q, q + 2) =~= "+="@);
        } else {
            reveal_strlit("+");
            assert(s.subrange(q, q + 1) =~= "+"@);
        }
    } else if c == '%' {
        if q + 1 < s.len() && s[q + 1] == '=' {
            reveal_strlit("%=");
            assert(s.subrange(q, q + 2) =~= "%="@);
        } else {
            reveal_strlit("%");
            assert(s.subrange(q, q + 1) =~= "%"@);
        }
    } else if c == '*' {
        if q + 1 < s.len() && s[q + 1] == '=' {
            reveal_strlit("*=");
            assert(s.subrange(q, q + 2) =~= "*="@);
        } else {
            reveal_strlit("*");
            assert(s.subrange(q, q + 1) =~= "*"@);
        }
    } else if c == ':' {
        if q + 1 < s.len() && s[q + 1] == ':' {
            reveal_strlit("::");
            assert(s.subrange(q, q + 2) =~= "::"@);
        } else {
            reveal_strlit(":");
            assert(s.subrange(q, q + 1) =~= ":"@);
        }
    } else if c == '!' {
        if q + 1 < s.len() && s[q + 1] == '=' {
            reveal_strlit("!=");
            assert(s.subrange(q, q + 2) =~= "!="@);
        }
    } else if c == '.' {
        if q + 1 < s.len() && s[q + 1] == '.' {
            if q + 2 < s.len() && s[q + 2] == '=' {
                reveal_strlit("..=");
                assert(s.subrange(q, q + 3) =~= "..="@);
            } else {
                reveal_strlit("..");
                assert(s.subrange(q, q + 2) =~= ".."@);
            }
        } else {
            reveal_strlit(".");
            assert(s.subrange(q, q + 1) =~= "."@);
        }
    } else if c == '-' {
        if q + 1 < s.len() && s[q + 1] == '>' {
            reveal_strlit("->");
            assert(s.subrange(q, q + 2) =~= "->"@);
        } else if q + 1 < s.len() && s[q + 1] == '=' {
            reveal_strlit("-=");
            assert(s.subrange(q, q + 2) =~= "-="@);
        } else {
            reveal_strlit("-");
            assert(s.subrange(q, q + 1) =~= "-"@);
        }
    } else if c == '/' {
        if q + 1 < s.len() && s[q + 1] == '=' {
            reveal_strlit("/=");
            assert(s.subrange(q, q + 2) =~= "/="@);
        } else {
            reveal_strlit("/");
            assert(s.subrange(q, q + 1) =~= "/"@);
        }
    } else if is_ident_start(c) {
        // a keyword kind is emitted only when the scanned text equals
        // the keyword's lexeme, so slicing gives back that lexeme
        let e = ident_end(s, q);
        assert(s.subrange(q, q + (e - q)) == s.subrange(q, e));
    } else {
        // digits and unexpected characters: no fixed lexeme claimed
    }
}

/// Coverage round-trip: for every emitted token except `Newline` and
/// literals, re-deriving the lexeme from the token's span by slicing the
/// original text yields exactly the lexeme that produces that kind.
pub proof fn lemma_lexeme_round_trip(s: Seq<char>, p: int)
    ensures
        lex_from(s, p) matches Ok(models) ==> forall|i: int|
            0 <= i < models.len() ==> ((#[trigger] fixed_lexeme(models[i].kind)) matches Some(
                lex,
            ) ==> s.subrange(models[i].start, models[i].end + 1) == lex),
    decreases s.len() - p,
{
    let q = scan_start(s, p);
    lemma_scan_start_bounds(s, p);
    if 0 <= q < s.len() {
        lemma_step_at_len(s, q);
        lemma_step_lexeme(s, q);
        if let Step::Tok { kind, len } = step_at(s, q) {
            lemma_lexeme_round_trip(s, q + len);
        }
    }
}

} // verus!
