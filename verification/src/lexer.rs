use vstd::prelude::*;

use crate::token::{
    lookup_identifier, spec_lookup_identifier, SpecToken, SpecTokenKind, Token, TokenKind,
};

verus! {

// ---------------------------------------------------------------------------
// The mathematical scanner: what tokenizing a buffer means, stated over a
// sequence of characters and a cursor position.
// ---------------------------------------------------------------------------

/// The whitespace characters that separate tokens.
pub open spec fn is_whitespace_char(c: char) -> bool {
    c == ' ' || c == '\t' || c == '\n' || c == '\r'
}

/// Characters that may form an identifier: ASCII letters and the underscore.
pub open spec fn spec_is_letter(c: char) -> bool {
    ('a' as u32 <= c as u32 && c as u32 <= 'z' as u32) || ('A' as u32 <= c as u32 && c as u32
        <= 'Z' as u32) || c == '_'
}

/// ASCII decimal digits.
pub open spec fn spec_is_digit(c: char) -> bool {
    '0' as u32 <= c as u32 && c as u32 <= '9' as u32
}

/// Position just past the first newline at or after `i`, or the end of the
/// buffer if no newline follows: where scanning resumes after a line comment.
pub open spec fn line_end(s: Seq<char>, i: int) -> int
    decreases s.len() - i,
    when 0 <= i <= s.len()
{
    if i >= s.len() {
        s.len() as int
    } else if s[i] == '\n' {
        i + 1
    } else {
        line_end(s, i + 1)
    }
}

/// Position of the first non-whitespace character at or after `i`.
pub open spec fn skip_ws(s: Seq<char>, i: int) -> int
    decreases s.len() - i,
    when 0 <= i <= s.len()
{
    if i < s.len() && is_whitespace_char(s[i]) {
        skip_ws(s, i + 1)
    } else {
        i
    }
}

pub proof fn lemma_line_end_bounds(s: Seq<char>, i: int)
    requires
        0 <= i <= s.len(),
    ensures
        i <= line_end(s, i) <= s.len(),
    decreases s.len() - i,
{
    if i < s.len() && s[i] != '\n' {
        lemma_line_end_bounds(s, i + 1);
    }
}

pub proof fn lemma_skip_ws_bounds(s: Seq<char>, i: int)
    requires
        0 <= i <= s.len(),
    ensures
        i <= skip_ws(s, i) <= s.len(),
        skip_ws(s, skip_ws(s, i)) == skip_ws(s, i),
        skip_ws(s, i) < s.len() ==> !is_whitespace_char(s[skip_ws(s, i)]),
    decreases s.len() - i,
{
    if i < s.len() && is_whitespace_char(s[i]) {
        lemma_skip_ws_bounds(s, i + 1);
    }
}

/// Position of the first character at or after `i` that belongs to a token:
/// whitespace and line comments before it are trivia that the scanner skips.
pub open spec fn skip_trivia(s: Seq<char>, i: int) -> int
    decreases s.len() - i,
    when 0 <= i <= s.len()
{
    if i < s.len() && is_whitespace_char(s[i]) {
        skip_trivia(s, i + 1)
    } else if i + 1 < s.len() && s[i] == '/' && s[i + 1] == '/' {
        proof {
            lemma_line_end_bounds(s, i + 2);
        }
        skip_trivia(s, line_end(s, i + 2))
    } else {
        i
    }
}

pub proof fn lemma_skip_trivia_bounds(s: Seq<char>, i: int)
    requires
        0 <= i <= s.len(),
    ensures
        i <= skip_trivia(s, i) <= s.len(),
        skip_trivia(s, skip_trivia(s, i)) == skip_trivia(s, i),
    decreases s.len() - i,
{
    if i < s.len() && is_whitespace_char(s[i]) {
        lemma_skip_trivia_bounds(s, i + 1);
    } else if i + 1 < s.len() && s[i] == '/' && s[i + 1] == '/' {
        lemma_line_end_bounds(s, i + 2);
        lemma_skip_trivia_bounds(s, line_end(s, i + 2));
    }
}

/// Skipping leading whitespace first does not change where trivia ends.
pub proof fn lemma_skip_trivia_ws(s: Seq<char>, i: int)
    requires
        0 <= i <= s.len(),
    ensures
        skip_trivia(s, skip_ws(s, i)) == skip_trivia(s, i),
    decreases s.len() - i,
{
    if i < s.len() && is_whitespace_char(s[i]) {
        lemma_skip_trivia_ws(s, i + 1);
    }
}

/// End of the maximal identifier run that starts at `i`.
pub open spec fn ident_end(s: Seq<char>, i: int) -> int
    decreases s.len() - i,
    when 0 <= i <= s.len()
{
    if i < s.len() && spec_is_letter(s[i]) {
        ident_end(s, i + 1)
    } else {
        i
    }
}

/// End of the maximal digit run that starts at `i`.
pub open spec fn digits_end(s: Seq<char>, i: int) -> int
    decreases s.len() - i,
    when 0 <= i <= s.len()
{
    if i < s.len() && spec_is_digit(s[i]) {
        digits_end(s, i + 1)
    } else {
        i
    }
}

/// Position of the closing quote at or after `i`, or the end of the buffer
/// when the string literal is unterminated.
pub open spec fn string_end(s: Seq<char>, i: int) -> int
    decreases s.len() - i,
    when 0 <= i <= s.len()
{
    if i >= s.len() {
        s.len() as int
    } else if s[i] == '"' {
        i
    } else {
        string_end(s, i + 1)
    }
}

pub proof fn lemma_ident_end_bounds(s: Seq<char>, i: int)
    requires
        0 <= i <= s.len(),
    ensures
        i <= ident_end(s, i) <= s.len(),
    decreases s.len() - i,
{
    if i < s.len() && spec_is_letter(s[i]) {
        lemma_ident_end_bounds(s, i + 1);
    }
}

pub proof fn lemma_digits_end_bounds(s: Seq<char>, i: int)
    requires
        0 <= i <= s.len(),
    ensures
        i <= digits_end(s, i) <= s.len(),
    decreases s.len() - i,
{
    if i < s.len() && spec_is_digit(s[i]) {
        lemma_digits_end_bounds(s, i + 1);
    }
}

pub proof fn lemma_string_end_bounds(s: Seq<char>, i: int)
    requires
        0 <= i <= s.len(),
    ensures
        i <= string_end(s, i) <= s.len(),
    decreases s.len() - i,
{
    if i < s.len() && s[i] != '"' {
        lemma_string_end_bounds(s, i + 1);
    }
}

/// The numeric value of a run of decimal digit characters.
pub open spec fn digits_value(s: Seq<char>) -> int
    decreases s.len(),
{
    if s.len() == 0 {
        0
    } else {
        digits_value(s.drop_last()) * 10 + (s.last() as u32 - '0' as u32)
    }
}

/// A token of one character.
pub open spec fn single_token(k: SpecTokenKind, c: char) -> SpecToken {
    SpecToken { kind: k, literal: seq![c] }
}

/// The token that begins at `p`, with the cursor position after it. `p` must
/// already point past whitespace and comments. Past the end of the buffer the
/// scanner yields the end-of-input token forever, without moving.
pub open spec fn scan_at(s: Seq<char>, p: int) -> (SpecToken, int) {
    if p >= s.len() {
        (SpecToken { kind: SpecTokenKind::EndOfInput, literal: Seq::empty() }, s.len() as int)
    } else {
        let c = s[p];
        if c == ';' {
            (single_token(SpecTokenKind::Semicolon, c), p + 1)
        } else if c == '(' {
            (single_token(SpecTokenKind::Lparen, c), p + 1)
        } else if c == ')' {
            (single_token(SpecTokenKind::Rparen, c), p + 1)
        } else if c == '{' {
            (single_token(SpecTokenKind::Lbrace, c), p + 1)
        } else if c == '}' {
            (single_token(SpecTokenKind::Rbrace, c), p + 1)
        } else if c == ',' {
            (single_token(SpecTokenKind::Comma, c), p + 1)
        } else if c == '+' {
            (single_token(SpecTokenKind::Plus, c), p + 1)
        } else if c == '-' {
            (single_token(SpecTokenKind::Minus, c), p + 1)
        } else if c == '=' {
            if p + 1 < s.len() && s[p + 1] == '=' {
                (SpecToken { kind: SpecTokenKind::Equal, literal: seq!['=', '='] }, p + 2)
            } else {
                (single_token(SpecTokenKind::Assign, c), p + 1)
            }
        } else if c == '"' {
            let e = string_end(s, p + 1);
            let content = s.subrange(p + 1, e);
            (
                SpecToken { kind: SpecTokenKind::StrLit(content), literal: content },
                if e < s.len() {
                    e + 1
                } else {
                    s.len() as int
                },
            )
        } else if spec_is_letter(c) {
            let e = ident_end(s, p);
            let word = s.subrange(p, e);
            (SpecToken { kind: spec_lookup_identifier(word), literal: word }, e)
        } else if spec_is_digit(c) {
            let e = digits_end(s, p);
            let run = s.subrange(p, e);
            (SpecToken { kind: SpecTokenKind::IntLit(digits_value(run)), literal: run }, e)
        } else {
            (single_token(SpecTokenKind::Illegal, c), p + 1)
        }
    }
}

/// The next token scanned from cursor position `i`, and the cursor after it.
pub open spec fn spec_next_token(s: Seq<char>, i: int) -> (SpecToken, int) {
    scan_at(s, skip_trivia(s, i))
}

/// How the scanner moves: it never goes backwards or past the end, it stands
/// still exactly on end of input, and it always advances otherwise.
pub proof fn lemma_scan_advances(s: Seq<char>, i: int)
    requires
        0 <= i <= s.len(),
    ensures
        i <= skip_trivia(s, i) <= s.len(),
        i <= spec_next_token(s, i).1 <= s.len(),
        spec_next_token(s, i).0.kind is EndOfInput <==> skip_trivia(s, i) >= s.len(),
        spec_next_token(s, i).0.kind is EndOfInput ==> spec_next_token(s, i).1 == s.len(),
        !(spec_next_token(s, i).0.kind is EndOfInput) ==> spec_next_token(s, i).1 > skip_trivia(
            s,
            i,
        ),
{
    lemma_skip_trivia_bounds(s, i);
    let p = skip_trivia(s, i);
    if p < s.len() {
        let c = s[p];
        lemma_string_end_bounds(s, p + 1);
        lemma_ident_end_bounds(s, p);
        lemma_digits_end_bounds(s, p);
        if spec_is_letter(c) {
            lemma_ident_end_bounds(s, p + 1);
            assert(ident_end(s, p) == ident_end(s, p + 1));
        }
        if spec_is_digit(c) {
            lemma_digits_end_bounds(s, p + 1);
            assert(digits_end(s, p) == digits_end(s, p + 1));
        }
    }
}

/// Integer literals must fit the token's 64-bit payload: if the next token is
/// an integer literal, its value is representable.
pub open spec fn scan_fits(s: Seq<char>, i: int) -> bool {
    let p = skip_trivia(s, i);
    (0 <= p < s.len() && spec_is_digit(s[p])) ==> digits_value(s.subrange(p, digits_end(s, p)))
        <= i64::MAX as int
}

/// Every integer literal in the remaining token stream fits its payload.
pub open spec fn stream_fits(s: Seq<char>, i: int) -> bool
    decreases s.len() - i,
    when 0 <= i <= s.len()
{
    scan_fits(s, i) && (!(spec_next_token(s, i).0.kind is EndOfInput) ==> {
        proof {
            lemma_scan_advances(s, i);
        }
        stream_fits(s, spec_next_token(s, i).1)
    })
}

/// A run of digit characters has a nonnegative value.
pub proof fn lemma_digits_value_nonneg(s: Seq<char>)
    requires
        forall|j: int| 0 <= j < s.len() ==> spec_is_digit(s[j]),
    ensures
        digits_value(s) >= 0,
    decreases s.len(),
{
    if s.len() > 0 {
        lemma_digits_value_nonneg(s.drop_last());
    }
}

/// Extending a digit run on the right multiplies its value by ten and adds
/// the new digit.
proof fn lemma_digits_value_step(s: Seq<char>, a: int, k: int)
    requires
        0 <= a <= k < s.len(),
    ensures
        digits_value(s.subrange(a, k + 1)) == digits_value(s.subrange(a, k)) * 10 + (s[k] as u32
            - '0' as u32),
{
    let t = s.subrange(a, k + 1);
    assert(t.drop_last() =~= s.subrange(a, k));
    assert(t.last() == s[k]);
}

/// Within one digit run, a prefix's value never exceeds the whole run's.
proof fn lemma_digits_prefix_le(s: Seq<char>, a: int, k: int, e: int)
    requires
        0 <= a <= k <= e <= s.len(),
        forall|j: int| a <= j < e ==> spec_is_digit(s[j]),
    ensures
        digits_value(s.subrange(a, k)) <= digits_value(s.subrange(a, e)),
    decreases e - k,
{
    if k < e {
        lemma_digits_value_step(s, a, k);
        assert(forall|j: int| 0 <= j < k - a ==> spec_is_digit(#[trigger] s.subrange(a, k)[j]));
        lemma_digits_value_nonneg(s.subrange(a, k));
        lemma_digits_prefix_le(s, a, k + 1, e);
    }
}

/// Every character of the maximal digit run starting at `i` is a digit.
pub proof fn lemma_digits_end_digits(s: Seq<char>, i: int)
    requires
        0 <= i <= s.len(),
    ensures
        forall|j: int| i <= j < digits_end(s, i) ==> spec_is_digit(s[j]),
    decreases s.len() - i,
{
    lemma_digits_end_bounds(s, i);
    if i < s.len() && spec_is_digit(s[i]) {
        lemma_digits_end_digits(s, i + 1);
    }
}

/// Every token the scanner yields from position `i`, in order, ending with
/// the end-of-input token.
pub open spec fn tokens_from(s: Seq<char>, i: int) -> Seq<SpecToken>
    decreases s.len() - i,
    when 0 <= i <= s.len()
{
    if spec_next_token(s, i).0.kind is EndOfInput {
        seq![spec_next_token(s, i).0]
    } else {
        proof {
            lemma_scan_advances(s, i);
        }
        seq![spec_next_token(s, i).0] + tokens_from(s, spec_next_token(s, i).1)
    }
}

// ---------------------------------------------------------------------------
// The executable lexer, proved to yield exactly the tokens of the
// mathematical scanner.
// ---------------------------------------------------------------------------

/// Whether `c` may begin or continue an identifier: an ASCII letter or the
/// underscore.
#[verifier::when_used_as_spec(spec_is_letter)]
pub fn is_letter(c: char) -> (r: bool)
    ensures
        r == spec_is_letter(c),
{
    let u = c as u32;
    (97 <= u && u <= 122) || (65 <= u && u <= 90) || c == '_'
}

/// Whether `c` is an ASCII decimal digit.
#[verifier::when_used_as_spec(spec_is_digit)]
pub fn is_digit(c: char) -> (r: bool)
    ensures
        r == spec_is_digit(c),
{
    let u = c as u32;
    48 <= u && u <= 57
}

/// The lexer: a cursor over a borrowed text buffer, with one character of
/// lookahead.
pub struct Lexer<'a> {
    input: &'a str,
    len: usize,
    position: usize,
    read_position: usize,
    ch: char,
}

impl<'a> Lexer<'a> {
    /// The buffer being scanned, as a sequence of characters.
    pub closed spec fn inp(&self) -> Seq<char> {
        self.input@
    }

    /// The cursor: the index of the current character.
    pub closed spec fn pos(&self) -> int {
        self.position as int
    }

    /// The cursor is consistent with the buffer: the stored length is the
    /// buffer's, there is one character of lookahead, and the current
    /// character mirrors the buffer, with a null sentinel past the end.
    pub closed spec fn wf(&self) -> bool {
        &&& self.len == self.input@.len()
        &&& self.len < usize::MAX
        &&& self.position <= self.len
        &&& self.read_position == self.position + 1
        &&& self.ch == (if self.position < self.len {
            self.input@[self.position as int]
        } else {
            '\u{0}'
        })
    }

    /// The cursor of a well-formed lexer lies within its buffer.
    pub proof fn lemma_wf_bounds(&self)
        requires
            self.wf(),
        ensures
            0 <= self.pos() <= self.inp().len(),
    {
    }

    /// A fresh lexer standing on the first character of `input`.
    pub fn new(input: &'a str) -> (l: Lexer<'a>)
        requires
            input@.len() < usize::MAX as int,
        ensures
            l.wf(),
            l.inp() == input@,
            l.pos() == 0,
    {
        let len = input.unicode_len();
        let ch = if len > 0 {
            input.get_char(0)
        } else {
            '\u{0}'
        };
        Lexer { input, len, position: 0, read_position: 1, ch }
    }

    /// The character one past the cursor, or the null sentinel at the end.
    fn peek_char(&self) -> (c: char)
        requires
            self.wf(),
        ensures
            c == (if self.pos() + 1 < self.inp().len() {
                self.inp()[self.pos() + 1]
            } else {
                '\u{0}'
            }),
    {
        if self.read_position >= self.len {
            '\u{0}'
        } else {
            self.input.get_char(self.read_position)
        }
    }

    /// Advances the cursor one character; at the end of the buffer it stays
    /// put, with the null sentinel as the current character.
    fn read_char(&mut self)
        requires
            old(self).wf(),
        ensures
            final(self).wf(),
            final(self).inp() == old(self).inp(),
            final(self).pos() == (if old(self).pos() < old(self).inp().len() {
                old(self).pos() + 1
            } else {
                old(self).pos()
            }),
    {
        if self.position < self.len {
            self.position = self.read_position;
            self.read_position = self.position + 1;
            self.ch = if self.position < self.len {
                self.input.get_char(self.position)
            } else {
                '\u{0}'
            };
        }
    }

    /// Moves the cursor past any whitespace.
    pub fn skip_whitespace(&mut self)
        requires
            old(self).wf(),
        ensures
            final(self).wf(),
            final(self).inp() == old(self).inp(),
            final(self).pos() == skip_ws(old(self).inp(), old(self).pos()),
    {
        let ghost s = self.inp();
        let ghost i0 = self.pos();
        while self.ch == ' ' || self.ch == '\t' || self.ch == '\n' || self.ch == '\r'
            invariant
                self.wf(),
                self.inp() == s,
                0 <= self.pos() <= s.len(),
                skip_ws(s, self.pos()) == skip_ws(s, i0),
            decreases s.len() - self.pos(),
        {
            self.read_char();
        }
    }

    /// Moves the cursor past any run of line comments and the whitespace
    /// between and after them. The cursor must not stand on whitespace.
    pub fn skip_comments(&mut self)
        requires
            old(self).wf(),
            skip_ws(old(self).inp(), old(self).pos()) == old(self).pos(),
        ensures
            final(self).wf(),
            final(self).inp() == old(self).inp(),
            final(self).pos() == skip_trivia(old(self).inp(), old(self).pos()),
    {
        let ghost s = self.inp();
        let ghost i0 = self.pos();
        loop
            invariant_except_break
                self.wf(),
                self.inp() == s,
                0 <= i0 <= s.len(),
                0 <= self.pos() <= s.len(),
                skip_ws(s, self.pos()) == self.pos(),
                skip_trivia(s, self.pos()) == skip_trivia(s, i0),
            ensures
                self.wf(),
                self.inp() == s,
                self.pos() == skip_trivia(s, i0),
            decreases s.len() - self.pos(),
        {
            if !(self.ch == '/' && self.peek_char() == '/') {
                proof {
                    if self.pos() < s.len() {
                        lemma_skip_ws_bounds(s, self.pos() + 1);
                    }
                    assert(skip_trivia(s, self.pos()) == self.pos());
                }
                break;
            }
            let ghost p0 = self.pos();
            proof {
                lemma_line_end_bounds(s, p0 + 2);
            }
            self.read_char();
            self.read_char();
            // consume the comment body through its newline, or to the end
            while self.position < self.len && self.ch != '\n'
                invariant
                    self.wf(),
                    self.inp() == s,
                    0 <= p0,
                    p0 + 2 <= self.pos() <= s.len(),
                    line_end(s, self.pos()) == line_end(s, p0 + 2),
                decreases s.len() - self.pos(),
            {
                self.read_char();
            }
            if self.position < self.len {
                // step past the newline that ends the comment
                self.read_char();
            }
            self.skip_whitespace();
            proof {
                lemma_skip_ws_bounds(s, line_end(s, p0 + 2));
                lemma_skip_trivia_ws(s, line_end(s, p0 + 2));
            }
        }
    }

    /// Reads the maximal identifier run that starts at the cursor and
    /// returns it; the cursor ends just past the run.
    pub fn read_identifier(&mut self) -> (r: String)
        requires
            old(self).wf(),
        ensures
            final(self).wf(),
            final(self).inp() == old(self).inp(),
            final(self).pos() == ident_end(old(self).inp(), old(self).pos()),
            r@ == old(self).inp().subrange(
                old(self).pos(),
                ident_end(old(self).inp(), old(self).pos()),
            ),
    {
        let ghost s = self.inp();
        let start = self.position;
        loop
            invariant_except_break
                self.wf(),
                self.inp() == s,
                start as int <= self.pos() <= s.len(),
                ident_end(s, self.pos()) == ident_end(s, start as int),
            ensures
                self.wf(),
                self.inp() == s,
                start as int <= self.pos() <= s.len(),
                self.pos() == ident_end(s, start as int),
            decreases s.len() - self.pos(),
        {
            if !is_letter(self.ch) {
                break;
            }
            self.read_char();
        }
        self.input.substring_char(start, self.position).to_owned()
    }

    /// Reads a string literal: the cursor must stand on the opening quote.
    /// Returns the text between the quotes (to the end of the buffer when
    /// the closing quote is missing); the cursor ends past the closing
    /// quote, or at the end of the buffer.
    pub fn read_string(&mut self) -> (r: String)
        requires
            old(self).wf(),
            old(self).pos() < old(self).inp().len(),
            old(self).inp()[old(self).pos()] == '"',
        ensures
            final(self).wf(),
            final(self).inp() == old(self).inp(),
            r@ == old(self).inp().subrange(
                old(self).pos() + 1,
                string_end(old(self).inp(), old(self).pos() + 1),
            ),
            final(self).pos() == (if string_end(old(self).inp(), old(self).pos() + 1) < old(
                self,
            ).inp().len() {
                string_end(old(self).inp(), old(self).pos() + 1) + 1
            } else {
                old(self).inp().len() as int
            }),
    {
        let ghost s = self.inp();
        let pos = self.position + 1;
        self.read_char();
        loop
            invariant_except_break
                self.wf(),
                self.inp() == s,
                pos as int <= self.pos() <= s.len(),
                string_end(s, self.pos()) == string_end(s, pos as int),
            ensures
                self.wf(),
                self.inp() == s,
                pos as int <= self.pos() <= s.len(),
                self.pos() == string_end(s, pos as int),
            decreases s.len() - self.pos(),
        {
            if self.position >= self.len || self.ch == '"' {
                break;
            }
            self.read_char();
        }
        let x = self.input.substring_char(pos, self.position).to_owned();
        if self.position < self.len {
            // step past the closing quote
            self.read_char();
        }
        x
    }

    /// Reads the maximal digit run that starts at the cursor and returns its
    /// value; the cursor ends just past the run. The run's value must fit
    /// the 64-bit payload.
    pub fn read_number(&mut self) -> (n: i64)
        requires
            old(self).wf(),
            digits_value(
                old(self).inp().subrange(
                    old(self).pos(),
                    digits_end(old(self).inp(), old(self).pos()),
                ),
            ) <= i64::MAX as int,
        ensures
            final(self).wf(),
            final(self).inp() == old(self).inp(),
            final(self).pos() == digits_end(old(self).inp(), old(self).pos()),
            n as int == digits_value(
                old(self).inp().subrange(
                    old(self).pos(),
                    digits_end(old(self).inp(), old(self).pos()),
                ),
            ),
    {
        let ghost s = self.inp();
        let start = self.position;
        let ghost e = digits_end(s, start as int);
        proof {
            lemma_digits_end_bounds(s, start as int);
            lemma_digits_end_digits(s, start as int);
        }
        let mut value: i64 = 0;
        loop
            invariant_except_break
                self.wf(),
                self.inp() == s,
                start as int <= self.pos() <= s.len(),
                e == digits_end(s, start as int),
                digits_end(s, self.pos()) == e,
                self.pos() <= e <= s.len(),
                forall|j: int| start as int <= j < e ==> spec_is_digit(s[j]),
                digits_value(s.subrange(start as int, e)) <= i64::MAX as int,
                value as int == digits_value(s.subrange(start as int, self.pos())),
            ensures
                self.wf(),
                self.inp() == s,
                self.pos() == e,
                value as int == digits_value(s.subrange(start as int, e)),
            decreases s.len() - self.pos(),
        {
            if !is_digit(self.ch) {
                break;
            }
            let ghost k = self.pos();
            proof {
                lemma_digits_end_bounds(s, k + 1);
                assert(digits_end(s, k) == digits_end(s, k + 1));
                lemma_digits_value_step(s, start as int, k);
                lemma_digits_prefix_le(s, start as int, k + 1, e);
                assert(forall|j: int|
                    0 <= j < k - start as int ==> spec_is_digit(
                        #[trigger] s.subrange(start as int, k)[j],
                    ));
                lemma_digits_value_nonneg(s.subrange(start as int, k));
            }
            let d = self.ch as u32 - 48;
            value = value * 10 + (d as i64);
            self.read_char();
        }
        value
    }

    /// Scans the maximal digit run at the cursor and reports whether its
    /// value fits the token's 64-bit payload; the cursor ends just past the
    /// run.
    fn check_number(&mut self) -> (fits: bool)
        requires
            old(self).wf(),
        ensures
            final(self).wf(),
            final(self).inp() == old(self).inp(),
            final(self).pos() == digits_end(old(self).inp(), old(self).pos()),
            fits == (digits_value(
                old(self).inp().subrange(
                    old(self).pos(),
                    digits_end(old(self).inp(), old(self).pos()),
                ),
            ) <= i64::MAX as int),
    {
        let ghost s = self.inp();
        let start = self.position;
        let ghost e = digits_end(s, start as int);
        proof {
            lemma_digits_end_bounds(s, start as int);
            lemma_digits_end_digits(s, start as int);
        }
        let mut value: u128 = 0;
        let mut too_big = false;
        loop
            invariant_except_break
                self.wf(),
                self.inp() == s,
                start as int <= self.pos() <= s.len(),
                e == digits_end(s, start as int),
                digits_end(s, self.pos()) == e,
                self.pos() <= e <= s.len(),
                forall|j: int| start as int <= j < e ==> spec_is_digit(s[j]),
                !too_big ==> value as int == digits_value(s.subrange(start as int, self.pos()))
                    && value <= i64::MAX as u128,
                too_big ==> digits_value(s.subrange(start as int, self.pos())) > i64::MAX as int,
            ensures
                self.wf(),
                self.inp() == s,
                self.pos() == e,
                (!too_big) == (digits_value(s.subrange(start as int, e)) <= i64::MAX as int),
            decreases s.len() - self.pos(),
        {
            if !is_digit(self.ch) {
                break;
            }
            let ghost k = self.pos();
            proof {
                lemma_digits_end_bounds(s, k + 1);
                assert(digits_end(s, k) == digits_end(s, k + 1));
                lemma_digits_value_step(s, start as int, k);
                assert(forall|j: int|
                    0 <= j < k - start as int ==> spec_is_digit(
                        #[trigger] s.subrange(start as int, k)[j],
                    ));
                lemma_digits_value_nonneg(s.subrange(start as int, k));
            }
            let d = self.ch as u32 - 48;
            if !too_big {
                let nv: u128 = value * 10 + d as u128;
                if nv > i64::MAX as u128 {
                    too_big = true;
                } else {
                    value = nv;
                }
            }
            self.read_char();
        }
        !too_big
    }

    /// Scans and returns the next token, moving the cursor past it. After
    /// the end of the buffer this yields the end-of-input token forever.
    pub fn next_token(&mut self) -> (t: Token)
        requires
            old(self).wf(),
            scan_fits(old(self).inp(), old(self).pos()),
        ensures
            final(self).wf(),
            final(self).inp() == old(self).inp(),
            t@ == spec_next_token(old(self).inp(), old(self).pos()).0,
            final(self).pos() == spec_next_token(old(self).inp(), old(self).pos()).1,
    {
        let ghost s = self.inp();
        let ghost i0 = self.pos();
        self.skip_whitespace();
        proof {
            lemma_skip_ws_bounds(s, i0);
        }
        self.skip_comments();
        proof {
            lemma_skip_trivia_ws(s, i0);
            lemma_skip_trivia_bounds(s, i0);
        }
        let ghost p = skip_trivia(s, i0);
        assert(self.pos() == p);
        if self.position >= self.len {
            return Token { kind: TokenKind::EOF, literal: String::new() };
        }
        let start = self.position;
        let c = self.ch;
        if is_letter(c) {
            let ident = self.read_identifier();
            let kind = lookup_identifier(ident.as_str());
            return Token { kind, literal: ident };
        }
        if is_digit(c) {
            proof {
                lemma_digits_end_bounds(s, p);
            }
            let num = self.read_number();
            let lit = self.input.substring_char(start, self.position).to_owned();
            return Token { kind: TokenKind::INT(num), literal: lit };
        }
        if c == '"' {
            let content = self.read_string();
            let lit = content.clone();
            return Token { kind: TokenKind::STRING(content), literal: lit };
        }
        let kind = match c {
            ';' => TokenKind::SEMICOLON,
            '(' => TokenKind::LPAREN,
            ')' => TokenKind::RPAREN,
            '{' => TokenKind::LBRACE,
            '}' => TokenKind::RBRACE,
            ',' => TokenKind::COMMA,
            '+' => TokenKind::PLUS,
            '-' => TokenKind::MINUS,
            '=' => {
                if self.peek_char() == '=' {
                    self.read_char();
                    TokenKind::EQ
                } else {
                    TokenKind::ASSIGN
                }
            },
            _ => TokenKind::ILLEGAL,
        };
        self.read_char();
        let lit = self.input.substring_char(start, self.position).to_owned();
        proof {
            if self.pos() == start + 1 {
                assert(s.subrange(start as int, start as int + 1) =~= seq![s[start as int]]);
            } else {
                assert(s.subrange(start as int, start as int + 2) =~= seq![
                    s[start as int],
                    s[start as int + 1],
                ]);
            }
        }
        Token { kind, literal: lit }
    }
}

/// The abstract values of a sequence of tokens.
pub open spec fn views_of(ts: Seq<Token>) -> Seq<SpecToken> {
    ts.map_values(|t: Token| t@)
}

/// Scans a whole buffer: every token in source order, ending with the
/// end-of-input token.
pub fn tokenize(input: &str) -> (r: Vec<Token>)
    requires
        input@.len() < usize::MAX as int,
        stream_fits(input@, 0),
    ensures
        views_of(r@) == tokens_from(input@, 0),
{
    let ghost s = input@;
    let mut lexer = Lexer::new(input);
    let mut out: Vec<Token> = Vec::new();
    proof {
        assert(views_of(out@) + tokens_from(s, 0) =~= tokens_from(s, 0));
    }
    loop
        invariant_except_break
            lexer.wf(),
            lexer.inp() == s,
            0 <= lexer.pos() <= s.len(),
            stream_fits(s, lexer.pos()),
            tokens_from(s, 0) == views_of(out@) + tokens_from(s, lexer.pos()),
        ensures
            views_of(out@) == tokens_from(s, 0),
        decreases s.len() - lexer.pos(),
    {
        let ghost pos0 = lexer.pos();
        let ghost before = out@;
        let t = lexer.next_token();
        proof {
            lemma_scan_advances(s, pos0);
        }
        let ghost tv = t@;
        let is_end = matches!(t.kind, TokenKind::EOF);
        out.push(t);
        proof {
            assert(views_of(out@) =~= views_of(before) + seq![tv]);
        }
        if is_end {
            proof {
                assert(tokens_from(s, pos0) == seq![tv]);
                assert(views_of(out@) =~= tokens_from(s, 0));
            }
            break;
        }
        proof {
            assert(tokens_from(s, pos0) == seq![tv] + tokens_from(s, lexer.pos()));
            assert(views_of(before) + (seq![tv] + tokens_from(s, lexer.pos())) =~= views_of(out@)
                + tokens_from(s, lexer.pos()));
        }
    }
    out
}

/// Whether every integer literal in `input` fits the token's 64-bit
/// payload: exactly the condition under which the buffer can be scanned and
/// parsed. A caller holding an arbitrary buffer can test this before
/// building a lexer or parser over it. Digit runs inside string literals
/// and comments do not count.
pub fn integer_literals_fit(input: &str) -> (r: bool)
    requires
        input@.len() < usize::MAX as int,
    ensures
        r == stream_fits(input@, 0),
{
    let ghost s = input@;
    let mut l = Lexer::new(input);
    loop
        invariant
            l.wf(),
            s == input@,
            l.inp() == s,
            0 <= l.pos() <= s.len(),
            stream_fits(s, 0) == stream_fits(s, l.pos()),
        decreases s.len() - l.pos(),
    {
        let ghost pos0 = l.pos();
        l.skip_whitespace();
        proof {
            lemma_skip_ws_bounds(s, pos0);
        }
        l.skip_comments();
        proof {
            lemma_skip_trivia_ws(s, pos0);
            lemma_skip_trivia_bounds(s, pos0);
        }
        let ghost p = skip_trivia(s, pos0);
        // the cursor stands on the first character of the next token
        if l.position >= l.len {
            // end of input: nothing is left that could overflow
            proof {
                assert(scan_fits(s, pos0));
                assert(stream_fits(s, pos0));
            }
            return true;
        }
        let c = l.ch;
        if is_digit(c) {
            let fits = l.check_number();
            if !fits {
                proof {
                    assert(!scan_fits(s, pos0));
                    assert(!stream_fits(s, pos0));
                }
                return false;
            }
        } else if is_letter(c) {
            let _word = l.read_identifier();
        } else if c == '"' {
            let _content = l.read_string();
        } else if c == '=' {
            if l.peek_char() == '=' {
                l.read_char();
            }
            l.read_char();
        } else {
            // one-character tokens, operators and illegal characters all
            // consume exactly one character
            l.read_char();
        }
        proof {
            lemma_scan_advances(s, pos0);
            assert(l.pos() == spec_next_token(s, pos0).1);
            assert(scan_fits(s, pos0));
            assert(stream_fits(s, pos0) == stream_fits(s, l.pos()));
        }
    }
}

// ---------------------------------------------------------------------------
// Laws of the scanner.
// ---------------------------------------------------------------------------

/// The token kind that a single supported operator or delimiter character
/// scans to.
pub open spec fn single_char_kind(c: char) -> Option<SpecTokenKind> {
    if c == ';' {
        Some(SpecTokenKind::Semicolon)
    } else if c == '(' {
        Some(SpecTokenKind::Lparen)
    } else if c == ')' {
        Some(SpecTokenKind::Rparen)
    } else if c == '{' {
        Some(SpecTokenKind::Lbrace)
    } else if c == '}' {
        Some(SpecTokenKind::Rbrace)
    } else if c == ',' {
        Some(SpecTokenKind::Comma)
    } else if c == '+' {
        Some(SpecTokenKind::Plus)
    } else if c == '-' {
        Some(SpecTokenKind::Minus)
    } else if c == '=' {
        Some(SpecTokenKind::Assign)
    } else {
        None
    }
}

/// Law: a buffer holding exactly one supported operator or delimiter
/// character scans to one token of the matching kind, followed by end of
/// input.
pub proof fn lemma_single_char_token(c: char)
    requires
        single_char_kind(c) is Some,
    ensures
        tokens_from(seq![c], 0) == seq![
            SpecToken { kind: single_char_kind(c).unwrap(), literal: seq![c] },
            SpecToken { kind: SpecTokenKind::EndOfInput, literal: Seq::empty() },
        ],
{
    let s = seq![c];
    assert(skip_trivia(s, 0) == 0);
    assert(skip_trivia(s, 1) == 1);
    assert(spec_next_token(s, 0).0 == SpecToken {
        kind: single_char_kind(c).unwrap(),
        literal: seq![c],
    });
    assert(spec_next_token(s, 0).1 == 1);
    assert(tokens_from(s, 1) == seq![
        SpecToken { kind: SpecTokenKind::EndOfInput, literal: Seq::empty() },
    ]);
    assert(tokens_from(s, 0) =~= seq![
        SpecToken { kind: single_char_kind(c).unwrap(), literal: seq![c] },
        SpecToken { kind: SpecTokenKind::EndOfInput, literal: Seq::empty() },
    ]);
}

/// Law: `==` scans as one equality token, never as two assignment tokens:
/// the two-character buffer yields exactly the equality token, then end of
/// input.
pub proof fn lemma_double_equals_single_token()
    ensures
        tokens_from(seq!['=', '='], 0) == seq![
            SpecToken { kind: SpecTokenKind::Equal, literal: seq!['=', '='] },
            SpecToken { kind: SpecTokenKind::EndOfInput, literal: Seq::empty() },
        ],
{
    let s = seq!['=', '='];
    assert(skip_trivia(s, 0) == 0);
    assert(spec_next_token(s, 0).1 == 2);
    assert(skip_trivia(s, 2) == 2);
    assert(spec_next_token(s, 2).0.kind is EndOfInput);
    assert(tokens_from(s, 2) =~= seq![
        SpecToken { kind: SpecTokenKind::EndOfInput, literal: Seq::empty() },
    ]);
    assert(tokens_from(s, 0) =~= seq![
        SpecToken { kind: SpecTokenKind::Equal, literal: seq!['=', '='] },
        SpecToken { kind: SpecTokenKind::EndOfInput, literal: Seq::empty() },
    ]);
}

/// Law: a line comment is invisible to the scanner. From the start of a
/// comment, the tokens are exactly the tokens from just past that comment's
/// line end.
pub proof fn lemma_comment_skipped(s: Seq<char>, i: int)
    requires
        0 <= i,
        i + 1 < s.len(),
        s[i] == '/',
        s[i + 1] == '/',
    ensures
        skip_trivia(s, i) == skip_trivia(s, line_end(s, i + 2)),
        tokens_from(s, i) == tokens_from(s, line_end(s, i + 2)),
{
    lemma_line_end_bounds(s, i + 2);
    let j = line_end(s, i + 2);
    assert(skip_trivia(s, i) == skip_trivia(s, j));
    assert(spec_next_token(s, i) == spec_next_token(s, j));
    if spec_next_token(s, i).0.kind is EndOfInput {
        assert(tokens_from(s, i) == tokens_from(s, j));
    } else {
        lemma_scan_advances(s, i);
        assert(tokens_from(s, i) == tokens_from(s, j));
    }
}

/// Law: the token stream is a function of the buffer's contents alone; two
/// buffers that hold the same characters scan to the same tokens, whatever
/// instances scan them.
pub proof fn lemma_tokens_deterministic(a: Seq<char>, b: Seq<char>)
    requires
        a == b,
    ensures
        tokens_from(a, 0) == tokens_from(b, 0),
{
}

} // verus!
