//! The lexer: character-stream scanning, whitespace skipping,
//! multi-digit integer accumulation, and single-character symbol
//! recognition.
//!
//! The input is treated as a sequence of Unicode code points (`char`s).
//! Whitespace is the set a byte-oriented scanner of Latin-1 text would
//! skip: the ASCII whitespace characters plus next-line (U+0085) and
//! no-break space (U+00A0). Every code point outside that set, the
//! decimal digits, and the seven recognized symbols is an invalid
//! character.

use crate::token::{LexError, Token};
use vstd::prelude::*;

verus! {

/// Whitespace: skipped between tokens, never tokenized.
pub open spec fn is_space_char(c: char) -> bool {
    c == ' ' || c == '\t' || c == '\n' || c == '\r' || c == '\u{b}' || c == '\u{c}' || c
        == '\u{85}' || c == '\u{a0}'
}

/// A decimal digit `0` through `9`.
pub open spec fn is_digit_char(c: char) -> bool {
    '0' <= c && c <= '9'
}

/// The numeric value of a decimal digit character.
pub open spec fn digit_value(c: char) -> int {
    c as int - '0' as int
}

/// The token standing for a single-character symbol, or `None` if the
/// character is not one of the seven recognized symbols.
pub open spec fn token_for_symbol(c: char) -> Option<Token> {
    if c == '+' {
        Some(Token::PLUS)
    } else if c == '-' {
        Some(Token::MINUS)
    } else if c == '*' {
        Some(Token::MUL)
    } else if c == '/' {
        Some(Token::DIV)
    } else if c == '^' {
        Some(Token::POW)
    } else if c == '(' {
        Some(Token::LPAREN)
    } else if c == ')' {
        Some(Token::RPAREN)
    } else {
        None
    }
}

/// The first position at or after `i` holding a non-whitespace
/// character, or `s.len()` if only whitespace remains.
pub open spec fn skip_ws(s: Seq<char>, i: int) -> int
    decreases s.len() - i,
{
    if 0 <= i < s.len() && is_space_char(s[i]) {
        skip_ws(s, i + 1)
    } else {
        i
    }
}

/// The first position at or after `i` holding a non-digit character,
/// or `s.len()` if only digits remain: the exclusive end of the digit
/// run starting at `i`.
pub open spec fn digit_run_end(s: Seq<char>, i: int) -> int
    decreases s.len() - i,
{
    if 0 <= i < s.len() && is_digit_char(s[i]) {
        digit_run_end(s, i + 1)
    } else {
        i
    }
}

/// The base-10 interpretation of the digits `s[i..j]`, read left to
/// right; 0 for an empty range. Leading zeros carry no weight:
/// `007` has the value 7.
pub open spec fn digits_value(s: Seq<char>, i: int, j: int) -> int
    decreases j - i,
{
    if i < j {
        digits_value(s, i, j - 1) * 10 + digit_value(s[j - 1])
    } else {
        0
    }
}

/// What an integer-accumulation step starting on the digit at `p`
/// produces: the value of the maximal digit run if it fits an `i32`,
/// and `NumericOverflow` otherwise.
pub open spec fn integer_result(s: Seq<char>, p: int) -> Result<i32, LexError> {
    let v = digits_value(s, p, digit_run_end(s, p));
    if v <= i32::MAX as int {
        Ok(v as i32)
    } else {
        Err(LexError::NumericOverflow)
    }
}

/// One token request on the text `s` with the cursor at `pos`: the
/// outcome and the cursor position after the request.
///
/// Whitespace from `pos` on is skipped. At the end of the text the
/// request yields `EOF`; on a digit it yields the maximal digit run as
/// one `INTEGER` token (or `NumericOverflow`) and leaves the cursor on
/// the first non-digit; on a recognized symbol it yields that token
/// and moves the cursor one past it; on anything else it fails with
/// `InvalidCharacter` and leaves the cursor on the offending character.
pub open spec fn lex_step(s: Seq<char>, pos: int) -> (Result<Token, LexError>, int) {
    let p = skip_ws(s, pos);
    if p >= s.len() {
        (Ok(Token::EOF), p)
    } else if is_digit_char(s[p]) {
        (
            match integer_result(s, p) {
                Ok(n) => Ok(Token::INTEGER(n)),
                Err(e) => Err(e),
            },
            digit_run_end(s, p),
        )
    } else {
        match token_for_symbol(s[p]) {
            Some(t) => (Ok(t), p + 1),
            None => (Err(LexError::InvalidCharacter), p),
        }
    }
}

/// `skip_ws` lands between `i` and the end of the text, on a
/// non-whitespace character if any remains, and everything it skipped
/// was whitespace.
pub proof fn lemma_skip_ws_props(s: Seq<char>, i: int)
    requires
        0 <= i <= s.len(),
    ensures
        i <= skip_ws(s, i) <= s.len(),
        skip_ws(s, i) < s.len() ==> !is_space_char(s[skip_ws(s, i)]),
        forall|k: int| i <= k < skip_ws(s, i) ==> is_space_char(s[k]),
    decreases s.len() - i,
{
    if i < s.len() && is_space_char(s[i]) {
        lemma_skip_ws_props(s, i + 1);
    }
}

/// `digit_run_end` lands between `i` and the end of the text, on a
/// non-digit character if any remains, and the whole run is digits.
pub proof fn lemma_digit_run_end_props(s: Seq<char>, i: int)
    requires
        0 <= i <= s.len(),
    ensures
        i <= digit_run_end(s, i) <= s.len(),
        digit_run_end(s, i) < s.len() ==> !is_digit_char(s[digit_run_end(s, i)]),
        forall|k: int| i <= k < digit_run_end(s, i) ==> is_digit_char(s[k]),
    decreases s.len() - i,
{
    if i < s.len() && is_digit_char(s[i]) {
        lemma_digit_run_end_props(s, i + 1);
    }
}

/// A position `j` bounding an all-digit range `[i, j)` and itself
/// holding no digit is exactly where the digit run starting at `i`
/// ends.
proof fn lemma_digit_run_end_of(s: Seq<char>, i: int, j: int)
    requires
        0 <= i <= j <= s.len(),
        forall|k: int| i <= k < j ==> is_digit_char(s[k]),
        j == s.len() || !is_digit_char(s[j]),
    ensures
        digit_run_end(s, i) == j,
    decreases j - i,
{
    if i < j {
        lemma_digit_run_end_of(s, i + 1, j);
    }
}

/// Whether `c` is skipped as whitespace.
fn is_space(c: char) -> (b: bool)
    ensures
        b == is_space_char(c),
{
    c == ' ' || c == '\t' || c == '\n' || c == '\r' || c == '\u{b}' || c == '\u{c}' || c
        == '\u{85}' || c == '\u{a0}'
}

/// Whether `c` is a decimal digit.
fn is_digit(c: char) -> (b: bool)
    ensures
        b == is_digit_char(c),
{
    '0' <= c && c <= '9'
}

/// The lexer: an immutable copy of the input text and a scanning
/// cursor. Each call to [`Lexer::get_next_token`] advances the cursor
/// until a complete token is recognized or the input is exhausted.
pub struct Lexer {
    input: String,
    len: usize,
    pos: usize,
    current_char: Option<char>,
}

impl Lexer {
    /// The input text, as the sequence of its characters.
    pub closed spec fn text(self) -> Seq<char> {
        self.input@
    }

    /// The cursor: the position in [`Lexer::text`] the next token
    /// request scans from.
    pub closed spec fn cursor(self) -> int {
        self.pos as int
    }

    /// Well-formedness: the cursor stays within `[0, len]`, and
    /// `current_char` is exactly the character at the cursor, or absent
    /// iff the cursor is at the end of the text.
    pub closed spec fn wf(self) -> bool {
        &&& self.len == self.input@.len()
        &&& self.pos <= self.len
        &&& self.current_char == (if self.pos < self.len {
            Some(self.input@[self.pos as int])
        } else {
            None::<char>
        })
    }

    /// Builds a lexer over a private copy of `input`, with the cursor
    /// on the first character (or at the end, for an empty input).
    pub fn new(input: &String) -> (lexer: Lexer)
        ensures
            lexer.wf(),
            lexer.text() == input@,
            lexer.cursor() == 0,
    {
        let len = input.as_str().unicode_len();
        let current_char = if len > 0 {
            Some(input.as_str().get_char(0))
        } else {
            None
        };
        Lexer { input: input.clone(), len, pos: 0, current_char }
    }

    /// Moves the cursor one position forward and refreshes
    /// `current_char`, which becomes absent when the cursor passes the
    /// last character.
    fn advance(&mut self)
        requires
            old(self).wf(),
            old(self).cursor() < old(self).text().len(),
        ensures
            final(self).wf(),
            final(self).text() == old(self).text(),
            final(self).cursor() == old(self).cursor() + 1,
    {
        self.pos = self.pos + 1;
        if self.pos < self.len {
            self.current_char = Some(self.input.as_str().get_char(self.pos));
        } else {
            self.current_char = None;
        }
    }

    /// Produces the next token from the current cursor position,
    /// advancing the cursor as a side effect.
    ///
    /// The outcome and the new cursor position are exactly
    /// [`lex_step`] applied to the text and the old cursor: whitespace
    /// is skipped, a digit run becomes one `INTEGER` token, a
    /// recognized symbol becomes its zero-payload token, exhausted
    /// input yields `EOF`, and any other character fails with
    /// `InvalidCharacter`. Calling again after `EOF` is well-defined
    /// and yields `EOF` forever.
    pub fn get_next_token(&mut self) -> (r: Result<Token, LexError>)
        requires
            old(self).wf(),
        ensures
            final(self).wf(),
            final(self).text() == old(self).text(),
            r == lex_step(old(self).text(), old(self).cursor()).0,
            final(self).cursor() == lex_step(old(self).text(), old(self).cursor()).1,
    {
        let ghost s = self.input@;
        let ghost start = self.pos as int;
        while self.current_char.is_some()
            invariant
                self.wf(),
                self.input@ == s,
                start <= self.pos as int <= s.len(),
                skip_ws(s, self.pos as int) == skip_ws(s, start),
            ensures
                self.wf(),
                self.input@ == s,
                skip_ws(s, self.pos as int) == skip_ws(s, start),
                self.current_char is None ==> self.pos as int == s.len(),
                self.current_char is Some ==> (self.pos as int) < s.len() && !is_space_char(
                    s[self.pos as int],
                ),
            decreases s.len() - self.pos as int,
        {
            let c = self.current_char.unwrap();
            if is_space(c) {
                self.advance();
                continue ;
            }
            break ;
        }
        let c = match self.current_char {
            Some(c) => c,
            None => {
                return Ok(Token::EOF);
            },
        };
        if is_digit(c) {
            return match self.integer() {
                Ok(n) => Ok(Token::INTEGER(n)),
                Err(e) => Err(e),
            };
        }
        match c {
            '+' => {
                self.advance();
                Ok(Token::PLUS)
            },
            '-' => {
                self.advance();
                Ok(Token::MINUS)
            },
            '*' => {
                self.advance();
                Ok(Token::MUL)
            },
            '/' => {
                self.advance();
                Ok(Token::DIV)
            },
            '^' => {
                self.advance();
                Ok(Token::POW)
            },
            '(' => {
                self.advance();
                Ok(Token::LPAREN)
            },
            ')' => {
                self.advance();
                Ok(Token::RPAREN)
            },
            _ => Err(LexError::InvalidCharacter),
        }
    }

    /// Accumulates the maximal digit run starting at the cursor into a
    /// single integer value, advancing the cursor to the first
    /// non-digit. A run whose value exceeds `i32::MAX` is reported as
    /// `NumericOverflow`; the cursor still consumes the whole run.
    fn integer(&mut self) -> (r: Result<i32, LexError>)
        requires
            old(self).wf(),
            old(self).cursor() < old(self).text().len(),
            is_digit_char(old(self).text()[old(self).cursor()]),
        ensures
            final(self).wf(),
            final(self).text() == old(self).text(),
            final(self).cursor() == digit_run_end(old(self).text(), old(self).cursor()),
            r == integer_result(old(self).text(), old(self).cursor()),
    {
        let ghost s = self.input@;
        let ghost start = self.pos as int;
        let mut val: u64 = 0;
        let mut overflow: bool = false;
        loop
            invariant
                self.wf(),
                self.input@ == s,
                start <= self.pos as int <= s.len(),
                forall|k: int| start <= k < self.pos as int ==> is_digit_char(s[k]),
                !overflow ==> val == digits_value(s, start, self.pos as int) && val <= i32::MAX
                    as u64,
                overflow ==> digits_value(s, start, self.pos as int) > i32::MAX as int,
            ensures
                self.pos as int == s.len() || !is_digit_char(s[self.pos as int]),
            decreases s.len() - self.pos as int,
        {
            let c = match self.current_char {
                Some(c) => c,
                None => { break ; },
            };
            if !is_digit(c) {
                break ;
            }
            let d: u64 = (c as u32 - 0x30) as u64;
            if !overflow {
                let next: u64 = val * 10 + d;
                if next > 0x7fff_ffff {
                    overflow = true;
                } else {
                    val = next;
                }
            }
            self.advance();
        }
        proof {
            lemma_digit_run_end_of(s, start, self.pos as int);
        }
        if overflow {
            Err(LexError::NumericOverflow)
        } else {
            Ok(val as i32)
        }
    }
}

/// A text holding only whitespace from `pos` on — the empty text
/// included — yields `EOF` without failing, and leaves the cursor at
/// the end, from where every further request yields `EOF` again.
pub proof fn lemma_whitespace_only_eof(s: Seq<char>, pos: int)
    requires
        0 <= pos <= s.len(),
        forall|k: int| pos <= k < s.len() ==> is_space_char(s[k]),
    ensures
        lex_step(s, pos) == (Ok::<Token, LexError>(Token::EOF), s.len() as int),
{
    lemma_skip_ws_props(s, pos);
}

/// Exhaustion is idempotent: a request that yields `EOF` leaves the
/// cursor at the end of the text, and a request from there yields
/// `EOF` again, so every further request on the same lexer yields
/// `EOF`.
pub proof fn lemma_eof_idempotent(s: Seq<char>, pos: int)
    requires
        0 <= pos <= s.len(),
        lex_step(s, pos).0 == Ok::<Token, LexError>(Token::EOF),
    ensures
        lex_step(s, pos).1 == s.len(),
        lex_step(s, lex_step(s, pos).1) == (Ok::<Token, LexError>(Token::EOF), s.len() as int),
{
    lemma_skip_ws_props(s, pos);
}

/// A request that lands on a digit consumes the maximal digit run as
/// exactly one `INTEGER` token whose value is the base-10
/// interpretation of the run, leading zeros carrying no weight; the
/// cursor ends on the first character past the run, which is not a
/// digit. A run whose value exceeds `i32::MAX` fails with
/// `NumericOverflow` and still consumes the whole run.
pub proof fn lemma_digit_run_token(s: Seq<char>, pos: int)
    requires
        0 <= pos <= s.len(),
        skip_ws(s, pos) < s.len(),
        is_digit_char(s[skip_ws(s, pos)]),
    ensures
        ({
            let p = skip_ws(s, pos);
            let e = digit_run_end(s, p);
            let v = digits_value(s, p, e);
            &&& lex_step(s, pos).1 == e
            &&& p < e <= s.len()
            &&& forall|k: int| p <= k < e ==> is_digit_char(s[k])
            &&& e == s.len() || !is_digit_char(s[e])
            &&& v <= i32::MAX as int ==> lex_step(s, pos).0 == Ok::<Token, LexError>(
                Token::INTEGER(v as i32),
            )
            &&& v > i32::MAX as int ==> lex_step(s, pos).0 == Err::<Token, LexError>(
                LexError::NumericOverflow,
            )
        }),
{
    lemma_skip_ws_props(s, pos);
    lemma_digit_run_end_props(s, skip_ws(s, pos));
}

/// A text holding a single recognized symbol yields exactly that
/// symbol's zero-payload token, and then `EOF` on the next request.
pub proof fn lemma_symbol_then_eof(s: Seq<char>)
    requires
        s.len() == 1,
        token_for_symbol(s[0]) is Some,
    ensures
        lex_step(s, 0) == (Ok::<Token, LexError>(token_for_symbol(s[0])->0), 1int),
        lex_step(s, 1).0 == Ok::<Token, LexError>(Token::EOF),
{
    assert(!is_space_char(s[0]) && !is_digit_char(s[0]));
}

/// A request that lands on a character that is not whitespace, not a
/// digit and not a recognized symbol fails with `InvalidCharacter`
/// rather than returning a token, and leaves the cursor on the
/// offending character.
pub proof fn lemma_invalid_character(s: Seq<char>, pos: int)
    requires
        0 <= pos <= s.len(),
        skip_ws(s, pos) < s.len(),
        !is_digit_char(s[skip_ws(s, pos)]),
        token_for_symbol(s[skip_ws(s, pos)]) is None,
    ensures
        lex_step(s, pos) == (Err::<Token, LexError>(LexError::InvalidCharacter), skip_ws(s, pos)),
{
}

} // verus!
