//! Lexical analysis: a single left-to-right scan of the source text with an
//! explicit position cursor.
//!
//! `spec_lex` is the mathematical tokeniser over a character sequence;
//! `Lexer::tokenise` is proved to return exactly its result.  Whitespace is
//! skipped, digit runs become integer literals (value zero when the run
//! overflows a 64-bit integer), alphanumeric runs become keywords or
//! identifiers, a sigil-prefixed run becomes a function-call token, and a
//! quote opens a string literal that runs to the next quote, or to the end
//! of the input when unterminated.

use vstd::prelude::*;
use vstd::string::*;
use crate::tokens::{Token, TokenView, tokens_view};

verus! {

/// The sigil character that reclassifies a name as a call reference.
pub const CALL_SIGIL: char = '@';

/// A fatal lexical error.
#[derive(Debug, Clone, Copy, PartialEq, Eq, Structural)]
pub enum LexError {
    /// A character that starts no token.
    UnexpectedCharacter { position: usize, character: char },
    /// An exclamation mark not followed by an equals sign.
    MalformedOperator { position: usize, character: char },
}

/// Whitespace: space, tab, line feed or carriage return.
pub open spec fn is_space_char(c: char) -> bool {
    c == ' ' || c == '\t' || c == '\n' || c == '\r'
}

/// An ASCII decimal digit.
pub open spec fn is_digit_char(c: char) -> bool {
    48 <= c as u32 <= 57
}

/// An ASCII letter.
pub open spec fn is_alpha_char(c: char) -> bool {
    (65 <= c as u32 <= 90) || (97 <= c as u32 <= 122)
}

/// A character that may continue an identifier run.
pub open spec fn is_ident_char(c: char) -> bool {
    is_alpha_char(c) || is_digit_char(c) || c == '_'
}

/// The numeric value of a digit character, zero for any other character.
pub open spec fn digit_val(c: char) -> nat {
    if is_digit_char(c) {
        (c as u32 - 48) as nat
    } else {
        0
    }
}

/// The first position at or after `i` that does not continue an identifier
/// run, or the end of the input.
pub open spec fn ident_end(s: Seq<char>, i: int) -> int
    decreases s.len() - i,
{
    if !(0 <= i < s.len()) {
        i
    } else if is_ident_char(s[i]) {
        ident_end(s, i + 1)
    } else {
        i
    }
}

/// The first position at or after `i` that is not a digit, or the end of
/// the input.
pub open spec fn digits_end(s: Seq<char>, i: int) -> int
    decreases s.len() - i,
{
    if !(0 <= i < s.len()) {
        i
    } else if is_digit_char(s[i]) {
        digits_end(s, i + 1)
    } else {
        i
    }
}

/// The position of the first quote at or after `i`, or the end of the
/// input when no quote follows.
pub open spec fn str_close(s: Seq<char>, i: int) -> int
    decreases s.len() - i,
{
    if !(0 <= i < s.len()) {
        s.len() as int
    } else if s[i] == '"' {
        i
    } else {
        str_close(s, i + 1)
    }
}

/// The value of the digit run `s[i..j)` read in base ten.
pub open spec fn digits_val(s: Seq<char>, i: int, j: int) -> nat
    decreases j - i,
{
    if j <= i {
        0
    } else {
        digits_val(s, i, j - 1) * 10 + digit_val(s[j - 1])
    }
}

/// The token a digit run denotes: its value, or zero when the value does
/// not fit a 64-bit signed integer.
pub open spec fn number_token(s: Seq<char>, i: int, j: int) -> TokenView {
    if digits_val(s, i, j) > i64::MAX {
        TokenView::Number(0)
    } else {
        TokenView::Number(digits_val(s, i, j) as i64)
    }
}

/// The token an alphanumeric run denotes: a keyword of the fixed table, or
/// a plain identifier.
pub open spec fn keyword_token(name: Seq<char>) -> TokenView {
    if name == seq!['r', 'u', 'n'] {
        TokenView::Function
    } else if name == seq!['e', 'n', 'd'] {
        TokenView::End
    } else if name == seq!['w', 'h', 'i', 'l', 'e'] {
        TokenView::While
    } else if name == seq!['d', 'o'] {
        TokenView::Do
    } else if name == seq!['p', 'r', 'i', 'n', 't'] {
        TokenView::Print
    } else if name == seq!['s', 'e', 'n', 'd'] {
        TokenView::Send
    } else if name == seq!['i', 'f'] {
        TokenView::If
    } else if name == seq!['t', 'h', 'e', 'n'] {
        TokenView::Then
    } else if name == seq!['e', 'l', 's', 'e'] {
        TokenView::Else
    } else {
        TokenView::Identifier(name)
    }
}

/// Prepends one token to the result of lexing the rest of the input.
pub open spec fn cons_token(
    t: TokenView,
    rest: Result<Seq<TokenView>, LexError>,
) -> Result<Seq<TokenView>, LexError> {
    match rest {
        Ok(r) => Ok(seq![t] + r),
        Err(e) => Err(e),
    }
}

/// A scan stays at or after its start and within the input.
pub proof fn lemma_ident_end_bounds(s: Seq<char>, i: int)
    requires
        0 <= i <= s.len(),
    ensures
        i <= ident_end(s, i) <= s.len(),
    decreases s.len() - i,
{
    if i < s.len() && is_ident_char(s[i]) {
        lemma_ident_end_bounds(s, i + 1);
    }
}

/// A digit scan stays at or after its start and within the input.
pub proof fn lemma_digits_end_bounds(s: Seq<char>, i: int)
    requires
        0 <= i <= s.len(),
    ensures
        i <= digits_end(s, i) <= s.len(),
    decreases s.len() - i,
{
    if i < s.len() && is_digit_char(s[i]) {
        lemma_digits_end_bounds(s, i + 1);
    }
}

/// A quote scan stays at or after its start and within the input.
pub proof fn lemma_str_close_bounds(s: Seq<char>, i: int)
    requires
        0 <= i <= s.len(),
    ensures
        i <= str_close(s, i) <= s.len(),
    decreases s.len() - i,
{
    if i < s.len() && s[i] != '"' {
        lemma_str_close_bounds(s, i + 1);
    }
}

/// The tokens of `s` from position `i` on, or the first lexical error.
pub open spec fn spec_lex(s: Seq<char>, i: int) -> Result<Seq<TokenView>, LexError>
    decreases s.len() - i + 1,
{
    if !(0 <= i < s.len()) {
        Ok(Seq::empty())
    } else {
        let c = s[i];
        if is_space_char(c) {
            spec_lex(s, i + 1)
        } else if is_digit_char(c) {
            proof {
                lemma_digits_end_bounds(s, i + 1);
            }
            let j = digits_end(s, i);
            cons_token(number_token(s, i, j), spec_lex(s, j))
        } else if is_alpha_char(c) {
            proof {
                lemma_ident_end_bounds(s, i + 1);
            }
            let j = ident_end(s, i);
            cons_token(keyword_token(s.subrange(i, j)), spec_lex(s, j))
        } else if c == CALL_SIGIL {
            proof {
                if i + 1 <= s.len() {
                    lemma_ident_end_bounds(s, i + 1);
                }
            }
            let j = ident_end(s, i + 1);
            cons_token(TokenView::FunctionCall(s.subrange(i + 1, j)), spec_lex(s, j))
        } else if c == '"' {
            proof {
                if i + 1 <= s.len() {
                    lemma_str_close_bounds(s, i + 1);
                }
            }
            let j = str_close(s, i + 1);
            cons_token(TokenView::StrLit(s.subrange(i + 1, j)), spec_lex(s, j + 1))
        } else if c == '+' {
            cons_token(TokenView::Plus, spec_lex(s, i + 1))
        } else if c == '-' {
            cons_token(TokenView::Minus, spec_lex(s, i + 1))
        } else if c == '*' {
            cons_token(TokenView::Multiply, spec_lex(s, i + 1))
        } else if c == '/' {
            cons_token(TokenView::Divide, spec_lex(s, i + 1))
        } else if c == '(' {
            cons_token(TokenView::LParen, spec_lex(s, i + 1))
        } else if c == ')' {
            cons_token(TokenView::RParen, spec_lex(s, i + 1))
        } else if c == ',' {
            cons_token(TokenView::Comma, spec_lex(s, i + 1))
        } else if c == ';' {
            cons_token(TokenView::Semicolon, spec_lex(s, i + 1))
        } else if c == '>' {
            cons_token(TokenView::Greater, spec_lex(s, i + 1))
        } else if c == '=' {
            if i + 1 < s.len() && s[i + 1] == '=' {
                cons_token(TokenView::Eq, spec_lex(s, i + 2))
            } else {
                cons_token(TokenView::Assign, spec_lex(s, i + 1))
            }
        } else if c == '<' {
            if i + 1 < s.len() && s[i + 1] == '=' {
                cons_token(TokenView::LessEq, spec_lex(s, i + 2))
            } else {
                cons_token(TokenView::Less, spec_lex(s, i + 1))
            }
        } else if c == '!' {
            if i + 1 < s.len() && s[i + 1] == '=' {
                cons_token(TokenView::NotEq, spec_lex(s, i + 2))
            } else {
                Err(LexError::MalformedOperator { position: i as usize, character: c })
            }
        } else {
            Err(LexError::UnexpectedCharacter { position: i as usize, character: c })
        }
    }
}

/// Prepends an already-lexed token sequence to the outcome of lexing the
/// rest of the input.
pub open spec fn cons_tokens(
    acc: Seq<TokenView>,
    rest: Result<Seq<TokenView>, LexError>,
) -> Result<Seq<TokenView>, LexError> {
    match rest {
        Ok(r) => Ok(acc + r),
        Err(e) => Err(e),
    }
}

/// Pushing a token onto an accumulator commutes with prepending.
proof fn lemma_cons_shift(acc: Seq<TokenView>, t: TokenView, rest: Result<Seq<TokenView>, LexError>)
    ensures
        cons_tokens(acc, cons_token(t, rest)) == cons_tokens(acc.push(t), rest),
{
    match rest {
        Ok(r) => {
            assert(acc + (seq![t] + r) =~= acc.push(t) + r);
        },
        Err(_) => {},
    }
}

/// The view of a pushed token vector is the pushed view sequence.
proof fn lemma_tokens_view_push(ts: Seq<Token>, t: Token)
    ensures
        tokens_view(ts.push(t)) == tokens_view(ts).push(t@),
{
    assert(tokens_view(ts.push(t)) =~= tokens_view(ts).push(t@));
}

/// Whether `c` is whitespace; mirrors `is_space_char`.
fn ch_is_space(c: char) -> (b: bool)
    ensures
        b == is_space_char(c),
{
    c == ' ' || c == '\t' || c == '\n' || c == '\r'
}

/// Whether `c` is an ASCII digit; mirrors `is_digit_char`.
fn ch_is_digit(c: char) -> (b: bool)
    ensures
        b == is_digit_char(c),
{
    let u = c as u32;
    48 <= u && u <= 57
}

/// Whether `c` is an ASCII letter; mirrors `is_alpha_char`.
fn ch_is_alpha(c: char) -> (b: bool)
    ensures
        b == is_alpha_char(c),
{
    let u = c as u32;
    (65 <= u && u <= 90) || (97 <= u && u <= 122)
}

/// Whether `c` may continue an identifier run; mirrors `is_ident_char`.
fn ch_is_ident(c: char) -> (b: bool)
    ensures
        b == is_ident_char(c),
{
    ch_is_alpha(c) || ch_is_digit(c) || c == '_'
}

/// Classifies a scanned name against the fixed keyword table.
fn keyword_or_identifier(name: String) -> (t: Token)
    ensures
        t@ == keyword_token(name@),
{
    let n = name.as_str().unicode_len();
    if n == 2 {
        let c0 = name.as_str().get_char(0);
        let c1 = name.as_str().get_char(1);
        if c0 == 'd' && c1 == 'o' {
            proof {
                assert(name@ =~= seq!['d', 'o']);
            }
            Token::Do
        } else if c0 == 'i' && c1 == 'f' {
            proof {
                assert(name@ =~= seq!['i', 'f']);
            }
            Token::If
        } else {
            Token::Identifier(name)
        }
    } else if n == 3 {
        let c0 = name.as_str().get_char(0);
        let c1 = name.as_str().get_char(1);
        let c2 = name.as_str().get_char(2);
        if c0 == 'r' && c1 == 'u' && c2 == 'n' {
            proof {
                assert(name@ =~= seq!['r', 'u', 'n']);
            }
            Token::Function
        } else if c0 == 'e' && c1 == 'n' && c2 == 'd' {
            proof {
                assert(name@ =~= seq!['e', 'n', 'd']);
            }
            Token::End
        } else {
            Token::Identifier(name)
        }
    } else if n == 4 {
        let c0 = name.as_str().get_char(0);
        let c1 = name.as_str().get_char(1);
        let c2 = name.as_str().get_char(2);
        let c3 = name.as_str().get_char(3);
        if c0 == 's' && c1 == 'e' && c2 == 'n' && c3 == 'd' {
            proof {
                assert(name@ =~= seq!['s', 'e', 'n', 'd']);
            }
            Token::Send
        } else if c0 == 't' && c1 == 'h' && c2 == 'e' && c3 == 'n' {
            proof {
                assert(name@ =~= seq!['t', 'h', 'e', 'n']);
            }
            Token::Then
        } else if c0 == 'e' && c1 == 'l' && c2 == 's' && c3 == 'e' {
            proof {
                assert(name@ =~= seq!['e', 'l', 's', 'e']);
            }
            Token::Else
        } else {
            Token::Identifier(name)
        }
    } else if n == 5 {
        let c0 = name.as_str().get_char(0);
        let c1 = name.as_str().get_char(1);
        let c2 = name.as_str().get_char(2);
        let c3 = name.as_str().get_char(3);
        let c4 = name.as_str().get_char(4);
        if c0 == 'w' && c1 == 'h' && c2 == 'i' && c3 == 'l' && c4 == 'e' {
            proof {
                assert(name@ =~= seq!['w', 'h', 'i', 'l', 'e']);
            }
            Token::While
        } else if c0 == 'p' && c1 == 'r' && c2 == 'i' && c3 == 'n' && c4 == 't' {
            proof {
                assert(name@ =~= seq!['p', 'r', 'i', 'n', 't']);
            }
            Token::Print
        } else {
            Token::Identifier(name)
        }
    } else {
        Token::Identifier(name)
    }
}

/// The lexer: raw source text and a cursor position, counted in characters.
pub struct Lexer {
    pub input: String,
    pub position: usize,
}

impl Lexer {
    /// A lexer over `input`, positioned at its start.
    pub fn new(input: String) -> (l: Lexer)
        ensures
            l.input == input,
            l.position == 0,
    {
        Lexer { input, position: 0 }
    }

    /// The character under the cursor, if any.
    pub fn peek(&self) -> (c: Option<char>)
        ensures
            match c {
                Some(ch) => self.position < self.input@.len() && ch == self.input@[
                    self.position as int
                ],
                None => self.position >= self.input@.len(),
            },
    {
        let n = self.input.as_str().unicode_len();
        if self.position < n {
            Some(self.input.as_str().get_char(self.position))
        } else {
            None
        }
    }

    /// Moves the cursor one character forward, staying within the input.
    pub fn advance(&mut self)
        ensures
            final(self).input == old(self).input,
            old(self).position < old(self).input@.len() ==> final(self).position == old(
                self,
            ).position + 1,
            old(self).position >= old(self).input@.len() ==> final(self).position == old(
                self,
            ).position,
    {
        let n = self.input.as_str().unicode_len();
        if self.position < n {
            self.position = self.position + 1;
        }
    }

    /// Skips a whitespace run; lexing from the new position gives the same
    /// outcome as from the old.
    fn skip_whitespace(&mut self)
        requires
            old(self).position <= old(self).input@.len(),
        ensures
            final(self).input == old(self).input,
            old(self).position <= final(self).position <= old(self).input@.len(),
            spec_lex(old(self).input@, final(self).position as int) == spec_lex(
                old(self).input@,
                old(self).position as int,
            ),
            final(self).position < old(self).input@.len() ==> !is_space_char(
                old(self).input@[final(self).position as int],
            ),
            old(self).position < old(self).input@.len() && is_space_char(
                old(self).input@[old(self).position as int],
            ) ==> old(self).position < final(self).position,
    {
        let ghost s = self.input@;
        let n = self.input.as_str().unicode_len();
        while self.position < n && ch_is_space(self.input.as_str().get_char(self.position))
            invariant
                self.input@ == s,
                self.input == old(self).input,
                n == s.len(),
                old(self).position <= self.position <= n,
                spec_lex(s, self.position as int) == spec_lex(s, old(self).position as int),
            decreases n - self.position,
        {
            self.position = self.position + 1;
        }
    }

    /// Scans to the end of the identifier run under the cursor.
    fn scan_ident(&mut self)
        requires
            old(self).position <= old(self).input@.len(),
        ensures
            final(self).input == old(self).input,
            old(self).position <= final(self).position <= old(self).input@.len(),
            final(self).position == ident_end(old(self).input@, old(self).position as int),
    {
        let ghost s = self.input@;
        let n = self.input.as_str().unicode_len();
        while self.position < n && ch_is_ident(self.input.as_str().get_char(self.position))
            invariant
                self.input@ == s,
                self.input == old(self).input,
                n == s.len(),
                old(self).position <= self.position <= n,
                ident_end(s, old(self).position as int) == ident_end(s, self.position as int),
            decreases n - self.position,
        {
            self.position = self.position + 1;
        }
    }

    /// Reads the digit run under the cursor as an integer; a run whose
    /// value overflows reads as zero.
    fn lex_number(&mut self) -> (v: i64)
        requires
            old(self).position < old(self).input@.len(),
            is_digit_char(old(self).input@[old(self).position as int]),
        ensures
            final(self).input == old(self).input,
            old(self).position < final(self).position <= old(self).input@.len(),
            final(self).position == digits_end(old(self).input@, old(self).position as int),
            TokenView::Number(v) == number_token(
                old(self).input@,
                old(self).position as int,
                final(self).position as int,
            ),
    {
        let ghost s = self.input@;
        let ghost start_g = self.position as int;
        let start = self.position;
        let n = self.input.as_str().unicode_len();
        let mut val: i64 = 0;
        let mut overflow: bool = false;
        while self.position < n && ch_is_digit(self.input.as_str().get_char(self.position))
            invariant
                self.input@ == s,
                self.input == old(self).input,
                n == s.len(),
                start_g == start as int,
                start <= self.position <= n,
                digits_end(s, start_g) == digits_end(s, self.position as int),
                !overflow ==> 0 <= val && val as nat == digits_val(s, start_g, self.position as int),
                overflow ==> digits_val(s, start_g, self.position as int) > i64::MAX,
            decreases n - self.position,
        {
            let c = self.input.as_str().get_char(self.position);
            let d: i64 = ((c as u32) - 48) as i64;
            let ghost before = digits_val(s, start_g, self.position as int);
            assert(digits_val(s, start_g, self.position as int + 1) == before * 10 + digit_val(
                s[self.position as int],
            ));
            if overflow {
                proof {
                    assert(before * 10 >= before) by (nonlinear_arith)
                        requires
                            before >= 0,
                    ;
                }
            } else if val < 922_337_203_685_477_580i64 {
                val = val * 10 + d;
            } else if val == 922_337_203_685_477_580i64 && d <= 7 {
                val = val * 10 + d;
            } else {
                overflow = true;
            }
            self.position = self.position + 1;
        }
        proof {
            lemma_digits_end_bounds(s, start_g + 1);
        }
        if overflow {
            0
        } else {
            val
        }
    }

    /// Reads the keyword or identifier under the cursor.
    fn lex_identifier(&mut self) -> (t: Token)
        requires
            old(self).position < old(self).input@.len(),
            is_alpha_char(old(self).input@[old(self).position as int]),
        ensures
            final(self).input == old(self).input,
            old(self).position < final(self).position <= old(self).input@.len(),
            final(self).position == ident_end(old(self).input@, old(self).position as int),
            t@ == keyword_token(
                old(self).input@.subrange(old(self).position as int, final(self).position as int),
            ),
    {
        let ghost s = self.input@;
        let start = self.position;
        self.scan_ident();
        proof {
            lemma_ident_end_bounds(s, start as int + 1);
        }
        let name_s = self.input.as_str().substring_char(start, self.position);
        let name = String::from_str(name_s);
        keyword_or_identifier(name)
    }

    /// Converts the input, from the cursor position on, into its token
    /// sequence, or reports the first lexical error.  The outcome is
    /// exactly that of `spec_lex` on the input text.
    pub fn tokenise(&mut self) -> (r: Result<Vec<Token>, LexError>)
        ensures
            final(self).input == old(self).input,
            match (r, spec_lex(old(self).input@, old(self).position as int)) {
                (Ok(ts), Ok(tvs)) => tokens_view(ts@) == tvs,
                (Err(e), Err(se)) => e == se,
                _ => false,
            },
    {
        let ghost s = self.input@;
        let ghost p0 = self.position as int;
        let n = self.input.as_str().unicode_len();
        let mut tokens: Vec<Token> = Vec::new();
        if self.position >= n {
            proof {
                assert(tokens_view(tokens@) =~= Seq::<TokenView>::empty());
            }
            return Ok(tokens);
        }
        proof {
            if let Ok(r0) = spec_lex(s, p0) {
                assert(Seq::<TokenView>::empty() + r0 =~= r0);
            }
            assert(tokens_view(tokens@) =~= Seq::<TokenView>::empty());
        }
        while self.position < n
            invariant
                self.input@ == s,
                self.input == old(self).input,
                old(self).input@ == s,
                old(self).position as int == p0,
                n == s.len(),
                self.position <= n,
                spec_lex(s, p0) == cons_tokens(
                    tokens_view(tokens@),
                    spec_lex(s, self.position as int),
                ),
            decreases n - self.position,
        {
            let ghost pos = self.position as int;
            let ghost acc = tokens_view(tokens@);
            let c = self.input.as_str().get_char(self.position);
            if ch_is_space(c) {
                self.skip_whitespace();
            } else if ch_is_digit(c) {
                let ghost j = digits_end(s, pos);
                let v = self.lex_number();
                let t = Token::Number(v);
                proof {
                    lemma_tokens_view_push(tokens@, t);
                    lemma_cons_shift(acc, t@, spec_lex(s, j));
                }
                tokens.push(t);
            } else if ch_is_alpha(c) {
                let ghost j = ident_end(s, pos);
                let t = self.lex_identifier();
                proof {
                    lemma_tokens_view_push(tokens@, t);
                    lemma_cons_shift(acc, t@, spec_lex(s, j));
                }
                tokens.push(t);
            } else if c == CALL_SIGIL {
                self.position = self.position + 1;
                let start = self.position;
                let ghost j = ident_end(s, pos + 1);
                self.scan_ident();
                let name_s = self.input.as_str().substring_char(start, self.position);
                let name = String::from_str(name_s);
                let t = Token::FunctionCall(name);
                proof {
                    lemma_tokens_view_push(tokens@, t);
                    lemma_cons_shift(acc, t@, spec_lex(s, j));
                }
                tokens.push(t);
            } else if c == '"' {
                self.position = self.position + 1;
                let start = self.position;
                let ghost j = str_close(s, pos + 1);
                while self.position < n && !(self.input.as_str().get_char(self.position) == '"')
                    invariant
                        self.input@ == s,
                        self.input == old(self).input,
                        n == s.len(),
                        start <= self.position <= n,
                        str_close(s, start as int) == str_close(s, self.position as int),
                    decreases n - self.position,
                {
                    self.position = self.position + 1;
                }
                let text_s = self.input.as_str().substring_char(start, self.position);
                let text = String::from_str(text_s);
                let t = Token::StrLit(text);
                proof {
                    lemma_tokens_view_push(tokens@, t);
                    lemma_cons_shift(acc, t@, spec_lex(s, j + 1));
                }
                tokens.push(t);
                if self.position < n {
                    self.position = self.position + 1;
                } else {
                    proof {
                        assert(spec_lex(s, j + 1) == spec_lex(s, self.position as int));
                    }
                }
            } else if c == '+' {
                let t = Token::Plus;
                proof {
                    lemma_tokens_view_push(tokens@, t);
                    lemma_cons_shift(acc, t@, spec_lex(s, pos + 1));
                }
                tokens.push(t);
                self.position = self.position + 1;
            } else if c == '-' {
                let t = Token::Minus;
                proof {
                    lemma_tokens_view_push(tokens@, t);
                    lemma_cons_shift(acc, t@, spec_lex(s, pos + 1));
                }
                tokens.push(t);
                self.position = self.position + 1;
            } else if c == '*' {
                let t = Token::Multiply;
                proof {
                    lemma_tokens_view_push(tokens@, t);
                    lemma_cons_shift(acc, t@, spec_lex(s, pos + 1));
                }
                tokens.push(t);
                self.position = self.position + 1;
            } else if c == '/' {
                let t = Token::Divide;
                proof {
                    lemma_tokens_view_push(tokens@, t);
                    lemma_cons_shift(acc, t@, spec_lex(s, pos + 1));
                }
                tokens.push(t);
                self.position = self.position + 1;
            } else if c == '(' {
                let t = Token::LParen;
                proof {
                    lemma_tokens_view_push(tokens@, t);
                    lemma_cons_shift(acc, t@, spec_lex(s, pos + 1));
                }
                tokens.push(t);
                self.position = self.position + 1;
            } else if c == ')' {
                let t = Token::RParen;
                proof {
                    lemma_tokens_view_push(tokens@, t);
                    lemma_cons_shift(acc, t@, spec_lex(s, pos + 1));
                }
                tokens.push(t);
                self.position = self.position + 1;
            } else if c == ',' {
                let t = Token::Comma;
                proof {
                    lemma_tokens_view_push(tokens@, t);
                    lemma_cons_shift(acc, t@, spec_lex(s, pos + 1));
                }
                tokens.push(t);
                self.position = self.position + 1;
            } else if c == ';' {
                let t = Token::Semicolon;
                proof {
                    lemma_tokens_view_push(tokens@, t);
                    lemma_cons_shift(acc, t@, spec_lex(s, pos + 1));
                }
                tokens.push(t);
                self.position = self.position + 1;
            } else if c == '>' {
                let t = Token::Greater;
                proof {
                    lemma_tokens_view_push(tokens@, t);
                    lemma_cons_shift(acc, t@, spec_lex(s, pos + 1));
                }
                tokens.push(t);
                self.position = self.position + 1;
            } else if c == '=' {
                let mut double: bool = false;
                if self.position + 1 < n {
                    let c2 = self.input.as_str().get_char(self.position + 1);
                    if c2 == '=' {
                        double = true;
                    }
                }
                if double {
                    let t = Token::Eq;
                    proof {
                        lemma_tokens_view_push(tokens@, t);
                        lemma_cons_shift(acc, t@, spec_lex(s, pos + 2));
                    }
                    tokens.push(t);
                    self.position = self.position + 2;
                } else {
                    let t = Token::Assign;
                    proof {
                        lemma_tokens_view_push(tokens@, t);
                        lemma_cons_shift(acc, t@, spec_lex(s, pos + 1));
                    }
                    tokens.push(t);
                    self.position = self.position + 1;
                }
            } else if c == '<' {
                let mut double: bool = false;
                if self.position + 1 < n {
                    let c2 = self.input.as_str().get_char(self.position + 1);
                    if c2 == '=' {
                        double = true;
                    }
                }
                if double {
                    let t = Token::LessEq;
                    proof {
                        lemma_tokens_view_push(tokens@, t);
                        lemma_cons_shift(acc, t@, spec_lex(s, pos + 2));
                    }
                    tokens.push(t);
                    self.position = self.position + 2;
                } else {
                    let t = Token::Less;
                    proof {
                        lemma_tokens_view_push(tokens@, t);
                        lemma_cons_shift(acc, t@, spec_lex(s, pos + 1));
                    }
                    tokens.push(t);
                    self.position = self.position + 1;
                }
            } else if c == '!' {
                if self.position + 1 < n {
                    let c2 = self.input.as_str().get_char(self.position + 1);
                    if c2 == '=' {
                        let t = Token::NotEq;
                        proof {
                            lemma_tokens_view_push(tokens@, t);
                            lemma_cons_shift(acc, t@, spec_lex(s, pos + 2));
                        }
                        tokens.push(t);
                        self.position = self.position + 2;
                    } else {
                        return Err(
                            LexError::MalformedOperator { position: self.position, character: c },
                        );
                    }
                } else {
                    return Err(
                        LexError::MalformedOperator { position: self.position, character: c },
                    );
                }
            } else {
                return Err(
                    LexError::UnexpectedCharacter { position: self.position, character: c },
                );
            }
        }
        proof {
            if let Ok(rest) = spec_lex(s, self.position as int) {
                assert(tokens_view(tokens@) + rest =~= tokens_view(tokens@));
            }
        }
        Ok(tokens)
    }
}

} // verus!
