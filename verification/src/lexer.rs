//! The tokenizer: turns the bytes of a source text into tokens, one at a time.
//!
//! Every byte is read as the character with the same code. The tokens that a
//! text holds from a given offset on are given by [`scan`] and
//! [`tokens_from`]; [`Lexer::next_token`] is proved to produce exactly them.

use crate::text::is_digit_char;
use crate::token::{lookup_ident, word_token, Token, TokenView};
use vstd::prelude::*;

verus! {

/// The character at offset `pos` of `input`: the byte there, read as a
/// character, or NUL past the end.
pub open spec fn char_at(input: Seq<u8>, pos: int) -> char {
    if 0 <= pos < input.len() {
        input[pos] as char
    } else {
        '\0'
    }
}

/// White space: tab, line feed, vertical tab, form feed, carriage return,
/// space, next line and no-break space.
pub open spec fn space_char(c: char) -> bool {
    let u = c as u32;
    (9 <= u <= 13) || u == 32 || u == 0x85 || u == 0xA0
}

/// A letter with a code below 256.
pub open spec fn letter_char(c: char) -> bool {
    let u = c as u32;
    (65 <= u <= 90) || (97 <= u <= 122) || u == 0xAA || u == 0xB5 || u == 0xBA || (0xC0 <= u
        <= 0xD6) || (0xD8 <= u <= 0xF6) || (0xF8 <= u <= 0xFF)
}

/// A numeric character with a code below 256: a digit, a superscript digit or
/// a vulgar fraction.
pub open spec fn number_char(c: char) -> bool {
    let u = c as u32;
    (48 <= u <= 57) || u == 0xB2 || u == 0xB3 || u == 0xB9 || (0xBC <= u <= 0xBE)
}

/// A character that may start a name: a letter or an underscore.
pub open spec fn word_start(c: char) -> bool {
    letter_char(c) || c == '_'
}

/// A character that may continue a name: a letter, a numeric character or an
/// underscore.
pub open spec fn word_char(c: char) -> bool {
    letter_char(c) || number_char(c) || c == '_'
}

/// The first offset from `pos` on that holds no white space.
pub open spec fn skip_spaces(input: Seq<u8>, pos: int) -> int
    decreases input.len() - pos,
{
    if 0 <= pos < input.len() && space_char(char_at(input, pos)) {
        skip_spaces(input, pos + 1)
    } else {
        pos
    }
}

/// The first offset from `pos` on that holds no character of a name.
pub open spec fn word_end(input: Seq<u8>, pos: int) -> int
    decreases input.len() - pos,
{
    if 0 <= pos < input.len() && word_char(char_at(input, pos)) {
        word_end(input, pos + 1)
    } else {
        pos
    }
}

/// The first offset from `pos` on that holds no ASCII digit.
pub open spec fn digits_end(input: Seq<u8>, pos: int) -> int
    decreases input.len() - pos,
{
    if 0 <= pos < input.len() && is_digit_char(char_at(input, pos)) {
        digits_end(input, pos + 1)
    } else {
        pos
    }
}

/// The first offset from `pos` on that holds a double quote or a NUL, or the
/// end of the input.
pub open spec fn string_end(input: Seq<u8>, pos: int) -> int
    decreases input.len() - pos,
{
    if 0 <= pos < input.len() && char_at(input, pos) != '"' && char_at(input, pos) != '\0' {
        string_end(input, pos + 1)
    } else {
        pos
    }
}

/// The characters of `input` from offset `from` up to, not including, `to`.
pub open spec fn chars_between(input: Seq<u8>, from: int, to: int) -> Seq<char> {
    Seq::new((to - from) as nat, |i: int| char_at(input, from + i))
}

/// The offset after `pos`, but never past the end of the input.
pub open spec fn step(input: Seq<u8>, pos: int) -> int {
    if pos < input.len() {
        pos + 1
    } else {
        pos
    }
}

/// A token and the offset at which the text after it starts.
pub struct Scan {
    pub token: TokenView,
    pub next: int,
}

/// The token that starts at `pos`, where no white space stands.
pub open spec fn scan_token(input: Seq<u8>, pos: int) -> Scan {
    let c = char_at(input, pos);
    let follows = char_at(input, pos + 1);
    if c == '\0' {
        Scan { token: TokenView::EOF, next: step(input, pos) }
    } else if c == ',' {
        Scan { token: TokenView::COMMA, next: pos + 1 }
    } else if c == ';' {
        Scan { token: TokenView::SEMICOLON, next: pos + 1 }
    } else if c == '(' {
        Scan { token: TokenView::LPAREN, next: pos + 1 }
    } else if c == ')' {
        Scan { token: TokenView::RPAREN, next: pos + 1 }
    } else if c == '{' {
        Scan { token: TokenView::LSQUIRLY, next: pos + 1 }
    } else if c == '}' {
        Scan { token: TokenView::RSQUIRLY, next: pos + 1 }
    } else if c == '+' {
        Scan { token: TokenView::PLUS, next: pos + 1 }
    } else if c == '-' {
        Scan { token: TokenView::MINUS, next: pos + 1 }
    } else if c == '/' {
        Scan { token: TokenView::SLASH, next: pos + 1 }
    } else if c == '<' {
        Scan { token: TokenView::LT, next: pos + 1 }
    } else if c == '>' {
        Scan { token: TokenView::GT, next: pos + 1 }
    } else if c == '*' {
        if follows == '*' {
            Scan { token: TokenView::POWER, next: pos + 2 }
        } else {
            Scan { token: TokenView::ASTERISK, next: pos + 1 }
        }
    } else if c == '=' {
        if follows == '=' {
            Scan { token: TokenView::EQ, next: pos + 2 }
        } else {
            Scan { token: TokenView::ASSIGN, next: pos + 1 }
        }
    } else if c == '!' {
        if follows == '=' {
            Scan { token: TokenView::NEQ, next: pos + 2 }
        } else {
            Scan { token: TokenView::BANG, next: pos + 1 }
        }
    } else if c == '"' {
        let end = string_end(input, pos + 1);
        Scan {
            token: TokenView::STRING(chars_between(input, pos + 1, end)),
            next: step(input, end),
        }
    } else if word_start(c) {
        let end = word_end(input, pos);
        Scan { token: word_token(chars_between(input, pos, end)), next: end }
    } else if is_digit_char(c) {
        let end = digits_end(input, pos);
        Scan { token: TokenView::INT(chars_between(input, pos, end)), next: end }
    } else {
        Scan { token: TokenView::ILLEGAL, next: pos + 1 }
    }
}

/// The next token from `pos` on, after the white space there.
pub open spec fn scan(input: Seq<u8>, pos: int) -> Scan {
    scan_token(input, skip_spaces(input, pos))
}

/// Skipping white space moves forward and stays within the input.
pub proof fn lemma_skip_spaces_bounds(input: Seq<u8>, pos: int)
    requires
        0 <= pos <= input.len(),
    ensures
        pos <= skip_spaces(input, pos) <= input.len(),
        !space_char(char_at(input, skip_spaces(input, pos))),
    decreases input.len() - pos,
{
    if pos < input.len() && space_char(char_at(input, pos)) {
        lemma_skip_spaces_bounds(input, pos + 1);
    }
}

/// A name ends within the input, at or after where it starts.
pub proof fn lemma_word_end_bounds(input: Seq<u8>, pos: int)
    requires
        0 <= pos <= input.len(),
    ensures
        pos <= word_end(input, pos) <= input.len(),
        pos < input.len() && word_char(char_at(input, pos)) ==> pos < word_end(input, pos),
    decreases input.len() - pos,
{
    if pos < input.len() && word_char(char_at(input, pos)) {
        lemma_word_end_bounds(input, pos + 1);
    }
}

/// A run of digits ends within the input, at or after where it starts.
pub proof fn lemma_digits_end_bounds(input: Seq<u8>, pos: int)
    requires
        0 <= pos <= input.len(),
    ensures
        pos <= digits_end(input, pos) <= input.len(),
        pos < input.len() && is_digit_char(char_at(input, pos)) ==> pos < digits_end(input, pos),
    decreases input.len() - pos,
{
    if pos < input.len() && is_digit_char(char_at(input, pos)) {
        lemma_digits_end_bounds(input, pos + 1);
    }
}

/// A string literal ends within the input, at or after where it starts.
pub proof fn lemma_string_end_bounds(input: Seq<u8>, pos: int)
    requires
        0 <= pos <= input.len(),
    ensures
        pos <= string_end(input, pos) <= input.len(),
    decreases input.len() - pos,
{
    if pos < input.len() && char_at(input, pos) != '"' && char_at(input, pos) != '\0' {
        lemma_string_end_bounds(input, pos + 1);
    }
}

/// Before the end of the input every token takes at least one byte, and no
/// token reaches past the end.
pub proof fn lemma_scan_advances(input: Seq<u8>, pos: int)
    requires
        0 <= pos <= input.len(),
    ensures
        pos <= scan(input, pos).next <= input.len(),
        pos < input.len() ==> pos < scan(input, pos).next,
{
    lemma_skip_spaces_bounds(input, pos);
    let p = skip_spaces(input, pos);
    lemma_word_end_bounds(input, p);
    lemma_digits_end_bounds(input, p);
    if p + 1 <= input.len() {
        lemma_string_end_bounds(input, p + 1);
    }
    let c = char_at(input, p);
    if c == '"' || c == '*' || c == '=' || c == '!' || word_start(c) || is_digit_char(c) {
        assert(p < input.len());
    }
}

/// The tokens that the input holds from `pos` on, up to its end. White space
/// at the end of the input yields a last end-of-input token.
pub open spec fn tokens_from(input: Seq<u8>, pos: int) -> Seq<TokenView>
    decreases input.len() - pos,
{
    if 0 <= pos < input.len() {
        let s = scan(input, pos);
        if pos < s.next <= input.len() {
            seq![s.token] + tokens_from(input, s.next)
        } else {
            seq![s.token]
        }
    } else {
        Seq::empty()
    }
}

/// A tokenizer over the bytes of a source text.
#[derive(Clone)]
pub struct Lexer<'a> {
    input: &'a [u8],
    position: usize,
    read_position: usize,
    pub ch: char,
}

fn is_space(c: char) -> (r: bool)
    ensures
        r == space_char(c),
{
    let u = c as u32;
    (9 <= u && u <= 13) || u == 32 || u == 0x85 || u == 0xA0
}

fn is_letter(c: char) -> (r: bool)
    ensures
        r == letter_char(c),
{
    let u = c as u32;
    (65 <= u && u <= 90) || (97 <= u && u <= 122) || u == 0xAA || u == 0xB5 || u == 0xBA || (0xC0
        <= u && u <= 0xD6) || (0xD8 <= u && u <= 0xF6) || (0xF8 <= u && u <= 0xFF)
}

fn is_number(c: char) -> (r: bool)
    ensures
        r == number_char(c),
{
    let u = c as u32;
    (48 <= u && u <= 57) || u == 0xB2 || u == 0xB3 || u == 0xB9 || (0xBC <= u && u <= 0xBE)
}

fn is_digit(c: char) -> (r: bool)
    ensures
        r == is_digit_char(c),
{
    '0' <= c && c <= '9'
}

impl<'a> Lexer<'a> {
    /// The bytes of the source text.
    pub closed spec fn source(&self) -> Seq<u8> {
        self.input@
    }

    /// The offset of the character that is looked at.
    pub closed spec fn offset(&self) -> int {
        self.position as int
    }

    /// Well-formedness: the offset lies within the text or at its end, and
    /// `ch` is the character there.
    pub closed spec fn wf(&self) -> bool {
        &&& self.position <= self.input@.len()
        &&& self.read_position == step(self.input@, self.position as int)
        &&& self.ch == char_at(self.input@, self.position as int)
    }

    /// The tokens that are still to come.
    pub open spec fn pending(&self) -> Seq<TokenView> {
        tokens_from(self.source(), self.offset())
    }

    /// The character that is looked at: the field `ch`.
    pub closed spec fn current(&self) -> char {
        self.ch
    }

    /// In a well-formed tokenizer the offset lies within the text or at its
    /// end, and the character looked at is the one at the offset.
    pub proof fn lemma_wf(&self)
        requires
            self.wf(),
        ensures
            self.current() == char_at(self.source(), self.offset()),
            0 <= self.offset() <= self.source().len(),
    {
    }

    /// The character that is looked at: the field `ch`. In a well-formed
    /// tokenizer it is the character at the offset.
    pub fn current_char(&self) -> (r: char)
        ensures
            r == self.current(),
            self.wf() ==> r == char_at(self.source(), self.offset()),
    {
        self.ch
    }

    /// A tokenizer at the start of `inpt`.
    pub fn new(inpt: &'a str) -> (r: Self)
        ensures
            r.wf(),
            r.source() == vstd::utf8::encode_utf8(inpt@),
            r.offset() == 0,
    {
        let input = inpt.as_bytes();
        if input.len() == 0 {
            Lexer { input, position: 0, read_position: 0, ch: '\0' }
        } else {
            Lexer { input, position: 0, read_position: 1, ch: input[0] as char }
        }
    }

    /// Moves to the next character; at the end of the text, stays there.
    pub fn read_char(&mut self)
        requires
            old(self).wf(),
        ensures
            final(self).wf(),
            final(self).source() == old(self).source(),
            final(self).offset() == step(old(self).source(), old(self).offset()),
    {
        if self.read_position >= self.input.len() {
            self.ch = '\0';
            self.position = self.input.len();
        } else {
            self.ch = self.input[self.read_position] as char;
            self.position = self.read_position;
            self.read_position = self.read_position + 1;
        }
    }

    fn peek_char(&self) -> (r: char)
        requires
            self.wf(),
        ensures
            r == char_at(self.source(), self.offset() + 1),
    {
        if self.read_position >= self.input.len() {
            return '\0';
        }
        self.input[self.read_position] as char
    }

    fn text_between(&self, from: usize, to: usize) -> (r: String)
        requires
            from <= to <= self.source().len(),
        ensures
            r@ == chars_between(self.source(), from as int, to as int),
    {
        let mut s = String::new();
        let mut i: usize = from;
        while i < to
            invariant
                from <= i <= to,
                to <= self.input@.len(),
                s@ == chars_between(self.input@, from as int, i as int),
            decreases to - i,
        {
            s.push(self.input[i] as char);
            assert(s@ =~= chars_between(self.input@, from as int, i + 1));
            i += 1;
        }
        s
    }

    /// Reads the name that starts at the offset and moves past it.
    pub fn read_identifier(&mut self) -> (r: String)
        requires
            old(self).wf(),
        ensures
            final(self).wf(),
            final(self).source() == old(self).source(),
            final(self).offset() == word_end(old(self).source(), old(self).offset()),
            r@ == chars_between(old(self).source(), old(self).offset(), final(self).offset()),
    {
        let start = self.position;
        while is_letter(self.ch) || is_number(self.ch) || self.ch == '_'
            invariant
                self.wf(),
                self.input@ == old(self).input@,
                start <= self.position <= self.input@.len(),
                word_end(self.input@, start as int) == word_end(self.input@, self.position as int),
            decreases self.input@.len() - self.position,
        {
            self.read_char();
        }
        self.text_between(start, self.position)
    }

    /// Reads the run of digits that starts at the offset and moves past it.
    pub fn read_number(&mut self) -> (r: String)
        requires
            old(self).wf(),
        ensures
            final(self).wf(),
            final(self).source() == old(self).source(),
            final(self).offset() == digits_end(old(self).source(), old(self).offset()),
            r@ == chars_between(old(self).source(), old(self).offset(), final(self).offset()),
    {
        let start = self.position;
        while is_digit(self.ch)
            invariant
                self.wf(),
                self.input@ == old(self).input@,
                start <= self.position <= self.input@.len(),
                digits_end(self.input@, start as int) == digits_end(
                    self.input@,
                    self.position as int,
                ),
            decreases self.input@.len() - self.position,
        {
            self.read_char();
        }
        self.text_between(start, self.position)
    }

    fn read_string(&mut self) -> (r: String)
        requires
            old(self).wf(),
        ensures
            final(self).wf(),
            final(self).source() == old(self).source(),
            final(self).offset() == string_end(old(self).source(), old(self).offset()),
            r@ == chars_between(old(self).source(), old(self).offset(), final(self).offset()),
    {
        let start = self.position;
        while self.ch != '"' && self.ch != '\0'
            invariant
                self.wf(),
                self.input@ == old(self).input@,
                start <= self.position <= self.input@.len(),
                string_end(self.input@, start as int) == string_end(
                    self.input@,
                    self.position as int,
                ),
            decreases self.input@.len() - self.position,
        {
            self.read_char();
        }
        self.text_between(start, self.position)
    }

    fn skip_whitespace(&mut self)
        requires
            old(self).wf(),
        ensures
            final(self).wf(),
            final(self).source() == old(self).source(),
            final(self).offset() == skip_spaces(old(self).source(), old(self).offset()),
    {
        let ghost start = self.position;
        while is_space(self.ch)
            invariant
                self.wf(),
                self.input@ == old(self).input@,
                self.position <= self.input@.len(),
                skip_spaces(self.input@, start as int) == skip_spaces(
                    self.input@,
                    self.position as int,
                ),
                start == old(self).position,
            decreases self.input@.len() - self.position,
        {
            self.read_char();
        }
    }

    /// Skips white space, reads the token that follows and moves past it. At
    /// the end of the text every call returns the end-of-input token.
    pub fn next_token(&mut self) -> (r: Token)
        requires
            old(self).wf(),
        ensures
            final(self).wf(),
            final(self).source() == old(self).source(),
            r@ == scan(old(self).source(), old(self).offset()).token,
            final(self).offset() == scan(old(self).source(), old(self).offset()).next,
    {
        self.skip_whitespace();
        let c = self.ch;
        let tok: Token = if c == '\0' {
            Token::EOF
        } else if c == ',' {
            Token::COMMA
        } else if c == ';' {
            Token::SEMICOLON
        } else if c == '(' {
            Token::LPAREN
        } else if c == ')' {
            Token::RPAREN
        } else if c == '{' {
            Token::LSQUIRLY
        } else if c == '}' {
            Token::RSQUIRLY
        } else if c == '+' {
            Token::PLUS
        } else if c == '-' {
            Token::MINUS
        } else if c == '/' {
            Token::SLASH
        } else if c == '<' {
            Token::LT
        } else if c == '>' {
            Token::GT
        } else if c == '*' {
            if self.peek_char() == '*' {
                self.read_char();
                Token::POWER
            } else {
                Token::ASTERISK
            }
        } else if c == '=' {
            if self.peek_char() == '=' {
                self.read_char();
                Token::EQ
            } else {
                Token::ASSIGN
            }
        } else if c == '!' {
            if self.peek_char() == '=' {
                self.read_char();
                Token::NEQ
            } else {
                Token::BANG
            }
        } else if c == '"' {
            self.read_char();
            Token::STRING(self.read_string())
        } else if is_letter(c) || c == '_' {
            let literal = self.read_identifier();
            return lookup_ident(literal);
        } else if is_digit(c) {
            return Token::INT(self.read_number());
        } else {
            Token::ILLEGAL
        };
        self.read_char();
        tok
    }
}

} // verus!
