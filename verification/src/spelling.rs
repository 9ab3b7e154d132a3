//! The spelling of tokens, and the proof that the tokenizer reads it back.
//!
//! [`spelling`] gives the bytes that a token is written with, and [`source`]
//! a text that holds a sequence of tokens, each after one space. Where every
//! token can be spelled ([`spelled`]), the tokens of that text are exactly the
//! given ones: see [`lemma_reads_source`].

use crate::lexer::{
    char_at, chars_between, digits_end, scan, scan_token, skip_spaces, space_char, string_end,
    tokens_from, word_char, word_end, word_start, Scan,
};
use crate::ast::ProgramView;
use crate::grammar::{program_parse, trim, ParseState, Parsed};
use crate::notation::{
    lemma_parses_program, sentences_meaning, sentences_respect, sentences_tokens, Sentence,
};
use crate::text::{all_digits, is_digit_char};
use crate::token::{literal_text, word_token, TokenView};
use vstd::prelude::*;

verus! {

/// Whether every character of a text has a code below 256, so that one byte
/// holds it.
pub open spec fn byte_text(s: Seq<char>) -> bool {
    forall|i: int| 0 <= i < s.len() ==> (#[trigger] s[i]) as int <= 255
}

/// The bytes of a text whose characters have codes below 256.
pub open spec fn text_bytes(s: Seq<char>) -> Seq<u8> {
    Seq::new(s.len(), |i: int| s[i] as u8)
}

/// Whether a text can stand as a word for the token `t`: it starts with a
/// letter or an underscore, goes on with letters, numeric characters and
/// underscores, and is read as `t`.
pub open spec fn word_of(w: Seq<char>, t: TokenView) -> bool {
    &&& w.len() > 0
    &&& byte_text(w)
    &&& word_start(w[0])
    &&& forall|i: int| 0 <= i < w.len() ==> word_char(#[trigger] w[i])
    &&& word_token(w) == t
}

/// Whether a token can be spelled so that it is read back: a name must be a
/// word that is no keyword, an integer a non-empty run of digits, and a
/// string must hold neither a double quote nor a NUL nor a character with a
/// code above 255. The end of input and the illegal token have no spelling.
pub open spec fn spelled(t: TokenView) -> bool {
    match t {
        TokenView::IDENT(name) => word_of(name, t),
        TokenView::INT(digits) => digits.len() > 0 && all_digits(digits),
        TokenView::STRING(text) => byte_text(text) && forall|i: int|
            0 <= i < text.len() ==> #[trigger] text[i] != '"' && text[i] != '\0',
        TokenView::EOF => false,
        TokenView::ILLEGAL => false,
        _ => true,
    }
}

/// The bytes that a token is written with: its source text, between double
/// quotes for a string.
pub open spec fn spelling(t: TokenView) -> Seq<u8> {
    match t {
        TokenView::STRING(text) => seq![34u8] + text_bytes(text) + seq![34u8],
        _ => text_bytes(literal_text(t)),
    }
}

/// A text that holds the tokens from the `i`-th on, each after one space.
pub open spec fn source(tokens: Seq<TokenView>, i: nat) -> Seq<u8>
    decreases tokens.len() - i,
{
    if i >= tokens.len() {
        Seq::empty()
    } else {
        seq![32u8] + spelling(tokens[i as int]) + source(tokens, i + 1)
    }
}

/// Whether the text `input` holds the bytes of `w` from offset `p` on.
pub open spec fn holds(input: Seq<u8>, p: int, w: Seq<char>) -> bool {
    &&& 0 <= p
    &&& p + w.len() <= input.len()
    &&& forall|k: int| 0 <= k < w.len() ==> input[p + k] == #[trigger] w[k] as u8
}

/// A character with a code below 256 is the character that its byte reads
/// as.
pub proof fn lemma_byte_char(c: char)
    requires
        c as int <= 255,
    ensures
        (c as u8) as char == c,
        (c as u8) as int == c as int,
{
}

/// Where a text holds the bytes of `w`, its characters there are those of
/// `w`.
pub proof fn lemma_holds_chars(input: Seq<u8>, p: int, w: Seq<char>)
    requires
        holds(input, p, w),
        byte_text(w),
    ensures
        chars_between(input, p, p + w.len()) == w,
        forall|k: int| 0 <= k < w.len() ==> char_at(input, p + k) == #[trigger] w[k],
{
    assert forall|k: int| 0 <= k < w.len() implies char_at(input, p + k) == #[trigger] w[k] by {
        lemma_byte_char(w[k]);
        assert(input[p + k] == w[k] as u8);
    }
    assert(chars_between(input, p, p + w.len()) =~= w);
}

/// A run of characters of a name ends where the first other character
/// stands.
pub proof fn lemma_word_end_at(input: Seq<u8>, p: int, n: int)
    requires
        0 <= p,
        0 <= n,
        p + n <= input.len(),
        forall|k: int| p <= k < p + n ==> word_char(#[trigger] char_at(input, k)),
        !word_char(char_at(input, p + n)),
    ensures
        word_end(input, p) == p + n,
    decreases n,
{
    if n > 0 {
        assert(word_char(char_at(input, p)));
        lemma_word_end_at(input, p + 1, n - 1);
    }
}

/// A run of digits ends where the first other character stands.
pub proof fn lemma_digits_end_at(input: Seq<u8>, p: int, n: int)
    requires
        0 <= p,
        0 <= n,
        p + n <= input.len(),
        forall|k: int| p <= k < p + n ==> is_digit_char(#[trigger] char_at(input, k)),
        !is_digit_char(char_at(input, p + n)),
    ensures
        digits_end(input, p) == p + n,
    decreases n,
{
    if n > 0 {
        assert(is_digit_char(char_at(input, p)));
        lemma_digits_end_at(input, p + 1, n - 1);
    }
}

/// The contents of a string literal end where the first double quote stands.
pub proof fn lemma_string_end_at(input: Seq<u8>, p: int, n: int)
    requires
        0 <= p,
        0 <= n,
        p + n < input.len(),
        forall|k: int|
            p <= k < p + n ==> #[trigger] char_at(input, k) != '"' && char_at(input, k) != '\0',
        char_at(input, p + n) == '"',
    ensures
        string_end(input, p) == p + n,
    decreases n,
{
    if n > 0 {
        assert(char_at(input, p) != '"' && char_at(input, p) != '\0');
        lemma_string_end_at(input, p + 1, n - 1);
    }
}

/// The keywords are words for their tokens, and the marks are spelled with
/// the characters that the tokenizer looks for.
pub proof fn lemma_literals()
    ensures
        "fn"@ == seq!['f', 'n'],
        "let"@ == seq!['l', 'e', 't'],
        "true"@ == seq!['t', 'r', 'u', 'e'],
        "false"@ == seq!['f', 'a', 'l', 's', 'e'],
        "if"@ == seq!['i', 'f'],
        "else"@ == seq!['e', 'l', 's', 'e'],
        "return"@ == seq!['r', 'e', 't', 'u', 'r', 'n'],
        "import"@ == seq!['i', 'm', 'p', 'o', 'r', 't'],
        ","@ == seq![','],
        ";"@ == seq![';'],
        "("@ == seq!['('],
        ")"@ == seq![')'],
        "{"@ == seq!['{'],
        "}"@ == seq!['}'],
        "="@ == seq!['='],
        "+"@ == seq!['+'],
        "-"@ == seq!['-'],
        "!"@ == seq!['!'],
        "*"@ == seq!['*'],
        "/"@ == seq!['/'],
        "**"@ == seq!['*', '*'],
        "<"@ == seq!['<'],
        ">"@ == seq!['>'],
        "=="@ == seq!['=', '='],
        "!="@ == seq!['!', '='],
{
    reveal_strlit("fn");
    reveal_strlit("let");
    reveal_strlit("true");
    reveal_strlit("false");
    reveal_strlit("if");
    reveal_strlit("else");
    reveal_strlit("return");
    reveal_strlit("import");
    reveal_strlit(",");
    reveal_strlit(";");
    reveal_strlit("(");
    reveal_strlit(")");
    reveal_strlit("{");
    reveal_strlit("}");
    reveal_strlit("=");
    reveal_strlit("+");
    reveal_strlit("-");
    reveal_strlit("!");
    reveal_strlit("*");
    reveal_strlit("/");
    reveal_strlit("**");
    reveal_strlit("<");
    reveal_strlit(">");
    reveal_strlit("==");
    reveal_strlit("!=");
    assert("fn"@ =~= seq!['f', 'n']);
    assert("let"@ =~= seq!['l', 'e', 't']);
    assert("true"@ =~= seq!['t', 'r', 'u', 'e']);
    assert("false"@ =~= seq!['f', 'a', 'l', 's', 'e']);
    assert("if"@ =~= seq!['i', 'f']);
    assert("else"@ =~= seq!['e', 'l', 's', 'e']);
    assert("return"@ =~= seq!['r', 'e', 't', 'u', 'r', 'n']);
    assert("import"@ =~= seq!['i', 'm', 'p', 'o', 'r', 't']);
    assert(","@ =~= seq![',']);
    assert(";"@ =~= seq![';']);
    assert("("@ =~= seq!['(']);
    assert(")"@ =~= seq![')']);
    assert("{"@ =~= seq!['{']);
    assert("}"@ =~= seq!['}']);
    assert("="@ =~= seq!['=']);
    assert("+"@ =~= seq!['+']);
    assert("-"@ =~= seq!['-']);
    assert("!"@ =~= seq!['!']);
    assert("*"@ =~= seq!['*']);
    assert("/"@ =~= seq!['/']);
    assert("**"@ =~= seq!['*', '*']);
    assert("<"@ =~= seq!['<']);
    assert(">"@ =~= seq!['>']);
    assert("=="@ =~= seq!['=', '=']);
    assert("!="@ =~= seq!['!', '=']);
}


/// Whether `input` holds the bytes `bytes` from offset `p` on.
pub open spec fn holds_bytes(input: Seq<u8>, p: int, bytes: Seq<u8>) -> bool {
    &&& 0 <= p
    &&& p + bytes.len() <= input.len()
    &&& forall|k: int| 0 <= k < bytes.len() ==> input[p + k] == #[trigger] bytes[k]
}

/// Whether the token that ends before offset `end` is ended there: by the end
/// of the text or by a space.
pub open spec fn ends_at(input: Seq<u8>, end: int) -> bool {
    end == input.len() || (0 <= end < input.len() && input[end] == 32u8)
}

/// A word that stands in a text and is ended there is read as its token.
pub proof fn lemma_scans_word(input: Seq<u8>, q: int, w: Seq<char>, t: TokenView)
    requires
        holds(input, q, w),
        word_of(w, t),
        ends_at(input, q + w.len()),
    ensures
        scan_token(input, q) == (Scan { token: t, next: q + w.len() }),
        !space_char(char_at(input, q)),
{
    lemma_holds_chars(input, q, w);
    let end = q + w.len();
    assert(char_at(input, q) == w[0]);
    assert forall|k: int| q <= k < end implies word_char(#[trigger] char_at(input, k)) by {
        assert(char_at(input, q + (k - q)) == w[k - q]);
    }
    assert(!word_char(char_at(input, end)));
    lemma_word_end_at(input, q, w.len() as int);
}

/// A run of digits that stands in a text and is ended there is read as an
/// integer token.
pub proof fn lemma_scans_digits(input: Seq<u8>, q: int, digits: Seq<char>)
    requires
        holds(input, q, digits),
        digits.len() > 0,
        all_digits(digits),
        ends_at(input, q + digits.len()),
    ensures
        scan_token(input, q) == (Scan { token: TokenView::INT(digits), next: q + digits.len() }),
        !space_char(char_at(input, q)),
{
    assert(byte_text(digits)) by {
        assert forall|i: int| 0 <= i < digits.len() implies (#[trigger] digits[i]) as int
            <= 255 by {
            assert(is_digit_char(digits[i]));
        }
    }
    lemma_holds_chars(input, q, digits);
    let end = q + digits.len();
    assert(char_at(input, q) == digits[0]);
    assert(is_digit_char(digits[0]));
    assert forall|k: int| q <= k < end implies is_digit_char(#[trigger] char_at(input, k)) by {
        assert(char_at(input, q + (k - q)) == digits[k - q]);
        assert(is_digit_char(digits[k - q]));
    }
    assert(!is_digit_char(char_at(input, end)));
    lemma_digits_end_at(input, q, digits.len() as int);
}

/// A string literal that stands in a text is read as a string token.
pub proof fn lemma_scans_string(input: Seq<u8>, q: int, text: Seq<char>)
    requires
        0 <= q < input.len(),
        input[q] == 34u8,
        holds(input, q + 1, text),
        byte_text(text),
        forall|i: int| 0 <= i < text.len() ==> #[trigger] text[i] != '"' && text[i] != '\0',
        q + 1 + text.len() < input.len(),
        input[q + 1 + text.len()] == 34u8,
    ensures
        scan_token(input, q) == (Scan {
            token: TokenView::STRING(text),
            next: q + 2 + text.len(),
        }),
        !space_char(char_at(input, q)),
{
    lemma_holds_chars(input, q + 1, text);
    let end = q + 1 + text.len();
    assert(char_at(input, q) == '"');
    assert(char_at(input, end) == '"');
    assert forall|k: int| q + 1 <= k < end implies #[trigger] char_at(input, k) != '"' && char_at(
        input,
        k,
    ) != '\0' by {
        assert(char_at(input, q + 1 + (k - q - 1)) == text[k - q - 1]);
    }
    lemma_string_end_at(input, q + 1, text.len() as int);
}

/// Whether a token is a keyword.
pub open spec fn keyword(t: TokenView) -> bool {
    t is FUNCTION || t is LET || t is TRUE || t is FALSE || t is IF || t is ELSE || t is RETURN
        || t is IMPORT
}

/// Whether a token is a mark: punctuation or an operator.
pub open spec fn mark(t: TokenView) -> bool {
    t is COMMA || t is SEMICOLON || t is LPAREN || t is RPAREN || t is LSQUIRLY || t is RSQUIRLY
        || t is ASSIGN || t is PLUS || t is MINUS || t is BANG || t is ASTERISK || t is SLASH
        || t is POWER || t is LT || t is GT || t is EQ || t is NEQ
}

/// The source text of a keyword is a word for it.
pub proof fn lemma_keyword_word(t: TokenView)
    requires
        keyword(t),
    ensures
        word_of(literal_text(t), t),
{
    lemma_literals();
}

/// A mark that stands in a text and is ended there is read as its token.
pub proof fn lemma_scans_mark(input: Seq<u8>, q: int, t: TokenView)
    requires
        mark(t),
        holds(input, q, literal_text(t)),
        ends_at(input, q + literal_text(t).len()),
    ensures
        scan_token(input, q) == (Scan { token: t, next: q + literal_text(t).len() }),
        !space_char(char_at(input, q)),
{
    lemma_literals();
    let w = literal_text(t);
    assert(byte_text(w));
    lemma_holds_chars(input, q, w);
    assert(char_at(input, q) == w[0]);
    if w.len() == 2 {
        assert(char_at(input, q + 1) == w[1]);
    } else {
        assert(w.len() == 1);
        assert(char_at(input, q + 1) == ' ' || char_at(input, q + 1) == '\0');
    }
}

/// A token that stands in a text after a space, and is ended there, is read
/// from the space on as itself.
pub proof fn lemma_scans(input: Seq<u8>, p: int, t: TokenView)
    requires
        spelled(t),
        0 <= p < input.len(),
        input[p] == 32u8,
        holds_bytes(input, p + 1, spelling(t)),
        ends_at(input, p + 1 + spelling(t).len()),
    ensures
        scan(input, p) == (Scan { token: t, next: p + 1 + spelling(t).len() }),
        spelling(t).len() > 0,
{
    let q = p + 1;
    assert(space_char(char_at(input, p)));
    match t {
        TokenView::STRING(text) => {
            let bytes = spelling(t);
            assert(bytes.len() == text.len() + 2);
            assert(input[q] == bytes[0]);
            assert(input[q + 1 + text.len()] == bytes[text.len() as int + 1]);
            assert(holds(input, q + 1, text)) by {
                assert forall|k: int| 0 <= k < text.len() implies input[q + 1 + k]
                    == #[trigger] text[k] as u8 by {
                    assert(input[q + (k + 1)] == bytes[k + 1]);
                }
            }
            lemma_scans_string(input, q, text);
        },
        TokenView::INT(digits) => {
            assert(holds(input, q, digits)) by {
                assert forall|k: int| 0 <= k < digits.len() implies input[q + k]
                    == #[trigger] digits[k] as u8 by {
                    assert(input[q + k] == spelling(t)[k]);
                }
            }
            lemma_scans_digits(input, q, digits);
        },
        _ => {
            let w = literal_text(t);
            assert(holds(input, q, w)) by {
                assert forall|k: int| 0 <= k < w.len() implies input[q + k] == #[trigger] w[k]
                    as u8 by {
                    assert(input[q + k] == spelling(t)[k]);
                }
            }
            if mark(t) {
                lemma_literals();
                lemma_scans_mark(input, q, t);
            } else {
                if keyword(t) {
                    lemma_keyword_word(t);
                }
                lemma_scans_word(input, q, w, t);
            }
        },
    }
    assert(skip_spaces(input, q) == q);
    assert(skip_spaces(input, p) == q);
}

/// The tokens of a text that holds spelled tokens, each after one space, are
/// those tokens: from the place where the `i`-th token starts on, the
/// tokenizer reads the tokens from the `i`-th on.
pub proof fn lemma_reads_tokens(tokens: Seq<TokenView>, i: nat, before: Seq<u8>)
    requires
        i <= tokens.len(),
        forall|k: int| 0 <= k < tokens.len() ==> spelled(#[trigger] tokens[k]),
    ensures
        tokens_from(before + source(tokens, i), before.len() as int) == tokens.skip(i as int),
    decreases tokens.len() - i,
{
    let input = before + source(tokens, i);
    let p = before.len() as int;
    if i < tokens.len() {
        let t = tokens[i as int];
        let bytes = spelling(t);
        let later = source(tokens, i + 1);
        let read = before + seq![32u8] + bytes;
        assert(input =~= read + later);
        assert(input[p] == 32u8);
        assert(holds_bytes(input, p + 1, bytes)) by {
            assert forall|k: int| 0 <= k < bytes.len() implies input[p + 1 + k]
                == #[trigger] bytes[k] by {
                assert(input[p + 1 + k] == read[p + 1 + k]);
            }
        }
        assert(ends_at(input, p + 1 + bytes.len())) by {
            if i + 1 < tokens.len() {
                assert(later[0] == 32u8);
                assert(input[read.len() as int] == later[0]);
            } else {
                assert(later =~= Seq::<u8>::empty());
            }
        }
        lemma_scans(input, p, t);
        lemma_reads_tokens(tokens, i + 1, read);
        assert(tokens.skip(i as int) =~= seq![t] + tokens.skip(i as int + 1));
    } else {
        assert(source(tokens, i) =~= Seq::<u8>::empty());
        assert(input =~= before);
        assert(tokens.skip(i as int) =~= Seq::<TokenView>::empty());
    }
}

/// Reading back what was spelled: the tokens of the text that holds the given
/// tokens, each after one space, are exactly the given tokens.
pub proof fn lemma_reads_source(tokens: Seq<TokenView>)
    requires
        forall|k: int| 0 <= k < tokens.len() ==> spelled(#[trigger] tokens[k]),
    ensures
        tokens_from(source(tokens, 0), 0) == tokens,
{
    lemma_reads_tokens(tokens, 0, Seq::empty());
    assert(Seq::<u8>::empty() + source(tokens, 0) =~= source(tokens, 0));
    assert(tokens.skip(0) =~= tokens);
}


/// A sequence that does not end in an end-of-input token is kept whole by
/// [`trim`].
pub proof fn lemma_trim_spelled(tokens: Seq<TokenView>)
    requires
        forall|k: int| 0 <= k < tokens.len() ==> spelled(#[trigger] tokens[k]),
    ensures
        trim(tokens) == tokens,
{
    if tokens.len() > 0 {
        assert(spelled(tokens[tokens.len() - 1]));
    }
}

/// From text to tree: a program as written, spelled with one space before
/// each token, is read by the tokenizer and the parser as the statements that
/// its sentences denote, without a diagnostic.
pub proof fn lemma_reads_program_text(sentences: Seq<Sentence>)
    requires
        sentences_respect(sentences, sentences.len(), TokenView::EOF),
        forall|k: int|
            0 <= k < sentences_tokens(sentences, 0).len() ==> spelled(
                #[trigger] sentences_tokens(sentences, 0)[k],
            ),
    ensures
        program_parse(
            ParseState {
                tokens: trim(tokens_from(source(sentences_tokens(sentences, 0), 0), 0)),
                errors: Seq::empty(),
            },
        ) == (Parsed {
            value: ProgramView { statements: sentences_meaning(sentences, sentences.len()) },
            state: ParseState { tokens: Seq::empty(), errors: Seq::empty() },
        }),
{
    let tokens = sentences_tokens(sentences, 0);
    lemma_reads_source(tokens);
    lemma_trim_spelled(tokens);
    lemma_parses_program(sentences);
}

} // verus!
