//! Lexical analysis: turns SysY source text into a token stream.
//!
//! The scanner works on the UTF-8 bytes of the source. Its behaviour is
//! stated by the spec functions below: `skip_trivia` (white space and
//! comments), `scan_at` (maximal munch of one token) and `spec_tokens`
//! (the whole stream). Every token records the line and column of its first
//! byte, which `line_at` / `column_at` compute from the bytes before it.

use vstd::prelude::*;
use vstd::string::StringSliceAdditionalSpecFns;

verus! {

#[derive(Debug, Clone, Copy, PartialEq, Eq, Structural)]
pub enum TokenKind {
    Ident,
    Keyword,
    IntLiteral,
    FloatLiteral,
    Plus,
    Minus,
    Star,
    Slash,
    Percent,
    Assign,
    Eq,
    Neq,
    Lt,
    Le,
    Gt,
    Ge,
    And,
    Or,
    Not,
    Inc,
    Dec,
    Semicolon,
    Comma,
    LParen,
    RParen,
    LBracket,
    RBracket,
    LBrace,
    RBrace,
    Eof,
    Unknown,
}

#[derive(Debug, Clone)]
pub struct Token {
    pub kind: TokenKind,
    pub lexeme: String,
    pub line: usize,
    pub column: usize,
}

pub struct Scanner {
    src: Vec<u8>,
    len: usize,
    pos: usize,
    line: usize,
    column: usize,
}

// ---------------------------------------------------------------------------
// Character classes
// ---------------------------------------------------------------------------

/// The bytes that `u8::is_ascii_whitespace` accepts: space, tab, line feed,
/// form feed and carriage return.
pub open spec fn is_space_byte(b: u8) -> bool {
    b == 32 || b == 9 || b == 10 || b == 12 || b == 13
}

pub open spec fn is_alpha_byte(b: u8) -> bool {
    (65 <= b && b <= 90) || (97 <= b && b <= 122)
}

pub open spec fn is_digit_byte(b: u8) -> bool {
    48 <= b && b <= 57
}

/// Bytes that may continue an identifier.
pub open spec fn is_word_byte(b: u8) -> bool {
    is_alpha_byte(b) || is_digit_byte(b) || b == 95
}

// ---------------------------------------------------------------------------
// Positions
// ---------------------------------------------------------------------------

/// Line number (from 1) of byte offset `pos`: one more than the number of
/// line feeds before it.
pub open spec fn line_at(s: Seq<u8>, pos: int) -> int
    decreases pos,
{
    if pos <= 0 {
        1
    } else {
        line_at(s, pos - 1) + if s[pos - 1] == 10 { 1int } else { 0int }
    }
}

/// Column number (from 1) of byte offset `pos`: one more than the number of
/// bytes since the last line feed before it.
pub open spec fn column_at(s: Seq<u8>, pos: int) -> int
    decreases pos,
{
    if pos <= 0 {
        1
    } else if s[pos - 1] == 10 {
        1
    } else {
        column_at(s, pos - 1) + 1
    }
}

/// Positions count lines and columns from 1: a line feed starts the next
/// line at column 1, and any other byte moves one column to the right on
/// the same line.
pub proof fn law_line_and_column(s: Seq<u8>, a: int, b: int)
    requires
        0 <= a <= b <= s.len(),
    ensures
        line_at(s, 0) == 1,
        column_at(s, 0) == 1,
        (forall|i: int| a <= i < b ==> #[trigger] s[i] != 10) ==> line_at(s, b) == line_at(s, a) && column_at(s, b)
            == column_at(s, a) + (b - a),
        a < s.len() && s[a] == 10 ==> line_at(s, a + 1) == line_at(s, a) + 1 && column_at(s, a + 1) == 1,
    decreases b - a,
{
    if a < b {
        law_line_and_column(s, a, b - 1);
        if forall|i: int| a <= i < b ==> #[trigger] s[i] != 10 {
            assert(s[b - 1] != 10);
        }
    }
}

pub proof fn lemma_position_bounds(s: Seq<u8>, pos: int)
    requires
        0 <= pos,
    ensures
        1 <= line_at(s, pos) <= pos + 1,
        1 <= column_at(s, pos) <= pos + 1,
    decreases pos,
{
    if pos > 0 {
        lemma_position_bounds(s, pos - 1);
    }
}

// ---------------------------------------------------------------------------
// White space and comments
// ---------------------------------------------------------------------------

/// End of a `//` comment whose text starts at `p`: the next line feed (which
/// is not consumed) or the end of input.
pub open spec fn line_comment_end(s: Seq<u8>, p: int) -> int
    decreases s.len() - p,
{
    if p < 0 || p >= s.len() || s[p] == 10 {
        p
    } else {
        line_comment_end(s, p + 1)
    }
}

/// End of a `/*` comment whose text starts at `p`: just after the first
/// `*/`, or the end of input when the comment is not closed.
pub open spec fn block_comment_end(s: Seq<u8>, p: int) -> int
    decreases s.len() - p,
{
    if p < 0 || p >= s.len() {
        p
    } else if s[p] == 42 && p + 1 < s.len() && s[p + 1] == 47 {
        p + 2
    } else {
        block_comment_end(s, p + 1)
    }
}

pub proof fn lemma_line_comment_end(s: Seq<u8>, p: int)
    requires
        0 <= p <= s.len(),
    ensures
        p <= line_comment_end(s, p) <= s.len(),
    decreases s.len() - p,
{
    if p < s.len() && s[p] != 10 {
        lemma_line_comment_end(s, p + 1);
    }
}

pub proof fn lemma_block_comment_end(s: Seq<u8>, p: int)
    requires
        0 <= p <= s.len(),
    ensures
        p <= block_comment_end(s, p) <= s.len(),
    decreases s.len() - p,
{
    if p < s.len() && !(s[p] == 42 && p + 1 < s.len() && s[p + 1] == 47) {
        lemma_block_comment_end(s, p + 1);
    }
}

/// Position of the first byte at or after `p` that is neither white space
/// nor part of a comment.
pub open spec fn skip_trivia(s: Seq<u8>, p: int) -> int
    decreases s.len() - p,
{
    if p < 0 || p >= s.len() {
        p
    } else if is_space_byte(s[p]) {
        skip_trivia(s, p + 1)
    } else if s[p] == 47 && p + 1 < s.len() && s[p + 1] == 47 {
        proof {
            lemma_line_comment_end(s, p + 2);
        }
        skip_trivia(s, line_comment_end(s, p + 2))
    } else if s[p] == 47 && p + 1 < s.len() && s[p + 1] == 42 {
        proof {
            lemma_block_comment_end(s, p + 2);
        }
        skip_trivia(s, block_comment_end(s, p + 2))
    } else {
        p
    }
}

pub proof fn lemma_skip_trivia(s: Seq<u8>, p: int)
    requires
        0 <= p <= s.len(),
    ensures
        p <= skip_trivia(s, p) <= s.len(),
    decreases s.len() - p,
{
    if p < s.len() {
        if is_space_byte(s[p]) {
            lemma_skip_trivia(s, p + 1);
        } else if s[p] == 47 && p + 1 < s.len() && s[p + 1] == 47 {
            lemma_line_comment_end(s, p + 2);
            lemma_skip_trivia(s, line_comment_end(s, p + 2));
        } else if s[p] == 47 && p + 1 < s.len() && s[p + 1] == 42 {
            lemma_block_comment_end(s, p + 2);
            lemma_skip_trivia(s, block_comment_end(s, p + 2));
        }
    }
}

/// Skipping stops on a byte that is neither white space nor the start of a
/// comment.
pub proof fn lemma_skip_trivia_lands(s: Seq<u8>, p: int)
    requires
        0 <= p <= s.len(),
    ensures
        ({
            let q = skip_trivia(s, p);
            q < s.len() ==> !is_space_byte(s[q]) && !(s[q] == 47 && q + 1 < s.len() && (s[q + 1] == 47 || s[q + 1] == 42))
        }),
    decreases s.len() - p,
{
    if p < s.len() {
        if is_space_byte(s[p]) {
            lemma_skip_trivia_lands(s, p + 1);
        } else if s[p] == 47 && p + 1 < s.len() && s[p + 1] == 47 {
            lemma_line_comment_end(s, p + 2);
            lemma_skip_trivia_lands(s, line_comment_end(s, p + 2));
        } else if s[p] == 47 && p + 1 < s.len() && s[p + 1] == 42 {
            lemma_block_comment_end(s, p + 2);
            lemma_skip_trivia_lands(s, block_comment_end(s, p + 2));
        }
    }
}

// ---------------------------------------------------------------------------
// Tokens
// ---------------------------------------------------------------------------

/// End of the run of identifier bytes starting at `p`.
pub open spec fn word_end(s: Seq<u8>, p: int) -> int
    decreases s.len() - p,
{
    if 0 <= p < s.len() && is_word_byte(s[p]) {
        word_end(s, p + 1)
    } else {
        p
    }
}

/// End of the run of decimal digits starting at `p`.
pub open spec fn digits_end(s: Seq<u8>, p: int) -> int
    decreases s.len() - p,
{
    if 0 <= p < s.len() && is_digit_byte(s[p]) {
        digits_end(s, p + 1)
    } else {
        p
    }
}

proof fn lemma_word_end(s: Seq<u8>, p: int)
    requires
        0 <= p <= s.len(),
    ensures
        p <= word_end(s, p) <= s.len(),
    decreases s.len() - p,
{
    if p < s.len() && is_word_byte(s[p]) {
        lemma_word_end(s, p + 1);
    }
}

proof fn lemma_digits_end(s: Seq<u8>, p: int)
    requires
        0 <= p <= s.len(),
    ensures
        p <= digits_end(s, p) <= s.len(),
    decreases s.len() - p,
{
    if p < s.len() && is_digit_byte(s[p]) {
        lemma_digits_end(s, p + 1);
    }
}

/// The eleven reserved words of SysY.
pub open spec fn is_keyword(w: Seq<u8>) -> bool {
    ||| w == seq![105u8, 110, 116]
    ||| w == seq![102u8, 108, 111, 97, 116]
    ||| w == seq![118u8, 111, 105, 100]
    ||| w == seq![99u8, 111, 110, 115, 116]
    ||| w == seq![105u8, 102]
    ||| w == seq![101u8, 108, 115, 101]
    ||| w == seq![119u8, 104, 105, 108, 101]
    ||| w == seq![102u8, 111, 114]
    ||| w == seq![114u8, 101, 116, 117, 114, 110]
    ||| w == seq![98u8, 114, 101, 97, 107]
    ||| w == seq![99u8, 111, 110, 116, 105, 110, 117, 101]
}

/// The letters of an ASCII byte string.
pub open spec fn ascii_text(w: Seq<u8>) -> Seq<char> {
    Seq::new(w.len(), |i: int| w[i] as char)
}

/// The reserved words of SysY are exactly `int`, `float`, `void`, `const`,
/// `if`, `else`, `while`, `for`, `return`, `break` and `continue`.
pub proof fn law_keywords(w: Seq<u8>)
    ensures
        is_keyword(w) <==> ({
            ||| ascii_text(w) == "int"@
            ||| ascii_text(w) == "float"@
            ||| ascii_text(w) == "void"@
            ||| ascii_text(w) == "const"@
            ||| ascii_text(w) == "if"@
            ||| ascii_text(w) == "else"@
            ||| ascii_text(w) == "while"@
            ||| ascii_text(w) == "for"@
            ||| ascii_text(w) == "return"@
            ||| ascii_text(w) == "break"@
            ||| ascii_text(w) == "continue"@
        }),
{
    reveal_strlit("int");
    reveal_strlit("float");
    reveal_strlit("void");
    reveal_strlit("const");
    reveal_strlit("if");
    reveal_strlit("else");
    reveal_strlit("while");
    reveal_strlit("for");
    reveal_strlit("return");
    reveal_strlit("break");
    reveal_strlit("continue");
    let b0: Seq<u8> = seq![105u8, 110, 116];
    assert(ascii_text(b0) =~= "int"@);
    if ascii_text(w) == "int"@ {
        assert(w.len() == b0.len());
        assert forall|i: int| 0 <= i < w.len() implies w[i] == b0[i] by {
            assert(ascii_text(w)[i] == ascii_text(b0)[i]);
        }
        assert(w =~= b0);
    }
    let b1: Seq<u8> = seq![102u8, 108, 111, 97, 116];
    assert(ascii_text(b1) =~= "float"@);
    if ascii_text(w) == "float"@ {
        assert(w.len() == b1.len());
        assert forall|i: int| 0 <= i < w.len() implies w[i] == b1[i] by {
            assert(ascii_text(w)[i] == ascii_text(b1)[i]);
        }
        assert(w =~= b1);
    }
    let b2: Seq<u8> = seq![118u8, 111, 105, 100];
    assert(ascii_text(b2) =~= "void"@);
    if ascii_text(w) == "void"@ {
        assert(w.len() == b2.len());
        assert forall|i: int| 0 <= i < w.len() implies w[i] == b2[i] by {
            assert(ascii_text(w)[i] == ascii_text(b2)[i]);
        }
        assert(w =~= b2);
    }
    let b3: Seq<u8> = seq![99u8, 111, 110, 115, 116];
    assert(ascii_text(b3) =~= "const"@);
    if ascii_text(w) == "const"@ {
        assert(w.len() == b3.len());
        assert forall|i: int| 0 <= i < w.len() implies w[i] == b3[i] by {
            assert(ascii_text(w)[i] == ascii_text(b3)[i]);
        }
        assert(w =~= b3);
    }
    let b4: Seq<u8> = seq![105u8, 102];
    assert(ascii_text(b4) =~= "if"@);
    if ascii_text(w) == "if"@ {
        assert(w.len() == b4.len());
        assert forall|i: int| 0 <= i < w.len() implies w[i] == b4[i] by {
            assert(ascii_text(w)[i] == ascii_text(b4)[i]);
        }
        assert(w =~= b4);
    }
    let b5: Seq<u8> = seq![101u8, 108, 115, 101];
    assert(ascii_text(b5) =~= "else"@);
    if ascii_text(w) == "else"@ {
        assert(w.len() == b5.len());
        assert forall|i: int| 0 <= i < w.len() implies w[i] == b5[i] by {
            assert(ascii_text(w)[i] == ascii_text(b5)[i]);
        }
        assert(w =~= b5);
    }
    let b6: Seq<u8> = seq![119u8, 104, 105, 108, 101];
    assert(ascii_text(b6) =~= "while"@);
    if ascii_text(w) == "while"@ {
        assert(w.len() == b6.len());
        assert forall|i: int| 0 <= i < w.len() implies w[i] == b6[i] by {
            assert(ascii_text(w)[i] == ascii_text(b6)[i]);
        }
        assert(w =~= b6);
    }
    let b7: Seq<u8> = seq![102u8, 111, 114];
    assert(ascii_text(b7) =~= "for"@);
    if ascii_text(w) == "for"@ {
        assert(w.len() == b7.len());
        assert forall|i: int| 0 <= i < w.len() implies w[i] == b7[i] by {
            assert(ascii_text(w)[i] == ascii_text(b7)[i]);
        }
        assert(w =~= b7);
    }
    let b8: Seq<u8> = seq![114u8, 101, 116, 117, 114, 110];
    assert(ascii_text(b8) =~= "return"@);
    if ascii_text(w) == "return"@ {
        assert(w.len() == b8.len());
        assert forall|i: int| 0 <= i < w.len() implies w[i] == b8[i] by {
            assert(ascii_text(w)[i] == ascii_text(b8)[i]);
        }
        assert(w =~= b8);
    }
    let b9: Seq<u8> = seq![98u8, 114, 101, 97, 107];
    assert(ascii_text(b9) =~= "break"@);
    if ascii_text(w) == "break"@ {
        assert(w.len() == b9.len());
        assert forall|i: int| 0 <= i < w.len() implies w[i] == b9[i] by {
            assert(ascii_text(w)[i] == ascii_text(b9)[i]);
        }
        assert(w =~= b9);
    }
    let b10: Seq<u8> = seq![99u8, 111, 110, 116, 105, 110, 117, 101];
    assert(ascii_text(b10) =~= "continue"@);
    if ascii_text(w) == "continue"@ {
        assert(w.len() == b10.len());
        assert forall|i: int| 0 <= i < w.len() implies w[i] == b10[i] by {
            assert(ascii_text(w)[i] == ascii_text(b10)[i]);
        }
        assert(w =~= b10);
    }
}

/// A number starts with a digit, or with a dot that a digit follows.
pub open spec fn starts_number(s: Seq<u8>, p: int) -> bool {
    is_digit_byte(s[p]) || (s[p] == 46 && p + 1 < s.len() && is_digit_byte(s[p + 1]))
}

/// End of the digits and optional fraction of a number starting at `p`,
/// and whether a dot was seen.
pub open spec fn mantissa_end(s: Seq<u8>, p: int) -> (int, bool) {
    if s[p] == 46 {
        (digits_end(s, p + 1), true)
    } else {
        let d = digits_end(s, p);
        if d < s.len() && s[d] == 46 {
            (digits_end(s, d + 1), true)
        } else {
            (d, false)
        }
    }
}

/// End of an optional exponent (`e` or `E`, an optional sign, digits)
/// starting at `p`, and whether one was present.
pub open spec fn exponent_end(s: Seq<u8>, p: int) -> (int, bool) {
    if 0 <= p < s.len() && (s[p] == 101 || s[p] == 69) {
        let q = if p + 1 < s.len() && (s[p + 1] == 43 || s[p + 1] == 45) {
            p + 2
        } else {
            p + 1
        };
        (digits_end(s, q), true)
    } else {
        (p, false)
    }
}

/// Kind and end of a number starting at `p`: a float when it has a dot or
/// an exponent, an int otherwise.
pub open spec fn number_span(s: Seq<u8>, p: int) -> (TokenKind, int) {
    let (m, dot) = mantissa_end(s, p);
    let (e, exp) = exponent_end(s, m);
    (if dot || exp { TokenKind::FloatLiteral } else { TokenKind::IntLiteral }, e)
}

/// One- or two-byte operator or punctuation starting at `p`, and its end.
/// A lone `&` or `|`, and any byte that starts no token, is `Unknown`.
pub open spec fn symbol_span(s: Seq<u8>, p: int) -> (TokenKind, int) {
    let b = s[p];
    let next_is = |c: u8| p + 1 < s.len() && s[p + 1] == c;
    if b == 43 {
        if next_is(43) { (TokenKind::Inc, p + 2) } else { (TokenKind::Plus, p + 1) }
    } else if b == 45 {
        if next_is(45) { (TokenKind::Dec, p + 2) } else { (TokenKind::Minus, p + 1) }
    } else if b == 42 {
        (TokenKind::Star, p + 1)
    } else if b == 37 {
        (TokenKind::Percent, p + 1)
    } else if b == 47 {
        (TokenKind::Slash, p + 1)
    } else if b == 61 {
        if next_is(61) { (TokenKind::Eq, p + 2) } else { (TokenKind::Assign, p + 1) }
    } else if b == 33 {
        if next_is(61) { (TokenKind::Neq, p + 2) } else { (TokenKind::Not, p + 1) }
    } else if b == 60 {
        if next_is(61) { (TokenKind::Le, p + 2) } else { (TokenKind::Lt, p + 1) }
    } else if b == 62 {
        if next_is(61) { (TokenKind::Ge, p + 2) } else { (TokenKind::Gt, p + 1) }
    } else if b == 38 {
        if next_is(38) { (TokenKind::And, p + 2) } else { (TokenKind::Unknown, p + 1) }
    } else if b == 124 {
        if next_is(124) { (TokenKind::Or, p + 2) } else { (TokenKind::Unknown, p + 1) }
    } else if b == 59 {
        (TokenKind::Semicolon, p + 1)
    } else if b == 44 {
        (TokenKind::Comma, p + 1)
    } else if b == 40 {
        (TokenKind::LParen, p + 1)
    } else if b == 41 {
        (TokenKind::RParen, p + 1)
    } else if b == 91 {
        (TokenKind::LBracket, p + 1)
    } else if b == 93 {
        (TokenKind::RBracket, p + 1)
    } else if b == 123 {
        (TokenKind::LBrace, p + 1)
    } else if b == 125 {
        (TokenKind::RBrace, p + 1)
    } else {
        (TokenKind::Unknown, p + 1)
    }
}

/// Kind and end of the token that starts at byte `p` (which is not trivia
/// and not the end of input).
pub open spec fn scan_at(s: Seq<u8>, p: int) -> (TokenKind, int) {
    if is_alpha_byte(s[p]) || s[p] == 95 {
        let e = word_end(s, p + 1);
        (if is_keyword(s.subrange(p, e)) { TokenKind::Keyword } else { TokenKind::Ident }, e)
    } else if starts_number(s, p) {
        number_span(s, p)
    } else {
        symbol_span(s, p)
    }
}

/// Kind, start and end of the token that a scanner standing at `pos`
/// returns next; at the end of input it is an empty `Eof` token.
pub open spec fn next_span(s: Seq<u8>, pos: int) -> (TokenKind, int, int) {
    let p = skip_trivia(s, pos);
    if p >= s.len() {
        (TokenKind::Eof, p, p)
    } else {
        let (k, e) = scan_at(s, p);
        (k, p, e)
    }
}

pub proof fn lemma_next_span(s: Seq<u8>, pos: int)
    requires
        0 <= pos <= s.len(),
    ensures
        ({
            let (k, st, en) = next_span(s, pos);
            &&& pos <= st <= en <= s.len()
            &&& (k == TokenKind::Eof <==> st == s.len())
            &&& (k == TokenKind::Eof ==> en == st)
            &&& (k != TokenKind::Eof ==> st < en)
        }),
{
    lemma_skip_trivia(s, pos);
    let p = skip_trivia(s, pos);
    if p < s.len() {
        let b = s[p];
        if is_alpha_byte(b) || b == 95 {
            lemma_word_end(s, p + 1);
        } else if starts_number(s, p) {
            if b != 46 {
                assert(digits_end(s, p) == digits_end(s, p + 1));
                lemma_digits_end(s, p + 1);
            }
            if b == 46 {
                lemma_digits_end(s, p + 1);
                let m = digits_end(s, p + 1);
                lemma_exponent(s, m);
            } else {
                lemma_digits_end(s, p);
                let d = digits_end(s, p);
                if d < s.len() && s[d] == 46 {
                    lemma_digits_end(s, d + 1);
                    lemma_exponent(s, digits_end(s, d + 1));
                } else {
                    lemma_exponent(s, d);
                }
            }
        }
    }
}

proof fn lemma_exponent(s: Seq<u8>, p: int)
    requires
        0 <= p <= s.len(),
    ensures
        p <= exponent_end(s, p).0 <= s.len(),
{
    if p < s.len() && (s[p] == 101 || s[p] == 69) {
        if p + 1 < s.len() && (s[p + 1] == 43 || s[p + 1] == 45) {
            lemma_digits_end(s, p + 2);
        } else {
            lemma_digits_end(s, p + 1);
        }
    }
}

/// The whole token stream of `s` from byte `pos` on, as (kind, start, end)
/// spans; it stops after the first `Eof`.
pub open spec fn spec_tokens(s: Seq<u8>, pos: int) -> Seq<(TokenKind, int, int)>
    decreases s.len() - pos,
{
    if pos < 0 || pos > s.len() {
        seq![]
    } else {
        let span = next_span(s, pos);
        proof {
            lemma_next_span(s, pos);
        }
        if span.0 == TokenKind::Eof {
            seq![span]
        } else {
            seq![span] + spec_tokens(s, span.2)
        }
    }
}

/// The token stream from any position ends with an `Eof` token at the end
/// of the input and holds no other `Eof`; the spans lie in the source in
/// order, without overlap, and only the `Eof` span is empty.
/// At the end of the input the scanner stays: scanning again from where an
/// `Eof` token ended gives the same empty `Eof` token, and a scanner standing
/// at the end scans nothing but `Eof`.
pub proof fn law_eof_repeats(s: Seq<u8>, pos: int)
    requires
        0 <= pos <= s.len(),
    ensures
        next_span(s, s.len() as int) == (TokenKind::Eof, s.len() as int, s.len() as int),
        next_span(s, pos).0 == TokenKind::Eof ==> next_span(s, pos) == next_span(s, next_span(s, pos).2),
{
    lemma_next_span(s, pos);
}

pub proof fn lemma_token_stream(s: Seq<u8>, pos: int)
    requires
        0 <= pos <= s.len(),
    ensures
        ({
            let t = spec_tokens(s, pos);
            &&& t.len() >= 1
            &&& t.last().0 == TokenKind::Eof
            &&& t.last().1 == s.len()
            &&& forall|i: int| 0 <= i < t.len() - 1 ==> (#[trigger] t[i]).0 != TokenKind::Eof
            &&& forall|i: int| 0 <= i < t.len() ==> pos <= (#[trigger] t[i]).1 <= t[i].2 <= s.len()
            &&& forall|i: int| 0 <= i < t.len() - 1 ==> (#[trigger] t[i]).1 < t[i].2
            &&& forall|i: int, j: int| 0 <= i < j < t.len() ==> (#[trigger] t[i]).2 <= (#[trigger] t[j]).1
        }),
    decreases s.len() - pos,
{
    lemma_next_span(s, pos);
    let span = next_span(s, pos);
    let t = spec_tokens(s, pos);
    if span.0 != TokenKind::Eof {
        let rest = spec_tokens(s, span.2);
        lemma_token_stream(s, span.2);
        assert(t == seq![span] + rest);
        assert forall|i: int| 0 <= i < t.len() - 1 implies (#[trigger] t[i]).0 != TokenKind::Eof by {
            if i > 0 {
                assert(t[i] == rest[i - 1]);
            }
        }
        assert forall|i: int| 0 <= i < t.len() implies pos <= (#[trigger] t[i]).1 <= t[i].2 <= s.len() by {
            if i > 0 {
                assert(t[i] == rest[i - 1]);
            }
        }
        assert forall|i: int| 0 <= i < t.len() - 1 implies (#[trigger] t[i]).1 < t[i].2 by {
            if i > 0 {
                assert(t[i] == rest[i - 1]);
            }
        }
        assert forall|i: int, j: int| 0 <= i < j < t.len() implies (#[trigger] t[i]).2 <= (#[trigger] t[j]).1 by {
            assert(t[j] == rest[j - 1]);
            if i > 0 {
                assert(t[i] == rest[i - 1]);
            }
        }
    }
}

// ---------------------------------------------------------------------------
// Lexemes
// ---------------------------------------------------------------------------

/// What `String::from_utf8_lossy` makes of a byte sequence.
pub uninterp spec fn utf8_lossy(bytes: Seq<u8>) -> Seq<char>;

pub open spec fn all_ascii(bytes: Seq<u8>) -> bool {
    forall|i: int| 0 <= i < bytes.len() ==> bytes[i] < 128
}

/// The text of a lexeme: ASCII bytes read as the same characters; a single
/// byte outside ASCII, which is never valid UTF-8 alone, reads as U+FFFD.
pub open spec fn lexeme_chars(bytes: Seq<u8>) -> Seq<char> {
    if all_ascii(bytes) {
        Seq::new(bytes.len(), |i: int| bytes[i] as char)
    } else if bytes.len() == 1 {
        seq!['\u{FFFD}']
    } else {
        utf8_lossy(bytes)
    }
}

/// Calls `String::from_utf8_lossy`. Claimed of it: the result is named by
/// `utf8_lossy`; ASCII bytes come back as the same characters; one byte
/// that is not ASCII comes back as one U+FFFD.
#[verifier::external_body]
fn lossy_string(bytes: &[u8]) -> (res: String)
    ensures
        res@ == utf8_lossy(bytes@),
        all_ascii(bytes@) ==> res@ == Seq::new(bytes@.len(), |i: int| bytes@[i] as char),
        bytes@.len() == 1 && bytes@[0] >= 128 ==> res@ == seq!['\u{FFFD}'],
{
    String::from_utf8_lossy(bytes).into_owned()
}

/// A token agrees with a span of the source: same kind, its lexeme is the
/// text of the span, and its line and column are those of the span's start.
pub open spec fn token_matches(t: Token, s: Seq<u8>, span: (TokenKind, int, int)) -> bool {
    &&& t.kind == span.0
    &&& t.lexeme@ == lexeme_chars(s.subrange(span.1, span.2))
    &&& t.line == line_at(s, span.1)
    &&& t.column == column_at(s, span.1)
}

// ---------------------------------------------------------------------------
// The scanner
// ---------------------------------------------------------------------------

fn is_alpha(b: u8) -> (r: bool)
    ensures
        r == is_alpha_byte(b),
{
    (65u8 <= b && b <= 90u8) || (97u8 <= b && b <= 122u8)
}

fn is_digit(b: u8) -> (r: bool)
    ensures
        r == is_digit_byte(b),
{
    48u8 <= b && b <= 57u8
}

fn is_alnum(b: u8) -> (r: bool)
    ensures
        r == (is_alpha_byte(b) || is_digit_byte(b)),
{
    is_alpha(b) || is_digit(b)
}

fn is_space(b: u8) -> (r: bool)
    ensures
        r == is_space_byte(b),
{
    b == 32u8 || b == 9u8 || b == 10u8 || b == 12u8 || b == 13u8
}

impl Scanner {
    /// The source bytes.
    pub closed spec fn bytes(&self) -> Seq<u8> {
        self.src@
    }

    /// The byte offset the scanner stands at.
    pub closed spec fn position(&self) -> int {
        self.pos as int
    }

    pub closed spec fn wf(&self) -> bool {
        &&& self.len == self.src@.len()
        &&& self.len < usize::MAX
        &&& self.pos <= self.len
        &&& self.line == line_at(self.src@, self.pos as int)
        &&& self.column == column_at(self.src@, self.pos as int)
    }

    pub fn new(src: &str) -> (s: Self)
        requires
            src.spec_bytes().len() < usize::MAX,
        ensures
            s.wf(),
            s.bytes() == src.spec_bytes(),
            s.position() == 0,
            s.position() <= s.bytes().len(),
    {
        let bytes = vstd::slice::slice_to_vec(src.as_bytes());
        Scanner { len: bytes.len(), src: bytes, pos: 0, line: 1, column: 1 }
    }

    fn peek_byte(&self) -> (r: Option<u8>)
        requires
            self.wf(),
        ensures
            r == if self.pos < self.len { Some(self.src@[self.pos as int]) } else { None::<u8> },
    {
        if self.pos < self.len {
            Some(self.src[self.pos])
        } else {
            None
        }
    }

    fn peek_next_byte(&self) -> (r: Option<u8>)
        requires
            self.wf(),
        ensures
            r == if self.pos + 1 < self.len {
                Some(self.src@[self.pos + 1])
            } else {
                None::<u8>
            },
    {
        if self.pos + 1 < self.len {
            Some(self.src[self.pos + 1])
        } else {
            None
        }
    }

    fn bump(&mut self) -> (r: Option<u8>)
        requires
            old(self).wf(),
        ensures
            final(self).wf(),
            final(self).src@ == old(self).src@,
            old(self).pos < old(self).len ==> final(self).pos == old(self).pos + 1 && r == Some(
                old(self).src@[old(self).pos as int],
            ),
            old(self).pos >= old(self).len ==> final(self).pos == old(self).pos && r
                == None::<u8>,
    {
        if self.pos >= self.len {
            return None;
        }
        let b = self.src[self.pos];
        proof {
            lemma_position_bounds(self.src@, self.pos + 1);
        }
        self.pos += 1;
        if b == 10u8 {
            self.line += 1;
            self.column = 1;
        } else {
            self.column += 1;
        }
        Some(b)
    }

    fn make_token(&self, kind: TokenKind, start: usize, end: usize, line: usize, column: usize) -> (t: Token)
        requires
            start <= end <= self.src@.len(),
        ensures
            t.kind == kind,
            t.lexeme@ == lexeme_chars(self.src@.subrange(start as int, end as int)),
            t.line == line,
            t.column == column,
    {
        let lexeme = lossy_string(vstd::slice::slice_subrange(self.src.as_slice(), start, end));
        Token { kind, lexeme, line, column }
    }

    fn skip_line_comment_text(&mut self)
        requires
            old(self).wf(),
        ensures
            final(self).wf(),
            final(self).src@ == old(self).src@,
            final(self).pos == line_comment_end(old(self).src@, old(self).pos as int),
            final(self).pos >= old(self).pos,
    {
        proof {
            lemma_line_comment_end(self.src@, self.pos as int);
        }
        while self.pos < self.len && self.src[self.pos] != 10u8
            invariant
                self.wf(),
                self.src@ == old(self).src@,
                line_comment_end(self.src@, self.pos as int) == line_comment_end(
                    old(self).src@,
                    old(self).pos as int,
                ),
            decreases self.len - self.pos,
        {
            self.bump();
        }
    }

    fn skip_block_comment_text(&mut self)
        requires
            old(self).wf(),
        ensures
            final(self).wf(),
            final(self).src@ == old(self).src@,
            final(self).pos == block_comment_end(old(self).src@, old(self).pos as int),
            final(self).pos >= old(self).pos,
    {
        proof {
            lemma_block_comment_end(self.src@, self.pos as int);
        }
        loop
            invariant_except_break
                block_comment_end(self.src@, self.pos as int) == block_comment_end(
                    old(self).src@,
                    old(self).pos as int,
                ),
            invariant
                self.wf(),
                self.src@ == old(self).src@,
            ensures
                self.wf(),
                self.src@ == old(self).src@,
                self.pos == block_comment_end(old(self).src@, old(self).pos as int),
            decreases self.len - self.pos,
        {
            match self.peek_byte() {
                None => break,
                Some(42u8) => {
                    let ghost q = self.pos as int;
                    self.bump();
                    if let Some(47u8) = self.peek_byte() {
                        assert(block_comment_end(self.src@, q) == q + 2);
                        self.bump();
                        break;
                    }
                },
                _ => {
                    self.bump();
                },
            }
        }
    }

    fn skip_whitespace_and_comments(&mut self)
        requires
            old(self).wf(),
        ensures
            final(self).wf(),
            final(self).src@ == old(self).src@,
            final(self).pos == skip_trivia(old(self).src@, old(self).pos as int),
    {
        loop
            invariant
                self.wf(),
                self.src@ == old(self).src@,
                skip_trivia(self.src@, self.pos as int) == skip_trivia(
                    old(self).src@,
                    old(self).pos as int,
                ),
            ensures
                self.wf(),
                self.src@ == old(self).src@,
                self.pos == skip_trivia(old(self).src@, old(self).pos as int),
            decreases self.len - self.pos,
        {
            match self.peek_byte() {
                Some(b) if is_space(b) => {
                    self.bump();
                },
                Some(47u8) => match self.peek_next_byte() {
                    Some(47u8) => {
                        self.bump();
                        self.bump();
                        self.skip_line_comment_text();
                    },
                    Some(42u8) => {
                        self.bump();
                        self.bump();
                        self.skip_block_comment_text();
                    },
                    _ => break,
                },
                _ => break,
            }
        }
    }

    fn skip_word(&mut self)
        requires
            old(self).wf(),
        ensures
            final(self).wf(),
            final(self).src@ == old(self).src@,
            final(self).pos == word_end(old(self).src@, old(self).pos as int),
            final(self).pos >= old(self).pos,
    {
        proof {
            lemma_word_end(self.src@, self.pos as int);
        }
        loop
            invariant
                self.wf(),
                self.src@ == old(self).src@,
                word_end(self.src@, self.pos as int) == word_end(
                    old(self).src@,
                    old(self).pos as int,
                ),
            ensures
                self.wf(),
                self.src@ == old(self).src@,
                self.pos == word_end(old(self).src@, old(self).pos as int),
            decreases self.len - self.pos,
        {
            match self.peek_byte() {
                Some(c) => {
                    if is_alnum(c) || c == 95u8 {
                        self.bump();
                    } else {
                        break;
                    }
                },
                None => break,
            }
        }
    }

    fn skip_digits(&mut self)
        requires
            old(self).wf(),
        ensures
            final(self).wf(),
            final(self).src@ == old(self).src@,
            final(self).pos == digits_end(old(self).src@, old(self).pos as int),
            final(self).pos >= old(self).pos,
    {
        proof {
            lemma_digits_end(self.src@, self.pos as int);
        }
        loop
            invariant
                self.wf(),
                self.src@ == old(self).src@,
                digits_end(self.src@, self.pos as int) == digits_end(
                    old(self).src@,
                    old(self).pos as int,
                ),
            ensures
                self.wf(),
                self.src@ == old(self).src@,
                self.pos == digits_end(old(self).src@, old(self).pos as int),
            decreases self.len - self.pos,
        {
            match self.peek_byte() {
                Some(c) => {
                    if is_digit(c) {
                        self.bump();
                    } else {
                        break;
                    }
                },
                None => break,
            }
        }
    }
}


impl Scanner {
    /// Whether the bytes in `start..end` spell `word`.
    fn span_equals(&self, start: usize, end: usize, word: &Vec<u8>) -> (r: bool)
        requires
            start <= end <= self.src@.len(),
        ensures
            r == (self.src@.subrange(start as int, end as int) == word@),
    {
        if end - start != word.len() {
            return false;
        }
        let mut i: usize = 0;
        while i < word.len()
            invariant
                start <= end <= self.src@.len(),
                end - start == word@.len(),
                i <= word@.len(),
                forall|j: int| 0 <= j < i ==> self.src@[start + j] == word@[j],
            decreases word@.len() - i,
        {
            if self.src[start + i] != word[i] {
                assert(self.src@.subrange(start as int, end as int)[i as int] != word@[i as int]);
                return false;
            }
            i += 1;
        }
        assert(self.src@.subrange(start as int, end as int) =~= word@);
        true
    }

    /// Whether the bytes in `start..end` are one of the reserved words.
    fn span_is_keyword(&self, start: usize, end: usize) -> (r: bool)
        requires
            start <= end <= self.src@.len(),
        ensures
            r == is_keyword(self.src@.subrange(start as int, end as int)),
    {
        let words: Vec<Vec<u8>> = vec![
            vec![105u8, 110, 116],
            vec![102u8, 108, 111, 97, 116],
            vec![118u8, 111, 105, 100],
            vec![99u8, 111, 110, 115, 116],
            vec![105u8, 102],
            vec![101u8, 108, 115, 101],
            vec![119u8, 104, 105, 108, 101],
            vec![102u8, 111, 114],
            vec![114u8, 101, 116, 117, 114, 110],
            vec![98u8, 114, 101, 97, 107],
            vec![99u8, 111, 110, 116, 105, 110, 117, 101],
        ];
        let ghost w = self.src@.subrange(start as int, end as int);
        assert(is_keyword(w) <==> exists|k: int| 0 <= k < words@.len() && w == words@[k]@);
        let mut k: usize = 0;
        while k < words.len()
            invariant
                start <= end <= self.src@.len(),
                w == self.src@.subrange(start as int, end as int),
                k <= words@.len(),
                is_keyword(w) <==> exists|j: int| 0 <= j < words@.len() && w == #[trigger] words@[j]@,
                forall|j: int| 0 <= j < k ==> w != #[trigger] words@[j]@,
            decreases words@.len() - k,
        {
            if self.span_equals(start, end, &words[k]) {
                assert(w == words@[k as int]@);
                return true;
            }
            k += 1;
        }
        false
    }

    /// Scans the next token, skipping white space and comments before it.
    pub fn next_token(&mut self) -> (t: Token)
        requires
            old(self).wf(),
        ensures
            final(self).wf(),
            final(self).bytes() == old(self).bytes(),
            token_matches(t, old(self).bytes(), next_span(old(self).bytes(), old(self).position())),
            final(self).position() == next_span(old(self).bytes(), old(self).position()).2,
            scan_step(*old(self), *final(self), t),
            final(self).position() <= final(self).bytes().len(),
            t.kind == TokenKind::Eof ==> {
                &&& t.lexeme@ == Seq::<char>::empty()
                &&& t.line == line_at(old(self).bytes(), old(self).bytes().len() as int)
                &&& t.column == column_at(old(self).bytes(), old(self).bytes().len() as int)
                &&& final(self).position() == final(self).bytes().len()
            },
            old(self).position() == old(self).bytes().len() ==> t.kind == TokenKind::Eof,
    {
        proof {
            lemma_next_span(self.src@, self.pos as int);
            law_eof_repeats(self.src@, self.pos as int);
            assert(self.src@.subrange(self.len as int, self.len as int) =~= Seq::<u8>::empty());
            assert(Seq::new(0, |i: int| Seq::<u8>::empty()[i] as char) =~= Seq::<char>::empty());
        }
        let ghost s = self.src@;
        self.skip_whitespace_and_comments();
        let start = self.pos;
        let line = self.line;
        let column = self.column;

        let b_opt = self.peek_byte();
        if b_opt.is_none() {
            return self.make_token(TokenKind::Eof, start, start, line, column);
        }
        let b = b_opt.unwrap();

        if is_alpha(b) || b == 95u8 {
            self.bump();
            self.skip_word();
            let end = self.pos;
            if self.span_is_keyword(start, end) {
                return self.make_token(TokenKind::Keyword, start, end, line, column);
            }
            return self.make_token(TokenKind::Ident, start, end, line, column);
        }

        let dot_then_digit = b == 46u8 && match self.peek_next_byte() {
            Some(n) => is_digit(n),
            None => false,
        };
        if is_digit(b) || dot_then_digit {
            let mut seen_dot = false;
            let mut seen_exp = false;

            if b == 46u8 {
                seen_dot = true;
                self.bump();
                self.skip_digits();
            } else {
                self.skip_digits();
                if let Some(46u8) = self.peek_byte() {
                    seen_dot = true;
                    self.bump();
                    self.skip_digits();
                }
            }
            assert(self.pos == mantissa_end(s, start as int).0);
            assert(seen_dot == mantissa_end(s, start as int).1);

            if let Some(c) = self.peek_byte() {
                if c == 101u8 || c == 69u8 {
                    seen_exp = true;
                    self.bump();
                    if let Some(sign) = self.peek_byte() {
                        if sign == 43u8 || sign == 45u8 {
                            self.bump();
                        }
                    }
                    self.skip_digits();
                }
            }

            let end = self.pos;
            if seen_dot || seen_exp {
                return self.make_token(TokenKind::FloatLiteral, start, end, line, column);
            }
            return self.make_token(TokenKind::IntLiteral, start, end, line, column);
        }

        let kind = match b {
            43u8 => {
                self.bump();
                if let Some(43u8) = self.peek_byte() {
                    self.bump();
                    TokenKind::Inc
                } else {
                    TokenKind::Plus
                }
            },
            45u8 => {
                self.bump();
                if let Some(45u8) = self.peek_byte() {
                    self.bump();
                    TokenKind::Dec
                } else {
                    TokenKind::Minus
                }
            },
            42u8 => {
                self.bump();
                TokenKind::Star
            },
            37u8 => {
                self.bump();
                TokenKind::Percent
            },
            47u8 => {
                self.bump();
                TokenKind::Slash
            },
            61u8 => {
                self.bump();
                if let Some(61u8) = self.peek_byte() {
                    self.bump();
                    TokenKind::Eq
                } else {
                    TokenKind::Assign
                }
            },
            33u8 => {
                self.bump();
                if let Some(61u8) = self.peek_byte() {
                    self.bump();
                    TokenKind::Neq
                } else {
                    TokenKind::Not
                }
            },
            60u8 => {
                self.bump();
                if let Some(61u8) = self.peek_byte() {
                    self.bump();
                    TokenKind::Le
                } else {
                    TokenKind::Lt
                }
            },
            62u8 => {
                self.bump();
                if let Some(61u8) = self.peek_byte() {
                    self.bump();
                    TokenKind::Ge
                } else {
                    TokenKind::Gt
                }
            },
            38u8 => {
                self.bump();
                if let Some(38u8) = self.peek_byte() {
                    self.bump();
                    TokenKind::And
                } else {
                    TokenKind::Unknown
                }
            },
            124u8 => {
                self.bump();
                if let Some(124u8) = self.peek_byte() {
                    self.bump();
                    TokenKind::Or
                } else {
                    TokenKind::Unknown
                }
            },
            59u8 => {
                self.bump();
                TokenKind::Semicolon
            },
            44u8 => {
                self.bump();
                TokenKind::Comma
            },
            40u8 => {
                self.bump();
                TokenKind::LParen
            },
            41u8 => {
                self.bump();
                TokenKind::RParen
            },
            91u8 => {
                self.bump();
                TokenKind::LBracket
            },
            93u8 => {
                self.bump();
                TokenKind::RBracket
            },
            123u8 => {
                self.bump();
                TokenKind::LBrace
            },
            125u8 => {
                self.bump();
                TokenKind::RBrace
            },
            _ => {
                self.bump();
                TokenKind::Unknown
            },
        };
        self.make_token(kind, start, self.pos, line, column)
    }
}

/// One call of `Scanner::next_token`: the source stays the same, the token is
/// the next span of the source from where the scanner stood, and the scanner
/// moves to the end of that span.
pub open spec fn scan_step(before: Scanner, after: Scanner, t: Token) -> bool {
    &&& after.bytes() == before.bytes()
    &&& token_matches(t, before.bytes(), next_span(before.bytes(), before.position()))
    &&& after.position() == next_span(before.bytes(), before.position()).2
}

/// Once the scanner has returned `Eof`, the next call returns the same `Eof`
/// token again, with an empty lexeme and the same line and column, and
/// leaves the scanner where it stood.
pub proof fn law_scanner_eof_repeats(s0: Scanner, s1: Scanner, t0: Token, s2: Scanner, t1: Token)
    requires
        s0.wf(),
        scan_step(s0, s1, t0),
        scan_step(s1, s2, t1),
        t0.kind == TokenKind::Eof,
    ensures
        t1.kind == TokenKind::Eof,
        t1.lexeme@ == Seq::<char>::empty(),
        t0.lexeme@ == t1.lexeme@,
        t1.line == t0.line,
        t1.column == t0.column,
        s2.bytes() == s1.bytes(),
        s2.position() == s1.position(),
{
    let s = s0.bytes();
    law_eof_repeats(s, s0.position());
    lemma_next_span(s, s0.position());
    assert(s.subrange(s.len() as int, s.len() as int) =~= Seq::<u8>::empty());
    assert(Seq::new(0, |i: int| Seq::<u8>::empty()[i] as char) =~= Seq::<char>::empty());
}

/// Maximal munch on operators: wherever the scanner stands, a one-byte
/// comparison, assignment, `!`, `+` or `-` token is never followed by the
/// byte that would have made it a two-byte operator, and each two-byte
/// operator token is exactly its two bytes.  So `>=` is one `Ge` token and
/// never `Gt` followed by `Assign`, and likewise for `<=`, `==`, `!=`, `++`,
/// `--`, `&&` and `||`.
pub proof fn law_maximal_munch(s: Seq<u8>, pos: int)
    requires
        0 <= pos <= s.len(),
    ensures
        ({
            let (k, st, en) = next_span(s, pos);
            let next_byte_is = |c: u8| en < s.len() && s[en] == c;
            &&& (k == TokenKind::Gt ==> en == st + 1 && s[st] == 62 && !next_byte_is(61))
            &&& (k == TokenKind::Lt ==> en == st + 1 && s[st] == 60 && !next_byte_is(61))
            &&& (k == TokenKind::Assign ==> en == st + 1 && s[st] == 61 && !next_byte_is(61))
            &&& (k == TokenKind::Not ==> en == st + 1 && s[st] == 33 && !next_byte_is(61))
            &&& (k == TokenKind::Plus ==> en == st + 1 && s[st] == 43 && !next_byte_is(43))
            &&& (k == TokenKind::Minus ==> en == st + 1 && s[st] == 45 && !next_byte_is(45))
            &&& (k == TokenKind::Ge ==> en == st + 2 && s[st] == 62 && s[st + 1] == 61)
            &&& (k == TokenKind::Le ==> en == st + 2 && s[st] == 60 && s[st + 1] == 61)
            &&& (k == TokenKind::Eq ==> en == st + 2 && s[st] == 61 && s[st + 1] == 61)
            &&& (k == TokenKind::Neq ==> en == st + 2 && s[st] == 33 && s[st + 1] == 61)
            &&& (k == TokenKind::Inc ==> en == st + 2 && s[st] == 43 && s[st + 1] == 43)
            &&& (k == TokenKind::Dec ==> en == st + 2 && s[st] == 45 && s[st + 1] == 45)
            &&& (k == TokenKind::And ==> en == st + 2 && s[st] == 38 && s[st + 1] == 38)
            &&& (k == TokenKind::Or ==> en == st + 2 && s[st] == 124 && s[st + 1] == 124)
        }),
{
    lemma_next_span(s, pos);
    lemma_skip_trivia(s, pos);
}

proof fn lemma_word_run(s: Seq<u8>, p: int)
    requires
        0 <= p <= s.len(),
    ensures
        forall|i: int| p <= i < word_end(s, p) ==> is_word_byte(#[trigger] s[i]),
        word_end(s, p) < s.len() ==> !is_word_byte(s[word_end(s, p)]),
    decreases s.len() - p,
{
    if p < s.len() && is_word_byte(s[p]) {
        lemma_word_run(s, p + 1);
    }
}

proof fn lemma_digit_run(s: Seq<u8>, p: int)
    requires
        0 <= p <= s.len(),
    ensures
        forall|i: int| p <= i < digits_end(s, p) ==> is_digit_byte(#[trigger] s[i]),
        digits_end(s, p) < s.len() ==> !is_digit_byte(s[digits_end(s, p)]),
    decreases s.len() - p,
{
    if p < s.len() && is_digit_byte(s[p]) {
        lemma_digit_run(s, p + 1);
    }
}

/// Each punctuation token is the one byte that spells it, and `/` is a
/// division token only when it starts no comment.
pub proof fn law_punctuation(s: Seq<u8>, pos: int)
    requires
        0 <= pos <= s.len(),
    ensures
        ({
            let (k, st, en) = next_span(s, pos);
            let one = |b: u8| en == st + 1 && s[st] == b;
            &&& (k == TokenKind::Star ==> one(42))
            &&& (k == TokenKind::Slash ==> one(47) && !(en < s.len() && (s[en] == 47 || s[en] == 42)))
            &&& (k == TokenKind::Percent ==> one(37))
            &&& (k == TokenKind::Semicolon ==> one(59))
            &&& (k == TokenKind::Comma ==> one(44))
            &&& (k == TokenKind::LParen ==> one(40))
            &&& (k == TokenKind::RParen ==> one(41))
            &&& (k == TokenKind::LBracket ==> one(91))
            &&& (k == TokenKind::RBracket ==> one(93))
            &&& (k == TokenKind::LBrace ==> one(123))
            &&& (k == TokenKind::RBrace ==> one(125))
        }),
{
    lemma_next_span(s, pos);
    lemma_skip_trivia(s, pos);
    lemma_skip_trivia_lands(s, pos);
}

/// Names and keywords are the longest run of letters, digits and `_` that
/// starts with a letter or `_`; such a run is a keyword exactly when it is
/// one of the reserved words.  An integer literal is the longest run of
/// digits, followed by neither `.` nor an exponent mark.
pub proof fn law_words_and_integers(s: Seq<u8>, pos: int)
    requires
        0 <= pos <= s.len(),
    ensures
        ({
            let (k, st, en) = next_span(s, pos);
            &&& (k == TokenKind::Ident || k == TokenKind::Keyword) ==> {
                &&& st < en
                &&& (is_alpha_byte(s[st]) || s[st] == 95)
                &&& forall|i: int| st <= i < en ==> is_word_byte(#[trigger] s[i])
                &&& !(en < s.len() && is_word_byte(s[en]))
                &&& (k == TokenKind::Keyword <==> is_keyword(s.subrange(st, en)))
            }
            &&& k == TokenKind::IntLiteral ==> {
                &&& st < en
                &&& forall|i: int| st <= i < en ==> is_digit_byte(#[trigger] s[i])
                &&& !(en < s.len() && (is_digit_byte(s[en]) || s[en] == 46 || s[en] == 101 || s[en] == 69))
            }
        }),
{
    lemma_next_span(s, pos);
    lemma_skip_trivia(s, pos);
    let p = skip_trivia(s, pos);
    if p < s.len() {
        if is_alpha_byte(s[p]) || s[p] == 95 {
            lemma_word_run(s, p + 1);
        } else if starts_number(s, p) && s[p] != 46 {
            lemma_digit_run(s, p);
            lemma_digits_end(s, p);
        }
    }
}

/// A scanner standing on `>`, `<`, `=` or `!` followed by `=` scans the
/// two-byte operator `>=`, `<=`, `==` or `!=`; followed by anything else it
/// scans the one-byte `>`, `<`, `=` or `!`.
pub proof fn law_comparison_operators(s: Seq<u8>, p: int)
    requires
        0 <= p < s.len(),
        s[p] == 62 || s[p] == 60 || s[p] == 61 || s[p] == 33,
    ensures
        p + 1 < s.len() && s[p + 1] == 61 ==> next_span(s, p) == (
            if s[p] == 62 { TokenKind::Ge } else if s[p] == 60 { TokenKind::Le } else if s[p] == 61 { TokenKind::Eq } else { TokenKind::Neq },
            p,
            p + 2,
        ),
        !(p + 1 < s.len() && s[p + 1] == 61) ==> next_span(s, p) == (
            if s[p] == 62 { TokenKind::Gt } else if s[p] == 60 { TokenKind::Lt } else if s[p] == 61 { TokenKind::Assign } else { TokenKind::Not },
            p,
            p + 1,
        ),
{
    assert(skip_trivia(s, p) == p);
}

/// Splits source text into tokens; the last token, and only it, is `Eof`.
pub fn tokenize(src: &str) -> (tokens: Vec<Token>)
    requires
        src.spec_bytes().len() < usize::MAX,
    ensures
        tokens@.len() == spec_tokens(src.spec_bytes(), 0).len(),
        forall|i: int|
            0 <= i < tokens@.len() ==> token_matches(
                #[trigger] tokens@[i],
                src.spec_bytes(),
                spec_tokens(src.spec_bytes(), 0)[i],
            ),
{
    let ghost s = src.spec_bytes();
    let mut scanner = Scanner::new(src);
    let mut tokens: Vec<Token> = Vec::new();
    let ghost mut spans: Seq<(TokenKind, int, int)> = seq![];

    loop
        invariant_except_break
            spans + spec_tokens(s, scanner.position()) == spec_tokens(s, 0),
        invariant
            scanner.wf(),
            scanner.bytes() == s,
            0 <= scanner.position() <= s.len(),
            spans.len() == tokens@.len(),
            forall|i: int| 0 <= i < tokens@.len() ==> token_matches(#[trigger] tokens@[i], s, spans[i]),
        ensures
            spans == spec_tokens(s, 0),
        decreases s.len() - scanner.position(),
    {
        let ghost pos = scanner.position();
        proof {
            lemma_next_span(s, pos);
        }
        let token = scanner.next_token();
        let is_eof = token.kind == TokenKind::Eof;
        let ghost span = next_span(s, pos);
        tokens.push(token);
        proof {
            spans = spans.push(span);
        }
        if is_eof {
            assert(spec_tokens(s, pos) == seq![span]);
            break;
        }
        assert(spec_tokens(s, pos) == seq![span] + spec_tokens(s, span.2));
        assert(spans + spec_tokens(s, scanner.position()) =~= spec_tokens(s, 0));
    }
    tokens
}

} // verus!
