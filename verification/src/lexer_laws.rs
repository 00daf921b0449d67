//! Laws that fix what the lexer does, stated over the raw bytes of the
//! source (ASCII codes written out) rather than through the lexer's own
//! rules.
use vstd::prelude::*;

use crate::lexer::{
    ident_bytes, lex_step, number_digits, radix_digits, scan_token, scan_while,
    block_comment_end, line_bytes, string_end, token_at, trivia, LexerState, TriviaSpec,
};
use crate::{LexErrorKind, TokenKind};

verus! {

/// An ASCII decimal digit `0`..`9`.
pub open spec fn ascii_digit(b: u8) -> bool {
    0x30 <= b && b <= 0x39
}

/// An ASCII letter, `A`..`Z` or `a`..`z`.
pub open spec fn ascii_letter(b: u8) -> bool {
    (0x41 <= b && b <= 0x5A) || (0x61 <= b && b <= 0x7A)
}

/// A byte of a word: a letter, a digit, `_` or a byte of a multi-byte
/// UTF-8 sequence.
pub open spec fn word_byte(b: u8) -> bool {
    ascii_letter(b) || ascii_digit(b) || b == 0x5F || b >= 0x80
}

/// Space, tab, carriage return or line break.
pub open spec fn blank(b: u8) -> bool {
    b == 0x20 || b == 0x09 || b == 0x0D || b == 0x0A
}

/// `scan_while` stops exactly at the first byte that fails `p`.
pub proof fn lemma_scan_while_exact(s: Seq<u8>, i: int, e: int, p: spec_fn(u8) -> bool)
    requires
        0 <= i <= e <= s.len(),
        forall|k: int| i <= k < e ==> p(#[trigger] s[k]),
        e == s.len() || !p(s[e]),
    ensures
        scan_while(s, i, p) == e,
    decreases e - i,
{
    if i < e {
        lemma_scan_while_exact(s, i + 1, e, p);
    }
}

// ---------------------------------------------------------------------------
// Words
// ---------------------------------------------------------------------------

/// A word that starts with a letter, `_` or a non-ASCII byte runs over all
/// following letters, digits, `_` and non-ASCII bytes and is an identifier
/// or a keyword; one that starts with an upper-case letter is always an
/// identifier (no keyword has upper-case letters).
pub proof fn law_words(s: Seq<u8>, i: int, e: int)
    requires
        0 <= i < e <= s.len(),
        ascii_letter(s[i]) || s[i] == 0x5F || s[i] >= 0x80,
        forall|k: int| i <= k < e ==> word_byte(#[trigger] s[k]),
        e == s.len() || !word_byte(s[e]),
    ensures
        scan_token(s, i).1 == e,
        ({
            let k = scan_token(s, i).0;
            ||| k is Ident
            ||| k is KwLet
            ||| k is KwFn
            ||| k is KwIf
            ||| k is KwElse
            ||| k is KwMatch
            ||| k is KwStruct
            ||| k is KwReturn
            ||| k is KwFor
            ||| k is KwWhile
            ||| k is KwBreak
            ||| k is KwContinue
            ||| k is Underscore
            ||| k is Union
        }),
        0x41 <= s[i] <= 0x5A ==> scan_token(s, i).0 == TokenKind::Ident,
{
    assert forall|k: int| i <= k < e implies ident_bytes()(#[trigger] s[k]) by {
        assert(word_byte(s[k]));
    }
    lemma_scan_while_exact(s, i, e, ident_bytes());
    let w = s.subrange(i, e);
    assert(w[0] == s[i]);
}

/// The keywords, spelled out in ASCII, and the two one-letter words with a
/// meaning of their own: `_` is the wildcard and `v` the union operator.
/// Every other word is an identifier.
pub open spec fn word_kind(w: Seq<u8>) -> TokenKind {
    if w =~= seq![0x6Cu8, 0x65, 0x74] {
        TokenKind::KwLet  // let
    } else if w =~= seq![0x66u8, 0x6E] {
        TokenKind::KwFn  // fn
    } else if w =~= seq![0x69u8, 0x66] {
        TokenKind::KwIf  // if
    } else if w =~= seq![0x65u8, 0x6C, 0x73, 0x65] {
        TokenKind::KwElse  // else
    } else if w =~= seq![0x6Du8, 0x61, 0x74, 0x63, 0x68] {
        TokenKind::KwMatch  // match
    } else if w =~= seq![0x73u8, 0x74, 0x72, 0x75, 0x63, 0x74] {
        TokenKind::KwStruct  // struct
    } else if w =~= seq![0x72u8, 0x65, 0x74, 0x75, 0x72, 0x6E] {
        TokenKind::KwReturn  // return
    } else if w =~= seq![0x77u8, 0x68, 0x69, 0x6C, 0x65] {
        TokenKind::KwWhile  // while
    } else if w =~= seq![0x66u8, 0x6F, 0x72] {
        TokenKind::KwFor  // for
    } else if w =~= seq![0x62u8, 0x72, 0x65, 0x61, 0x6B] {
        TokenKind::KwBreak  // break
    } else if w =~= seq![0x63u8, 0x6F, 0x6E, 0x74, 0x69, 0x6E, 0x75, 0x65] {
        TokenKind::KwContinue  // continue
    } else if w =~= seq![0x5Fu8] {
        TokenKind::Underscore  // _
    } else if w =~= seq![0x76u8] {
        TokenKind::Union  // v
    } else {
        TokenKind::Ident
    }
}

/// A whole word is lexed as its keyword, or as an identifier.
pub proof fn law_keywords(s: Seq<u8>, i: int, e: int)
    requires
        0 <= i < e <= s.len(),
        ascii_letter(s[i]) || s[i] == 0x5F || s[i] >= 0x80,
        forall|k: int| i <= k < e ==> word_byte(#[trigger] s[k]),
        e == s.len() || !word_byte(s[e]),
    ensures
        scan_token(s, i) == (word_kind(s.subrange(i, e)), e),
{
    law_words(s, i, e);
}

/// A token is a number exactly when it starts with a digit.
pub proof fn law_numbers_start_with_digits(s: Seq<u8>, i: int)
    requires
        0 <= i < s.len(),
    ensures
        (scan_token(s, i).0 is Number) <==> ascii_digit(s[i]),
{
}

// ---------------------------------------------------------------------------
// Numbers
// ---------------------------------------------------------------------------

/// Digits then an exponent, `e` or `E`, an optional sign and digits form
/// one number.
pub proof fn law_number_exponent(s: Seq<u8>, i: int, m: int, p: int, n: int)
    requires
        0 <= i < m < s.len(),
        forall|k: int| i <= k < m ==> ascii_digit(#[trigger] s[k]),
        s[m] == 0x65 || s[m] == 0x45,
        p == (if m + 1 < s.len() && (s[m + 1] == 0x2B || s[m + 1] == 0x2D) {
            m + 2
        } else {
            m + 1
        }),
        p <= n <= s.len(),
        forall|k: int| p <= k < n ==> ascii_digit(#[trigger] s[k]),
        n == s.len() || !(ascii_digit(s[n]) || s[n] == 0x5F),
    ensures
        scan_token(s, i) == (TokenKind::Number, n),
{
    lemma_scan_while_exact(s, i, m, number_digits());
    lemma_scan_while_exact(s, p, n, number_digits());
}

/// Digits, a `.` followed by a digit, a blank or the end, then digits form
/// one number.
pub proof fn law_number_fraction(s: Seq<u8>, i: int, m: int, n: int)
    requires
        0 <= i < m < s.len(),
        forall|k: int| i <= k < m ==> ascii_digit(#[trigger] s[k]),
        s[m] == 0x2E,
        m + 1 == s.len() || ascii_digit(s[m + 1]) || blank(s[m + 1]),
        m + 1 <= n <= s.len(),
        forall|k: int| m + 1 <= k < n ==> ascii_digit(#[trigger] s[k]),
        n == s.len() || !(ascii_digit(s[n]) || s[n] == 0x5F || s[n] == 0x65 || s[n] == 0x45),
    ensures
        scan_token(s, i) == (TokenKind::Number, n),
{
    lemma_scan_while_exact(s, i, m, number_digits());
    lemma_scan_while_exact(s, m + 1, n, number_digits());
}

/// Digits followed by a `.` that a byte other than a digit or a blank
/// follows: the number stops before the `.`.
pub proof fn law_number_stops_before_dot(s: Seq<u8>, i: int, m: int)
    requires
        0 <= i < m,
        m + 1 < s.len(),
        forall|k: int| i <= k < m ==> ascii_digit(#[trigger] s[k]),
        s[m] == 0x2E,
        !ascii_digit(s[m + 1]) && !blank(s[m + 1]),
    ensures
        scan_token(s, i) == (TokenKind::Number, m),
        scan_token(s, m).0 is Dot || scan_token(s, m).0 is DotDot,
{
    lemma_scan_while_exact(s, i, m, number_digits());
}

/// Digits, `r` and a run of letters, digits and `_` form one number.
pub proof fn law_number_radix(s: Seq<u8>, i: int, m: int, n: int)
    requires
        0 <= i < m < s.len(),
        forall|k: int| i <= k < m ==> ascii_digit(#[trigger] s[k]),
        s[m] == 0x72,
        m + 1 <= n <= s.len(),
        forall|k: int|
            m + 1 <= k < n ==> (ascii_letter(#[trigger] s[k]) || ascii_digit(s[k]) || s[k]
                == 0x5F),
        n == s.len() || !(ascii_letter(s[n]) || ascii_digit(s[n]) || s[n] == 0x5F),
    ensures
        scan_token(s, i) == (TokenKind::Number, n),
{
    lemma_scan_while_exact(s, i, m, number_digits());
    lemma_scan_while_exact(s, m + 1, n, radix_digits());
}

// ---------------------------------------------------------------------------
// Strings
// ---------------------------------------------------------------------------

/// Bytes of a string body that are neither a quote nor a backslash.
pub open spec fn plain_string_bytes(s: Seq<u8>, a: int, b: int) -> bool {
    forall|k: int| a <= k < b ==> #[trigger] s[k] != 0x22 && s[k] != 0x5C
}

proof fn lemma_string_end_plain(s: Seq<u8>, a: int, b: int)
    requires
        0 <= a <= b <= s.len(),
        plain_string_bytes(s, a, b),
    ensures
        string_end(s, a) == string_end(s, b),
    decreases b - a,
{
    if a < b {
        lemma_string_end_plain(s, a + 1, b);
    }
}

proof fn lemma_string_end_reads_forward(s: Seq<u8>, t: Seq<u8>, j: int)
    requires
        0 <= j,
        s.len() == t.len(),
        forall|k: int| j <= k < s.len() ==> #[trigger] s[k] == t[k],
    ensures
        string_end(s, j) == string_end(t, j),
    decreases s.len() - j,
{
    if j < s.len() {
        if s[j] == 0x5C {
            if j + 1 < s.len() {
                lemma_string_end_reads_forward(s, t, j + 2);
            }
        } else if s[j] != 0x22 {
            lemma_string_end_reads_forward(s, t, j + 1);
        }
    }
}

/// A string without backslashes ends at its first closing quote.
pub proof fn law_plain_string(s: Seq<u8>, i: int, q: int)
    requires
        0 <= i < q < s.len(),
        s[i] == 0x22,
        s[q] == 0x22,
        plain_string_bytes(s, i + 1, q),
    ensures
        scan_token(s, i) == (TokenKind::Str, q + 1),
{
    lemma_string_end_plain(s, i + 1, q);
}

/// A string that no quote closes runs to the end of the source as an
/// unterminated-string error.
pub proof fn law_unterminated_string(s: Seq<u8>, i: int)
    requires
        0 <= i < s.len(),
        s[i] == 0x22,
        plain_string_bytes(s, i + 1, s.len() as int),
    ensures
        scan_token(s, i) == (TokenKind::Error(LexErrorKind::UnterminatedString), s.len() as int),
{
    lemma_string_end_plain(s, i + 1, s.len() as int);
}

/// A backslash in a string escapes the byte after it, whatever that byte
/// is: replacing it changes neither the kind nor the end of the token. So
/// an escaped quote does not close the string, and an escaped backslash
/// does not escape the byte after it.
pub proof fn law_escape_hides_next_byte(s: Seq<u8>, i: int, j: int, c: u8)
    requires
        0 <= i < j,
        j + 1 < s.len(),
        s[i] == 0x22,
        plain_string_bytes(s, i + 1, j),
        s[j] == 0x5C,
    ensures
        scan_token(s, i) == scan_token(s.update(j + 1, c), i),
{
    let t = s.update(j + 1, c);
    lemma_string_end_plain(s, i + 1, j);
    assert(plain_string_bytes(t, i + 1, j)) by {
        assert forall|k: int| i + 1 <= k < j implies #[trigger] t[k] != 0x22 && t[k] != 0x5C by {
            assert(t[k] == s[k]);
        }
    }
    lemma_string_end_plain(t, i + 1, j);
    lemma_string_end_reads_forward(s, t, j + 2);
}

// ---------------------------------------------------------------------------
// Punctuation and operators
// ---------------------------------------------------------------------------

/// The byte after `i` is `c`.
pub open spec fn next_is(s: Seq<u8>, i: int, c: u8) -> bool {
    i + 1 < s.len() && s[i + 1] == c
}

/// Each one-byte punctuation mark is a token of its own.
pub proof fn law_punctuation(s: Seq<u8>, i: int)
    requires
        0 <= i < s.len(),
    ensures
        s[i] == 0x28 ==> scan_token(s, i) == (TokenKind::LParen, i + 1),
        s[i] == 0x29 ==> scan_token(s, i) == (TokenKind::RParen, i + 1),
        s[i] == 0x7B ==> scan_token(s, i) == (TokenKind::LBrace, i + 1),
        s[i] == 0x7D ==> scan_token(s, i) == (TokenKind::RBrace, i + 1),
        s[i] == 0x5B ==> scan_token(s, i) == (TokenKind::LBracket, i + 1),
        s[i] == 0x5D ==> scan_token(s, i) == (TokenKind::RBracket, i + 1),
        s[i] == 0x2C ==> scan_token(s, i) == (TokenKind::Comma, i + 1),
        s[i] == 0x3A ==> scan_token(s, i) == (TokenKind::Colon, i + 1),
        s[i] == 0x3B ==> scan_token(s, i) == (TokenKind::Semi, i + 1),
        s[i] == 0x5E ==> scan_token(s, i) == (TokenKind::Caret, i + 1),
        s[i] == 0x3F ==> scan_token(s, i) == (TokenKind::Question, i + 1),
        s[i] == 0x25 ==> scan_token(s, i) == (TokenKind::Percent, i + 1),
{
}

/// Operators take the longest match: a second byte that forms a two-byte
/// operator joins it; otherwise the first byte is a one-byte operator,
/// whatever follows it.
pub proof fn law_operators(s: Seq<u8>, i: int)
    requires
        0 <= i < s.len(),
    ensures
        s[i] == 0x2E ==> scan_token(s, i) == if next_is(s, i, 0x2E) {
            (TokenKind::DotDot, i + 2)
        } else {
            (TokenKind::Dot, i + 1)
        },
        s[i] == 0x2B ==> scan_token(s, i) == if next_is(s, i, 0x3D) {
            (TokenKind::PlusEq, i + 2)
        } else {
            (TokenKind::Plus, i + 1)
        },
        s[i] == 0x2D ==> scan_token(s, i) == if next_is(s, i, 0x3E) {
            (TokenKind::Arrow, i + 2)
        } else if next_is(s, i, 0x3D) {
            (TokenKind::MinusEq, i + 2)
        } else {
            (TokenKind::Minus, i + 1)
        },
        s[i] == 0x2A ==> scan_token(s, i) == if next_is(s, i, 0x3D) {
            (TokenKind::StarEq, i + 2)
        } else {
            (TokenKind::Star, i + 1)
        },
        s[i] == 0x2F ==> scan_token(s, i) == if next_is(s, i, 0x3D) {
            (TokenKind::SlashEq, i + 2)
        } else {
            (TokenKind::Slash, i + 1)
        },
        s[i] == 0x3D ==> scan_token(s, i) == if next_is(s, i, 0x3E) {
            (TokenKind::FatArrow, i + 2)
        } else if next_is(s, i, 0x3D) {
            (TokenKind::EqEq, i + 2)
        } else {
            (TokenKind::Eq, i + 1)
        },
        s[i] == 0x21 ==> scan_token(s, i) == if next_is(s, i, 0x3D) {
            (TokenKind::Ne, i + 2)
        } else {
            (TokenKind::Bang, i + 1)
        },
        s[i] == 0x3C ==> scan_token(s, i) == if next_is(s, i, 0x3D) {
            (TokenKind::Le, i + 2)
        } else {
            (TokenKind::Lt, i + 1)
        },
        s[i] == 0x3E ==> scan_token(s, i) == if next_is(s, i, 0x3D) {
            (TokenKind::Ge, i + 2)
        } else {
            (TokenKind::Gt, i + 1)
        },
        s[i] == 0x26 ==> scan_token(s, i) == if next_is(s, i, 0x26) {
            (TokenKind::AmpAmp, i + 2)
        } else {
            (TokenKind::Amp, i + 1)
        },
        s[i] == 0x7C ==> scan_token(s, i) == if next_is(s, i, 0x7C) {
            (TokenKind::PipePipe, i + 2)
        } else {
            (TokenKind::Pipe, i + 1)
        },
{
}

/// The bytes that start a token: word bytes, the quote, punctuation and
/// operators.
pub open spec fn starts_token(b: u8) -> bool {
    ||| word_byte(b)
    ||| b == 0x22
    ||| b == 0x28 || b == 0x29 || b == 0x7B || b == 0x7D || b == 0x5B || b == 0x5D
    ||| b == 0x2C || b == 0x3A || b == 0x3B || b == 0x5E || b == 0x3F || b == 0x25
    ||| b == 0x2E || b == 0x2B || b == 0x2D || b == 0x2A || b == 0x2F || b == 0x3D
    ||| b == 0x21 || b == 0x3C || b == 0x3E || b == 0x26 || b == 0x7C
}

/// Any other byte is an invalid-character error of one byte.
pub proof fn law_invalid_bytes(s: Seq<u8>, i: int)
    requires
        0 <= i < s.len(),
        !starts_token(s[i]),
    ensures
        scan_token(s, i) == (TokenKind::Error(LexErrorKind::InvalidChar), i + 1),
{
}

// ---------------------------------------------------------------------------
// Comments
// ---------------------------------------------------------------------------

/// No comment opens or closes in `[a, b)`: no `/` there is followed by `*`
/// and no `*` by `/`.
pub open spec fn no_comment_marks(s: Seq<u8>, a: int, b: int) -> bool {
    forall|k: int|
        a <= k < b ==> !(#[trigger] s[k] == 0x2F && next_is(s, k, 0x2A)) && !(s[k] == 0x2A
            && next_is(s, k, 0x2F))
}

/// A line break lies in `[a, b)`.
pub open spec fn has_line_break(s: Seq<u8>, a: int, b: int) -> bool {
    exists|k: int| a <= k < b && s[k] == 0x0A
}

proof fn lemma_line_break_step(s: Seq<u8>, a: int, b: int, nl: bool)
    requires
        a < b,
    ensures
        (nl || s[a] == 0x0A || has_line_break(s, a + 1, b)) == (nl || has_line_break(s, a, b)),
{
    if has_line_break(s, a, b) {
        let k = choose|k: int| a <= k < b && s[k] == 0x0A;
        if k != a {
            assert(a + 1 <= k < b && s[k] == 0x0A);
        }
    }
    if has_line_break(s, a + 1, b) {
        let k = choose|k: int| a + 1 <= k < b && s[k] == 0x0A;
        assert(a <= k < b && s[k] == 0x0A);
    }
    if s[a] == 0x0A {
        assert(a <= a < b && s[a] == 0x0A);
    }
}

proof fn lemma_block_over_plain(s: Seq<u8>, j: int, k: int, depth: nat, nl: bool)
    requires
        0 <= j <= k <= s.len(),
        no_comment_marks(s, j, k),
    ensures
        block_comment_end(s, j, depth, nl) == block_comment_end(s, k, depth, nl || has_line_break(
            s,
            j,
            k,
        )),
    decreases k - j,
{
    if j < k {
        assert(!(s[j] == 0x2F && next_is(s, j, 0x2A)) && !(s[j] == 0x2A && next_is(s, j, 0x2F)));
        lemma_block_over_plain(s, j + 1, k, depth, nl || s[j] == 0x0A);
        lemma_line_break_step(s, j, k, nl);
    } else {
        assert(!has_line_break(s, j, k));
    }
}

/// A line comment runs up to the line break, which is not part of it:
/// skipping blanks and comments from its `//` goes on exactly as from the
/// line break.
pub proof fn law_line_comment(s: Seq<u8>, a: int, n: int, nl: bool)
    requires
        0 <= a,
        a + 2 <= n < s.len(),
        s[a] == 0x2F && s[a + 1] == 0x2F,
        !has_line_break(s, a + 2, n),
        s[n] == 0x0A,
    ensures
        trivia(s, a, nl) == trivia(s, n, nl),
{
    assert forall|k: int| a + 2 <= k < n implies line_bytes()(#[trigger] s[k]) by {
        if s[k] == 0x0A {
            assert(has_line_break(s, a + 2, n));
        }
    }
    lemma_scan_while_exact(s, a + 2, n, line_bytes());
}

/// A block comment without nested comments ends at its first `*/`;
/// skipping blanks and comments goes on after it, having seen a line break
/// if the comment holds one.
pub proof fn law_block_comment(s: Seq<u8>, a: int, c: int, nl: bool)
    requires
        0 <= a,
        a + 2 <= c,
        c + 1 < s.len(),
        s[a] == 0x2F && s[a + 1] == 0x2A,
        no_comment_marks(s, a + 2, c),
        s[c] == 0x2A && s[c + 1] == 0x2F,
    ensures
        trivia(s, a, nl) == trivia(s, c + 2, nl || has_line_break(s, a + 2, c)),
{
    lemma_block_over_plain(s, a + 2, c, 1, nl);
}

/// Block comments nest: in `/* A /* B */ C */` (with no comment marks in A,
/// B and C) the comment ends at the second `*/`.
pub proof fn law_nested_block_comment(s: Seq<u8>, a: int, b: int, c: int, d: int, nl: bool)
    requires
        0 <= a,
        a + 2 <= b,
        b + 2 <= c,
        c + 2 <= d,
        d + 1 < s.len(),
        s[a] == 0x2F && s[a + 1] == 0x2A,
        no_comment_marks(s, a + 2, b),
        s[b] == 0x2F && s[b + 1] == 0x2A,
        no_comment_marks(s, b + 2, c),
        s[c] == 0x2A && s[c + 1] == 0x2F,
        no_comment_marks(s, c + 2, d),
        s[d] == 0x2A && s[d + 1] == 0x2F,
    ensures
        trivia(s, a, nl) == trivia(
            s,
            d + 2,
            nl || has_line_break(s, a + 2, b) || has_line_break(s, b + 2, c) || has_line_break(
                s,
                c + 2,
                d,
            ),
        ),
{
    lemma_block_over_plain(s, a + 2, b, 1, nl);
    let nl1 = nl || has_line_break(s, a + 2, b);
    lemma_block_over_plain(s, b + 2, c, 2, nl1);
    let nl2 = nl1 || has_line_break(s, b + 2, c);
    lemma_block_over_plain(s, c + 2, d, 1, nl2);
}

/// A block comment that is never closed makes the lexer hand out an
/// unclosed-comment error from its `/*` to the end of the source (after
/// a semicolon, if one is due there).
pub proof fn law_unclosed_block_comment(s: Seq<u8>, a: int, last: TokenKind)
    requires
        0 <= a,
        a + 2 <= s.len() <= u32::MAX,
        s[a] == 0x2F && s[a + 1] == 0x2A,
        no_comment_marks(s, a + 2, s.len() as int),
        !statement_ending_kind(last),
    ensures
        lex_step(LexerState { src: s, pos: a, last, pending: None }).0 == token_at(
            TokenKind::Error(LexErrorKind::UnterminatedBlockComment),
            a,
            s.len() as int,
        ),
{
    lemma_block_over_plain(s, a + 2, s.len() as int, 1, false);
}

// ---------------------------------------------------------------------------
// Semicolon insertion
// ---------------------------------------------------------------------------

/// The kinds of token after which a line break ends a statement: literals,
/// names, the wildcard, closing brackets, and `return`, `break` and
/// `continue`.
pub open spec fn statement_ending_kind(k: TokenKind) -> bool {
    k == TokenKind::Number || k == TokenKind::Str || k == TokenKind::Ident || k
        == TokenKind::Underscore || k == TokenKind::RParen || k == TokenKind::RBracket || k
        == TokenKind::RBrace || k == TokenKind::KwReturn || k == TokenKind::KwBreak || k
        == TokenKind::KwContinue
}

/// A closing bracket.
pub open spec fn closer(b: u8) -> bool {
    b == 0x29 || b == 0x5D || b == 0x7D
}

proof fn lemma_trivia_over_blanks(s: Seq<u8>, a: int, q: int, nl: bool)
    requires
        0 <= a <= q < s.len(),
        forall|k: int| a <= k < q ==> blank(#[trigger] s[k]),
        !blank(s[q]),
        s[q] != 0x2F,
    ensures
        trivia(s, a, nl) == (TriviaSpec {
            end: q,
            crossed: nl || exists|k: int| a <= k < q && s[k] == 0x0A,
            semi_pos: q,
            unterminated: false,
        }),
    decreases q - a,
{
    if a < q {
        lemma_trivia_over_blanks(s, a + 1, q, nl || s[a] == 0x0A);
        if exists|k: int| a + 1 <= k < q && s[k] == 0x0A {
            let k = choose|k: int| a + 1 <= k < q && s[k] == 0x0A;
            assert(a <= k < q && s[k] == 0x0A);
        }
        if s[a] == 0x0A {
            assert(a <= a < q && s[a] == 0x0A);
        }
        if exists|k: int| a <= k < q && s[k] == 0x0A {
            let k = choose|k: int| a <= k < q && s[k] == 0x0A;
            if k != a {
                assert(a + 1 <= k < q && s[k] == 0x0A);
            }
        }
    }
}

/// After a token of kind `last`, blanks up to the next token at `q`: a
/// zero-width semicolon at `q` comes exactly when `last` ends a statement,
/// the blanks hold a line break, and no closing bracket stands at `q`;
/// otherwise the token at `q` comes, and it is no semicolon.
pub proof fn law_semicolon_insertion(s: Seq<u8>, pos: int, q: int, last: TokenKind)
    requires
        0 <= pos <= q < s.len() <= u32::MAX,
        forall|k: int| pos <= k < q ==> blank(#[trigger] s[k]),
        word_byte(s[q]) || s[q] == 0x22 || s[q] == 0x28 || closer(s[q]),
    ensures
        ({
            let t = lex_step(LexerState { src: s, pos, last, pending: None }).0;
            let inserted = statement_ending_kind(last) && (exists|k: int|
                pos <= k < q && s[k] == 0x0A) && !closer(s[q]);
            &&& inserted ==> t == token_at(TokenKind::Semi, q, q)
            &&& !inserted ==> t.span.start == q && t.kind != TokenKind::Semi
        }),
{
    lemma_trivia_over_blanks(s, pos, q, false);
    crate::lexer::lemma_scan_token(s, q);
    if ascii_letter(s[q]) || s[q] == 0x5F || s[q] >= 0x80 {
        let e = scan_while(s, q, ident_bytes());
        crate::lexer::lemma_scan_while(s, q, ident_bytes());
        assert forall|k: int| q <= k < e implies word_byte(#[trigger] s[k]) by {
            assert(ident_bytes()(s[k]));
        }
        law_words(s, q, e);
    }
}

} // verus!
