//! Turns source bytes into tokens, inserting a semicolon where a statement
//! ends at a line break.
use vstd::prelude::*;
use vstd::slice::slice_subrange;
use vstd::string::StringSliceAdditionalSpecFns;

use crate::{LexErrorKind, Span, Token, TokenKind};

verus! {

// ASCII bytes the lexer looks for.
pub const TAB: u8 = 0x09;
pub const NEWLINE: u8 = 0x0A;
pub const CR: u8 = 0x0D;
pub const SPACE: u8 = 0x20;
pub const BANG: u8 = 0x21;
pub const QUOTE: u8 = 0x22;
pub const PERCENT: u8 = 0x25;
pub const AMP: u8 = 0x26;
pub const LPAREN: u8 = 0x28;
pub const RPAREN: u8 = 0x29;
pub const STAR: u8 = 0x2A;
pub const PLUS: u8 = 0x2B;
pub const COMMA: u8 = 0x2C;
pub const MINUS: u8 = 0x2D;
pub const DOT: u8 = 0x2E;
pub const SLASH: u8 = 0x2F;
pub const ZERO: u8 = 0x30;
pub const NINE: u8 = 0x39;
pub const COLON: u8 = 0x3A;
pub const SEMICOLON: u8 = 0x3B;
pub const LESS: u8 = 0x3C;
pub const EQUALS: u8 = 0x3D;
pub const GREATER: u8 = 0x3E;
pub const QUESTION: u8 = 0x3F;
pub const UPPER_A: u8 = 0x41;
pub const UPPER_E: u8 = 0x45;
pub const UPPER_Z: u8 = 0x5A;
pub const LBRACKET: u8 = 0x5B;
pub const BACKSLASH: u8 = 0x5C;
pub const RBRACKET: u8 = 0x5D;
pub const CARET: u8 = 0x5E;
pub const UNDERSCORE: u8 = 0x5F;
pub const LOWER_A: u8 = 0x61;
pub const LOWER_E: u8 = 0x65;
pub const LOWER_R: u8 = 0x72;
pub const LOWER_Z: u8 = 0x7A;
pub const LBRACE: u8 = 0x7B;
pub const PIPE: u8 = 0x7C;
pub const RBRACE: u8 = 0x7D;

// ---------------------------------------------------------------------------
// Byte classes
// ---------------------------------------------------------------------------

pub open spec fn is_digit_byte(b: u8) -> bool {
    ZERO <= b && b <= NINE
}

pub open spec fn is_alpha_byte(b: u8) -> bool {
    (LOWER_A <= b && b <= LOWER_Z) || (UPPER_A <= b && b <= UPPER_Z)
}

/// Bytes that may continue the digits of a number: digits and `_`.
pub open spec fn is_number_digit(b: u8) -> bool {
    is_digit_byte(b) || b == UNDERSCORE
}

/// Bytes that may follow the `r` of a number with an explicit radix.
pub open spec fn is_radix_digit(b: u8) -> bool {
    is_digit_byte(b) || is_alpha_byte(b) || b == UNDERSCORE
}

/// Bytes that may start an identifier: letters, `_`, and every byte of a
/// multi-byte UTF-8 sequence.
pub open spec fn ident_start_byte(b: u8) -> bool {
    is_alpha_byte(b) || b == UNDERSCORE || b >= 0x80
}

/// Bytes that may continue an identifier.
pub open spec fn ident_continue_byte(b: u8) -> bool {
    is_digit_byte(b) || is_alpha_byte(b) || b == UNDERSCORE || b >= 0x80
}

pub open spec fn number_digits() -> spec_fn(u8) -> bool {
    |b: u8| is_number_digit(b)
}

pub open spec fn radix_digits() -> spec_fn(u8) -> bool {
    |b: u8| is_radix_digit(b)
}

pub open spec fn ident_bytes() -> spec_fn(u8) -> bool {
    |b: u8| ident_continue_byte(b)
}

pub open spec fn line_bytes() -> spec_fn(u8) -> bool {
    |b: u8| b != NEWLINE
}

/// `s[j]` exists and is `c`.
pub open spec fn byte_at(s: Seq<u8>, j: int, c: u8) -> bool {
    0 <= j < s.len() && s[j] == c
}

// ---------------------------------------------------------------------------
// The lexical rules, stated over the source bytes
// ---------------------------------------------------------------------------

/// The end of the longest run of bytes satisfying `p` that starts at `i`.
pub open spec fn scan_while(s: Seq<u8>, i: int, p: spec_fn(u8) -> bool) -> int
    decreases s.len() - i,
{
    if 0 <= i < s.len() && p(s[i]) {
        scan_while(s, i + 1, p)
    } else {
        i
    }
}

pub proof fn lemma_scan_while(s: Seq<u8>, i: int, p: spec_fn(u8) -> bool)
    requires
        0 <= i <= s.len(),
    ensures
        i <= scan_while(s, i, p) <= s.len(),
        forall|j: int| i <= j < scan_while(s, i, p) ==> p(#[trigger] s[j]),
        scan_while(s, i, p) < s.len() ==> !p(s[scan_while(s, i, p)]),
    decreases s.len() - i,
{
    if i < s.len() && p(s[i]) {
        lemma_scan_while(s, i + 1, p);
    }
}

/// Spaces, tabs, carriage returns and line breaks.
pub open spec fn is_blank_byte(b: u8) -> bool {
    b == SPACE || b == TAB || b == CR || b == NEWLINE
}

/// A `.` at `j` belongs to the number before it when a digit, a blank or
/// the end of the source follows it. So `1.25` and `1.` are numbers, while
/// `1..2`, `1.max` and `1.;` keep the `.` as a token of its own.
pub open spec fn fraction_dot_at(s: Seq<u8>, j: int) -> bool {
    &&& byte_at(s, j, DOT)
    &&& (j + 1 >= s.len() || is_digit_byte(s[j + 1]) || is_blank_byte(s[j + 1]))
}

/// The end of a number that starts with the digit at `i`: digits and `_`,
/// then either `r` and radix digits, or an optional fraction (a `.` as
/// [`fraction_dot_at`] allows, and digits) and an optional exponent (`e` or
/// `E`, an optional sign and digits). Digits are not checked against the
/// radix.
pub open spec fn number_end(s: Seq<u8>, i: int) -> int {
    let n1 = scan_while(s, i, number_digits());
    if byte_at(s, n1, LOWER_R) {
        scan_while(s, n1 + 1, radix_digits())
    } else {
        let n2 = if fraction_dot_at(s, n1) {
            scan_while(s, n1 + 1, number_digits())
        } else {
            n1
        };
        if byte_at(s, n2, LOWER_E) || byte_at(s, n2, UPPER_E) {
            let m = if byte_at(s, n2 + 1, PLUS) || byte_at(s, n2 + 1, MINUS) {
                n2 + 2
            } else {
                n2 + 1
            };
            scan_while(s, m, number_digits())
        } else {
            n2
        }
    }
}

/// The body of a string literal that starts at `j` (just after the opening
/// quote): whether a closing quote is found, and where the literal ends.
/// A backslash escapes the byte after it.
pub open spec fn string_end(s: Seq<u8>, j: int) -> (bool, int)
    decreases s.len() - j,
{
    if j < 0 || j >= s.len() {
        (false, j)
    } else if s[j] == QUOTE {
        (true, j + 1)
    } else if s[j] == BACKSLASH {
        if j + 1 < s.len() {
            string_end(s, j + 2)
        } else {
            (false, j + 1)
        }
    } else {
        string_end(s, j + 1)
    }
}

/// The rest of a block comment from `j`, at nesting `depth`, having seen a
/// line break already if `nl`: whether it is closed, where it ends, and
/// whether a line break was crossed.
pub open spec fn block_comment_end(s: Seq<u8>, j: int, depth: nat, nl: bool) -> (bool, int, bool)
    decreases s.len() - j,
{
    if j < 0 || j >= s.len() {
        (false, j, nl)
    } else if s[j] == SLASH && byte_at(s, j + 1, STAR) {
        block_comment_end(s, j + 2, depth + 1, nl)
    } else if s[j] == STAR && byte_at(s, j + 1, SLASH) {
        if depth <= 1 {
            (true, j + 2, nl)
        } else {
            block_comment_end(s, j + 2, (depth - 1) as nat, nl)
        }
    } else {
        block_comment_end(s, j + 1, depth, nl || s[j] == NEWLINE)
    }
}

pub proof fn lemma_block_comment_end(s: Seq<u8>, j: int, depth: nat, nl: bool)
    requires
        0 <= j <= s.len(),
    ensures
        j <= block_comment_end(s, j, depth, nl).1 <= s.len(),
        !block_comment_end(s, j, depth, nl).0 ==> block_comment_end(s, j, depth, nl).1 == s.len(),
        nl ==> block_comment_end(s, j, depth, nl).2,
    decreases s.len() - j,
{
    if j < s.len() {
        if s[j] == SLASH && byte_at(s, j + 1, STAR) {
            lemma_block_comment_end(s, j + 2, depth + 1, nl);
        } else if s[j] == STAR && byte_at(s, j + 1, SLASH) {
            if depth > 1 {
                lemma_block_comment_end(s, j + 2, (depth - 1) as nat, nl);
            }
        } else {
            lemma_block_comment_end(s, j + 1, depth, nl || s[j] == NEWLINE);
        }
    }
}

/// What lies between two tokens: where it ends, whether it crosses a line
/// break, where an inserted semicolon would stand, and whether it ends in a
/// block comment that is never closed.
pub struct TriviaSpec {
    pub end: int,
    pub crossed: bool,
    pub semi_pos: int,
    pub unterminated: bool,
}

/// Skips spaces, tabs, carriage returns, line breaks, line comments (from
/// `//` up to the line break) and (nested) block comments from `i`; `nl`
/// records a line break seen so far.
pub open spec fn trivia(s: Seq<u8>, i: int, nl: bool) -> TriviaSpec
    decreases s.len() - i,
{
    if i < 0 || i >= s.len() {
        TriviaSpec { end: i, crossed: nl, semi_pos: i, unterminated: false }
    } else {
        let b = s[i];
        if b == SPACE || b == TAB || b == CR {
            trivia(s, i + 1, nl)
        } else if b == NEWLINE {
            trivia(s, i + 1, true)
        } else if b == SLASH && byte_at(s, i + 1, SLASH) {
            proof {
                lemma_scan_while(s, i + 2, line_bytes());
            }
            trivia(s, scan_while(s, i + 2, line_bytes()), nl)
        } else if b == SLASH && byte_at(s, i + 1, STAR) {
            let r = block_comment_end(s, i + 2, 1, nl);
            proof {
                lemma_block_comment_end(s, i + 2, 1, nl);
            }
            if r.0 {
                trivia(s, r.1, r.2)
            } else {
                TriviaSpec { end: r.1, crossed: r.2, semi_pos: i, unterminated: true }
            }
        } else {
            TriviaSpec { end: i, crossed: nl, semi_pos: i, unterminated: false }
        }
    }
}

pub proof fn lemma_trivia(s: Seq<u8>, i: int, nl: bool)
    requires
        0 <= i <= s.len(),
    ensures
        i <= trivia(s, i, nl).semi_pos <= trivia(s, i, nl).end <= s.len(),
        trivia(s, i, nl).unterminated ==> trivia(s, i, nl).end == s.len() && trivia(
            s,
            i,
            nl,
        ).semi_pos < s.len(),
        nl ==> trivia(s, i, nl).crossed,
        trivia(s, i, nl).crossed && !nl ==> trivia(s, i, nl).end > i,
    decreases s.len() - i,
{
    if i < s.len() {
        let b = s[i];
        if b == SPACE || b == TAB || b == CR {
            lemma_trivia(s, i + 1, nl);
        } else if b == NEWLINE {
            lemma_trivia(s, i + 1, true);
        } else if b == SLASH && byte_at(s, i + 1, SLASH) {
            lemma_scan_while(s, i + 2, line_bytes());
            lemma_trivia(s, scan_while(s, i + 2, line_bytes()), nl);
        } else if b == SLASH && byte_at(s, i + 1, STAR) {
            lemma_block_comment_end(s, i + 2, 1, nl);
            let r = block_comment_end(s, i + 2, 1, nl);
            if r.0 {
                lemma_trivia(s, r.1, r.2);
            }
        }
    }
}

/// The keyword spelled by `w`, or `Ident` when `w` is no keyword. A lone `_`
/// is the wildcard and a lone `v` is the union type operator.
pub open spec fn keyword_kind(w: Seq<u8>) -> TokenKind {
    if w == seq![0x6Cu8, 0x65u8, 0x74u8] /* let */ {
        TokenKind::KwLet
    } else if w == seq![0x66u8, 0x6Eu8] /* fn */ {
        TokenKind::KwFn
    } else if w == seq![0x69u8, 0x66u8] /* if */ {
        TokenKind::KwIf
    } else if w == seq![0x65u8, 0x6Cu8, 0x73u8, 0x65u8] /* else */ {
        TokenKind::KwElse
    } else if w == seq![0x6Du8, 0x61u8, 0x74u8, 0x63u8, 0x68u8] /* match */ {
        TokenKind::KwMatch
    } else if w == seq![0x73u8, 0x74u8, 0x72u8, 0x75u8, 0x63u8, 0x74u8] /* struct */ {
        TokenKind::KwStruct
    } else if w == seq![0x72u8, 0x65u8, 0x74u8, 0x75u8, 0x72u8, 0x6Eu8] /* return */ {
        TokenKind::KwReturn
    } else if w == seq![0x77u8, 0x68u8, 0x69u8, 0x6Cu8, 0x65u8] /* while */ {
        TokenKind::KwWhile
    } else if w == seq![0x66u8, 0x6Fu8, 0x72u8] /* for */ {
        TokenKind::KwFor
    } else if w == seq![0x62u8, 0x72u8, 0x65u8, 0x61u8, 0x6Bu8] /* break */ {
        TokenKind::KwBreak
    } else if w == seq![0x63u8, 0x6Fu8, 0x6Eu8, 0x74u8, 0x69u8, 0x6Eu8, 0x75u8, 0x65u8] /* continue */ {
        TokenKind::KwContinue
    } else if w == seq![0x5Fu8] /* _ */ {
        TokenKind::Underscore
    } else if w == seq![0x76u8] /* v */ {
        TokenKind::Union
    } else {
        TokenKind::Ident
    }
}

/// The one-byte punctuation tokens.
pub open spec fn single_byte_kind(b: u8) -> Option<TokenKind> {
    if b == LPAREN {
        Some(TokenKind::LParen)
    } else if b == RPAREN {
        Some(TokenKind::RParen)
    } else if b == LBRACE {
        Some(TokenKind::LBrace)
    } else if b == RBRACE {
        Some(TokenKind::RBrace)
    } else if b == LBRACKET {
        Some(TokenKind::LBracket)
    } else if b == RBRACKET {
        Some(TokenKind::RBracket)
    } else if b == COMMA {
        Some(TokenKind::Comma)
    } else if b == COLON {
        Some(TokenKind::Colon)
    } else if b == SEMICOLON {
        Some(TokenKind::Semi)
    } else if b == CARET {
        Some(TokenKind::Caret)
    } else if b == QUESTION {
        Some(TokenKind::Question)
    } else if b == PERCENT {
        Some(TokenKind::Percent)
    } else {
        None
    }
}

/// Operators of one or two bytes, starting at `i`: the longest match wins.
pub open spec fn operator_token(s: Seq<u8>, i: int) -> (TokenKind, int) {
    let b = s[i];
    if b == DOT {
        if byte_at(s, i + 1, DOT) { (TokenKind::DotDot, i + 2) } else { (TokenKind::Dot, i + 1) }
    } else if b == PLUS {
        if byte_at(s, i + 1, EQUALS) { (TokenKind::PlusEq, i + 2) } else { (TokenKind::Plus, i + 1) }
    } else if b == MINUS {
        if byte_at(s, i + 1, GREATER) {
            (TokenKind::Arrow, i + 2)
        } else if byte_at(s, i + 1, EQUALS) {
            (TokenKind::MinusEq, i + 2)
        } else {
            (TokenKind::Minus, i + 1)
        }
    } else if b == STAR {
        if byte_at(s, i + 1, EQUALS) { (TokenKind::StarEq, i + 2) } else { (TokenKind::Star, i + 1) }
    } else if b == SLASH {
        if byte_at(s, i + 1, EQUALS) { (TokenKind::SlashEq, i + 2) } else { (TokenKind::Slash, i + 1) }
    } else if b == EQUALS {
        if byte_at(s, i + 1, GREATER) {
            (TokenKind::FatArrow, i + 2)
        } else if byte_at(s, i + 1, EQUALS) {
            (TokenKind::EqEq, i + 2)
        } else {
            (TokenKind::Eq, i + 1)
        }
    } else if b == BANG {
        if byte_at(s, i + 1, EQUALS) { (TokenKind::Ne, i + 2) } else { (TokenKind::Bang, i + 1) }
    } else if b == LESS {
        if byte_at(s, i + 1, EQUALS) { (TokenKind::Le, i + 2) } else { (TokenKind::Lt, i + 1) }
    } else if b == GREATER {
        if byte_at(s, i + 1, EQUALS) { (TokenKind::Ge, i + 2) } else { (TokenKind::Gt, i + 1) }
    } else if b == AMP {
        if byte_at(s, i + 1, AMP) { (TokenKind::AmpAmp, i + 2) } else { (TokenKind::Amp, i + 1) }
    } else if b == PIPE {
        if byte_at(s, i + 1, PIPE) {
            (TokenKind::PipePipe, i + 2)
        } else {
            (TokenKind::Pipe, i + 1)
        }
    } else {
        (TokenKind::Error(LexErrorKind::InvalidChar), i + 1)
    }
}

/// The token that starts at `i` (after trivia) and where it ends.
pub open spec fn scan_token(s: Seq<u8>, i: int) -> (TokenKind, int) {
    if i < 0 || i >= s.len() {
        (TokenKind::Eof, i)
    } else {
        let b = s[i];
        if is_digit_byte(b) {
            (TokenKind::Number, number_end(s, i))
        } else if ident_start_byte(b) {
            let e = scan_while(s, i, ident_bytes());
            (keyword_kind(s.subrange(i, e)), e)
        } else if b == QUOTE {
            let r = string_end(s, i + 1);
            if r.0 {
                (TokenKind::Str, r.1)
            } else {
                (TokenKind::Error(LexErrorKind::UnterminatedString), r.1)
            }
        } else if single_byte_kind(b) is Some {
            (single_byte_kind(b).unwrap(), i + 1)
        } else {
            operator_token(s, i)
        }
    }
}

/// The token kinds after which a line break ends the statement.
pub open spec fn ends_statement(k: TokenKind) -> bool {
    ||| k is Number
    ||| k is Str
    ||| k is Ident
    ||| k is Underscore
    ||| k is RParen
    ||| k is RBracket
    ||| k is RBrace
    ||| k is KwReturn
    ||| k is KwBreak
    ||| k is KwContinue
}

/// A closing bracket stands at `i`.
pub open spec fn closer_at(s: Seq<u8>, i: int) -> bool {
    byte_at(s, i, RPAREN) || byte_at(s, i, RBRACKET) || byte_at(s, i, RBRACE)
}

/// A token with the byte span `[start, end)`, the positions cut to 32 bits.
pub open spec fn token_at(kind: TokenKind, start: int, end: int) -> Token {
    Token { kind, span: Span { start: start as u32, end: end as u32 } }
}

/// The state of a lexer: the source, the position reached, the kind of the
/// last token handed out, and a token held back for the next call.
pub struct LexerState {
    pub src: Seq<u8>,
    pub pos: int,
    pub last: TokenKind,
    pub pending: Option<Token>,
}

/// The state of a fresh lexer over `src`.
pub open spec fn initial_state(src: Seq<u8>) -> LexerState {
    LexerState { src, pos: 0, last: TokenKind::Semi, pending: None }
}

/// One step of the lexer: the token it hands out and the state after.
///
/// A held-back token goes first. Otherwise trivia is skipped; if it crossed a
/// line break after a token that ends a statement, and no closing bracket
/// follows, an empty `Semi` is handed out at the end of the skipped line and
/// an unclosed-comment error, if any, is held back. Otherwise the error, or
/// else the next token, is handed out.
pub open spec fn lex_step(st: LexerState) -> (Token, LexerState) {
    match st.pending {
        Some(t) => (t, LexerState { last: t.kind, pending: None, ..st }),
        None => {
            let tr = trivia(st.src, st.pos, false);
            let error = token_at(
                TokenKind::Error(LexErrorKind::UnterminatedBlockComment),
                tr.semi_pos,
                tr.end,
            );
            if tr.crossed && ends_statement(st.last) && !closer_at(st.src, tr.end) {
                (
                    token_at(TokenKind::Semi, tr.semi_pos, tr.semi_pos),
                    LexerState {
                        src: st.src,
                        pos: tr.end,
                        last: TokenKind::Semi,
                        pending: if tr.unterminated {
                            Some(error)
                        } else {
                            None
                        },
                    },
                )
            } else if tr.unterminated {
                (error, LexerState { src: st.src, pos: tr.end, last: error.kind, pending: None })
            } else {
                let (kind, end) = scan_token(st.src, tr.end);
                (
                    token_at(kind, tr.end, end),
                    LexerState { src: st.src, pos: end, last: kind, pending: None },
                )
            }
        },
    }
}

// ---------------------------------------------------------------------------
// Laws of the lexer
// ---------------------------------------------------------------------------

pub proof fn lemma_string_end(s: Seq<u8>, j: int)
    requires
        0 <= j <= s.len(),
    ensures
        j <= string_end(s, j).1 <= s.len(),
    decreases s.len() - j,
{
    if j < s.len() && s[j] != QUOTE {
        if s[j] == BACKSLASH {
            if j + 1 < s.len() {
                lemma_string_end(s, j + 2);
            }
        } else {
            lemma_string_end(s, j + 1);
        }
    }
}

pub proof fn lemma_number_end(s: Seq<u8>, i: int)
    requires
        0 <= i < s.len(),
        is_digit_byte(s[i]),
    ensures
        i < number_end(s, i) <= s.len(),
{
    lemma_scan_while(s, i + 1, number_digits());
    assert(scan_while(s, i, number_digits()) == scan_while(s, i + 1, number_digits()));
    let n1 = scan_while(s, i, number_digits());
    if byte_at(s, n1, LOWER_R) {
        lemma_scan_while(s, n1 + 1, radix_digits());
    } else {
        let n2 = if fraction_dot_at(s, n1) {
            lemma_scan_while(s, n1 + 1, number_digits());
            scan_while(s, n1 + 1, number_digits())
        } else {
            n1
        };
        if byte_at(s, n2, LOWER_E) || byte_at(s, n2, UPPER_E) {
            let m = if byte_at(s, n2 + 1, PLUS) || byte_at(s, n2 + 1, MINUS) {
                n2 + 2
            } else {
                n2 + 1
            };
            lemma_scan_while(s, m, number_digits());
        }
    }
}

/// Every token but `Eof` takes at least one byte, and none runs past the end.
pub proof fn lemma_scan_token(s: Seq<u8>, i: int)
    requires
        0 <= i <= s.len(),
    ensures
        (scan_token(s, i).0 is Eof) <==> i == s.len(),
        i == s.len() ==> scan_token(s, i).1 == i,
        i < s.len() ==> i < scan_token(s, i).1 <= s.len(),
{
    if i < s.len() {
        let b = s[i];
        if is_digit_byte(b) {
            lemma_number_end(s, i);
        } else if ident_start_byte(b) {
            lemma_scan_while(s, i + 1, ident_bytes());
            assert(scan_while(s, i, ident_bytes()) == scan_while(s, i + 1, ident_bytes()));
        } else if b == QUOTE {
            lemma_string_end(s, i + 1);
        }
    }
}

/// The states a lexer can reach: the position lies within the source, and
/// a held-back token is an unclosed-comment error that runs to the end of
/// the source, which the lexer has reached.
pub open spec fn valid_state(st: LexerState) -> bool {
    &&& 0 <= st.pos <= st.src.len()
    &&& st.pending matches Some(t) ==> {
        &&& st.pos == st.src.len()
        &&& t.kind == TokenKind::Error(LexErrorKind::UnterminatedBlockComment)
        &&& t.span.end == st.src.len() as u32
        &&& st.src.len() <= u32::MAX ==> t.span.start < t.span.end
    }
}

/// Work left to the lexer: two units per unread byte, one for a held-back token.
pub open spec fn lex_measure(st: LexerState) -> int {
    2 * (st.src.len() - st.pos) + if st.pending is Some {
        1int
    } else {
        0
    }
}

/// One step keeps the state valid and the source unchanged; the token lies
/// between the old and the new position (a held-back token ends there);
/// every step but the one that yields `Eof` strictly reduces the work left,
/// so a lexer reaches `Eof` after at most `2 * len + 1` tokens.
pub proof fn lemma_lex_step(st: LexerState)
    requires
        valid_state(st),
    ensures
        ({
            let (t, next) = lex_step(st);
            &&& valid_state(next)
            &&& next.src == st.src
            &&& st.pos <= next.pos
            &&& next.last == t.kind
            &&& (t.kind is Eof) <==> (next.pos == st.src.len() && st.pending is None && next.pending
                is None && lex_step(st).0 == token_at(TokenKind::Eof, st.src.len() as int, st.src.len() as int))
            &&& !(t.kind is Eof) ==> lex_measure(next) < lex_measure(st)
            &&& st.src.len() <= u32::MAX ==> t.span.start <= t.span.end <= next.pos
            &&& st.src.len() <= u32::MAX && st.pending is None ==> st.pos <= t.span.start
        }),
{
    let s = st.src;
    if st.pending is None {
        lemma_trivia(s, st.pos, false);
        let tr = trivia(s, st.pos, false);
        lemma_scan_token(s, tr.end);
    }
}

/// The state after `n` steps of the lexer.
pub open spec fn lex_steps(st: LexerState, n: nat) -> LexerState
    decreases n,
{
    if n == 0 {
        st
    } else {
        lex_steps(lex_step(st).1, (n - 1) as nat)
    }
}

/// The `n`-th token (counting from 0) that a lexer in state `st` hands out.
pub open spec fn nth_token(st: LexerState, n: nat) -> Token {
    lex_step(lex_steps(st, n)).0
}

/// Taking `n + 1` steps is taking `n` steps and then one more.
pub proof fn lemma_lex_steps_succ(st: LexerState, n: nat)
    ensures
        lex_steps(st, n + 1) == lex_step(lex_steps(st, n)).1,
    decreases n,
{
    let next = lex_step(st).1;
    assert(lex_steps(st, n + 1) == lex_steps(next, n));
    if n > 0 {
        lemma_lex_steps_succ(next, (n - 1) as nat);
        assert(lex_steps(st, n) == lex_steps(next, (n - 1) as nat));
    } else {
        assert(lex_steps(next, 0) == next);
    }
}

/// Any number of steps keeps the state reachable, the source unchanged and
/// the position from going back.
pub proof fn lemma_lex_steps_valid(st: LexerState, n: nat)
    requires
        valid_state(st),
    ensures
        valid_state(lex_steps(st, n)),
        lex_steps(st, n).src == st.src,
        st.pos <= lex_steps(st, n).pos,
    decreases n,
{
    if n > 0 {
        lemma_lex_step(st);
        lemma_lex_steps_valid(lex_step(st).1, (n - 1) as nat);
    }
}

/// A cursor is one token ahead of its lexer. A fresh cursor shows token 0 of
/// a lexer started in `init` and holds the state after one step; and if it
/// shows token `k` and holds the state after `k + 1` steps, then a bump hands
/// out token `k` and leaves it showing token `k + 1` and holding the state
/// after `k + 2` steps. So no token is skipped or repeated.
pub proof fn lemma_cursor_lookahead(init: LexerState, k: nat)
    ensures
        lex_step(init) == (nth_token(init, 0), lex_steps(init, 1)),
        lex_step(lex_steps(init, k + 1)) == (nth_token(init, k + 1), lex_steps(init, k + 2)),
{
    lemma_lex_steps_succ(init, 0);
    lemma_lex_steps_succ(init, k + 1);
}

/// Lexing terminates: from any reachable state, one of the next
/// `lex_measure(st) + 1` tokens (at most `2 * len + 2` of them) is `Eof`.
pub proof fn lemma_lexing_reaches_eof(st: LexerState) -> (k: nat)
    requires
        valid_state(st),
    ensures
        k <= lex_measure(st),
        valid_state(lex_steps(st, k)),
        lex_steps(st, k).src == st.src,
        lex_step(lex_steps(st, k)).0.kind is Eof,
        nth_token(st, k) == token_at(TokenKind::Eof, st.src.len() as int, st.src.len() as int),
    decreases lex_measure(st),
{
    lemma_lex_step(st);
    lemma_lex_steps_valid(st, lex_measure(st) as nat);
    if lex_step(st).0.kind is Eof {
        0
    } else {
        let next = lex_step(st).1;
        let k = lemma_lexing_reaches_eof(next);
        assert(lex_steps(st, k + 1) == lex_steps(next, k));
        lemma_lex_steps_valid(st, k + 1);
        lemma_lex_step(lex_steps(st, k + 1));
        k + 1
    }
}

/// Once the lexer has handed out `Eof`, it hands out the same `Eof` token
/// again and again, and its state stays put.
pub proof fn lemma_eof_absorbing(st: LexerState)
    requires
        valid_state(st),
        lex_step(st).0.kind is Eof,
    ensures
        lex_step(lex_step(st).1) == (lex_step(st).0, lex_step(st).1),
{
    lemma_lex_step(st);
    let next = lex_step(st).1;
    lemma_trivia(next.src, next.pos, false);
    lemma_scan_token(next.src, next.pos);
}

/// Every byte that may start an identifier may also continue one; the
/// bytes that continue an identifier are those that start one and the
/// digits; and a digit never starts one (it starts a number).
pub proof fn lemma_ident_byte_classes(b: u8)
    ensures
        ident_start_byte(b) ==> ident_continue_byte(b),
        ident_continue_byte(b) <==> (ident_start_byte(b) || is_digit_byte(b)),
        is_digit_byte(b) ==> !ident_start_byte(b),
{
}

/// A line break lies in `[a, b)`.
pub open spec fn newline_in(s: Seq<u8>, a: int, b: int) -> bool {
    exists|k: int| a <= k < b && s[k] == NEWLINE
}

proof fn lemma_newline_in_split(s: Seq<u8>, a: int, b: int, c: int)
    requires
        a <= b <= c,
    ensures
        newline_in(s, a, c) <==> (newline_in(s, a, b) || newline_in(s, b, c)),
{
    if newline_in(s, a, c) {
        let k = choose|k: int| a <= k < c && s[k] == NEWLINE;
        if k < b {
            assert(newline_in(s, a, b));
        } else {
            assert(newline_in(s, b, c));
        }
    }
    if newline_in(s, a, b) {
        let k = choose|k: int| a <= k < b && s[k] == NEWLINE;
        assert(a <= k < c && s[k] == NEWLINE);
    }
    if newline_in(s, b, c) {
        let k = choose|k: int| b <= k < c && s[k] == NEWLINE;
        assert(a <= k < c && s[k] == NEWLINE);
    }
}

proof fn lemma_block_comment_newline(s: Seq<u8>, j: int, depth: nat, nl: bool)
    requires
        0 <= j <= s.len(),
    ensures
        block_comment_end(s, j, depth, nl).2 == (nl || newline_in(
            s,
            j,
            block_comment_end(s, j, depth, nl).1,
        )),
        block_comment_end(s, j, depth, nl).0 == block_comment_end(s, j, depth, false).0,
        block_comment_end(s, j, depth, nl).1 == block_comment_end(s, j, depth, false).1,
    decreases s.len() - j,
{
    lemma_block_comment_end(s, j, depth, nl);
    let e = block_comment_end(s, j, depth, nl).1;
    if j < s.len() {
        if s[j] == SLASH && byte_at(s, j + 1, STAR) {
            lemma_block_comment_newline(s, j + 2, depth + 1, nl);
            lemma_block_comment_newline(s, j + 2, depth + 1, false);
            lemma_block_comment_end(s, j + 2, depth + 1, nl);
            lemma_newline_in_split(s, j, j + 2, e);
            assert(!newline_in(s, j, j + 2));
        } else if s[j] == STAR && byte_at(s, j + 1, SLASH) {
            if depth > 1 {
                lemma_block_comment_newline(s, j + 2, (depth - 1) as nat, nl);
                lemma_block_comment_newline(s, j + 2, (depth - 1) as nat, false);
                lemma_block_comment_end(s, j + 2, (depth - 1) as nat, nl);
                lemma_newline_in_split(s, j, j + 2, e);
            }
            assert(!newline_in(s, j, j + 2));
        } else {
            let nl2 = nl || s[j] == NEWLINE;
            lemma_block_comment_newline(s, j + 1, depth, nl2);
            lemma_block_comment_newline(s, j + 1, depth, false);
            lemma_block_comment_newline(s, j + 1, depth, s[j] == NEWLINE);
            lemma_block_comment_end(s, j + 1, depth, nl2);
            lemma_newline_in_split(s, j, j + 1, e);
            if s[j] == NEWLINE {
                assert(newline_in(s, j, j + 1));
            } else {
                assert(!newline_in(s, j, j + 1));
            }
        }
    } else {
        assert(!newline_in(s, j, j));
    }
}

/// The stretch that `trivia` skips crosses a line break exactly when a line
/// break byte lies in it (or one was seen before).
pub proof fn lemma_trivia_newline(s: Seq<u8>, i: int, nl: bool)
    requires
        0 <= i <= s.len(),
    ensures
        trivia(s, i, nl).crossed == (nl || newline_in(s, i, trivia(s, i, nl).end)),
    decreases s.len() - i,
{
    lemma_trivia(s, i, nl);
    let e = trivia(s, i, nl).end;
    if i < s.len() {
        let b = s[i];
        if b == SPACE || b == TAB || b == CR {
            lemma_trivia_newline(s, i + 1, nl);
            lemma_trivia(s, i + 1, nl);
            lemma_newline_in_split(s, i, i + 1, e);
            assert(!newline_in(s, i, i + 1));
        } else if b == NEWLINE {
            lemma_trivia_newline(s, i + 1, true);
            lemma_trivia(s, i + 1, true);
            assert(newline_in(s, i, e));
        } else if b == SLASH && byte_at(s, i + 1, SLASH) {
            let c = scan_while(s, i + 2, line_bytes());
            lemma_scan_while(s, i + 2, line_bytes());
            lemma_trivia_newline(s, c, nl);
            lemma_trivia(s, c, nl);
            lemma_newline_in_split(s, i, c, e);
            assert forall|k: int| i <= k < c implies s[k] != NEWLINE by {
                if k >= i + 2 {
                    assert(line_bytes()(s[k]));
                }
            }
        } else if b == SLASH && byte_at(s, i + 1, STAR) {
            lemma_block_comment_end(s, i + 2, 1, nl);
            lemma_block_comment_newline(s, i + 2, 1, nl);
            let r = block_comment_end(s, i + 2, 1, nl);
            lemma_newline_in_split(s, i, i + 2, r.1);
            assert(!newline_in(s, i, i + 2));
            if r.0 {
                lemma_trivia_newline(s, r.1, r.2);
                lemma_trivia(s, r.1, r.2);
                lemma_newline_in_split(s, i, r.1, e);
                if r.2 && !nl {
                    assert(newline_in(s, i + 2, r.1));
                }
            }
        } else {
            assert(!newline_in(s, i, i));
        }
    } else {
        assert(!newline_in(s, i, i));
    }
}

/// A semicolon is inserted (a `Semi` token of width zero is handed out)
/// exactly when the last token ends a statement, the blanks and comments
/// that follow contain a line break, and no closing bracket comes next. It
/// stands where those blanks and comments end (where an unclosed comment
/// starts). A `;` in the source gives a `Semi` of width one instead.
pub proof fn lemma_semicolon_insertion(st: LexerState)
    requires
        valid_state(st),
        st.pending is None,
        st.src.len() <= u32::MAX,
    ensures
        ({
            let tr = trivia(st.src, st.pos, false);
            let t = lex_step(st).0;
            &&& (t.kind is Semi && t.span.start == t.span.end) <==> (ends_statement(st.last)
                && newline_in(st.src, st.pos, tr.end) && !closer_at(st.src, tr.end))
            &&& (t.kind is Semi && t.span.start == t.span.end) ==> t.span.start == tr.semi_pos
        }),
{
    lemma_trivia(st.src, st.pos, false);
    lemma_trivia_newline(st.src, st.pos, false);
    let tr = trivia(st.src, st.pos, false);
    lemma_scan_token(st.src, tr.end);
}

/// The bytes `[i, j)` are blanks and complete comments, one after another.
pub open spec fn trivia_stretch(s: Seq<u8>, i: int, j: int) -> bool
    decreases j - i,
{
    if j <= i {
        i == j
    } else if !(0 <= i < s.len()) {
        false
    } else if is_blank_byte(s[i]) {
        trivia_stretch(s, i + 1, j)
    } else if s[i] == SLASH && byte_at(s, i + 1, SLASH) {
        let e = scan_while(s, i + 2, line_bytes());
        if i < e <= j {
            trivia_stretch(s, e, j)
        } else {
            false
        }
    } else if s[i] == SLASH && byte_at(s, i + 1, STAR) {
        let r = block_comment_end(s, i + 2, 1, false);
        if r.0 && i < r.1 <= j {
            trivia_stretch(s, r.1, j)
        } else {
            false
        }
    } else {
        false
    }
}

/// `trivia` skips only blanks and complete comments, up to where it stops
/// (an unclosed comment starts there otherwise), and it stops at a byte
/// that is neither blank nor the start of a comment.
pub proof fn lemma_trivia_stretch(s: Seq<u8>, i: int, nl: bool)
    requires
        0 <= i <= s.len(),
    ensures
        trivia_stretch(s, i, trivia(s, i, nl).semi_pos),
        !trivia(s, i, nl).unterminated ==> trivia(s, i, nl).semi_pos == trivia(s, i, nl).end,
        !trivia(s, i, nl).unterminated && trivia(s, i, nl).end < s.len() ==> {
            let b = s[trivia(s, i, nl).end];
            !is_blank_byte(b) && !(b == SLASH && (byte_at(s, trivia(s, i, nl).end + 1, SLASH)
                || byte_at(s, trivia(s, i, nl).end + 1, STAR)))
        },
    decreases s.len() - i,
{
    lemma_trivia(s, i, nl);
    if i < s.len() {
        let b = s[i];
        if b == SPACE || b == TAB || b == CR {
            lemma_trivia_stretch(s, i + 1, nl);
        } else if b == NEWLINE {
            lemma_trivia_stretch(s, i + 1, true);
        } else if b == SLASH && byte_at(s, i + 1, SLASH) {
            let c = scan_while(s, i + 2, line_bytes());
            lemma_scan_while(s, i + 2, line_bytes());
            lemma_trivia_stretch(s, c, nl);
            lemma_trivia(s, c, nl);
        } else if b == SLASH && byte_at(s, i + 1, STAR) {
            lemma_block_comment_end(s, i + 2, 1, nl);
            lemma_block_comment_newline(s, i + 2, 1, nl);
            let r = block_comment_end(s, i + 2, 1, nl);
            if r.0 {
                lemma_trivia_stretch(s, r.1, r.2);
                lemma_trivia(s, r.1, r.2);
            }
        }
    }
}

/// No byte is dropped between tokens: before each token lie only blanks
/// and comments, a token ends where the next token's blanks and comments
/// begin, and tokens come in order. Every token but `Eof` and an inserted
/// semicolon takes at least one byte.
pub proof fn lemma_tokens_and_gaps(st: LexerState)
    requires
        valid_state(st),
        st.src.len() <= u32::MAX,
    ensures
        ({
            let (t1, s1) = lex_step(st);
            let (t2, s2) = lex_step(s1);
            &&& st.pending is None ==> trivia_stretch(st.src, st.pos, t1.span.start as int)
            &&& s1.pending is None ==> t1.span.end == s1.pos
            &&& t1.span.end <= t2.span.start
            &&& trivia_stretch(st.src, t1.span.end as int, t2.span.start as int)
            &&& (t1.span.start < t1.span.end || t1.kind is Eof || (t1.kind is Semi
                && t1.span.start == t1.span.end))
        }),
{
    let s = st.src;
    lemma_lex_step(st);
    let (t1, s1) = lex_step(st);
    lemma_lex_step(s1);
    if st.pending is None {
        lemma_trivia_stretch(s, st.pos, false);
        lemma_trivia(s, st.pos, false);
        lemma_scan_token(s, trivia(s, st.pos, false).end);
    }
    if s1.pending is None {
        lemma_trivia_stretch(s, s1.pos, false);
        lemma_trivia(s, s1.pos, false);
        lemma_scan_token(s, trivia(s, s1.pos, false).end);
    } else {
        assert(trivia_stretch(s, t1.span.end as int, t1.span.end as int));
    }
}

// ---------------------------------------------------------------------------
// The executable lexer
// ---------------------------------------------------------------------------

/// Hands out the tokens of a source text one at a time.
pub struct Lexer<'src> {
    src: &'src [u8],
    pos: usize,
    last: TokenKind,
    pending: Option<Token>,
}

/// What `skip_trivia` found: see [`TriviaSpec`].
struct Trivia {
    crossed_newline: bool,
    semi_pos: usize,
    error: Option<Token>,
}

/// A lexer with one token of lookahead.
pub struct Cursor<'src> {
    lexer: Lexer<'src>,
    current: Token,
}

impl<'src> View for Lexer<'src> {
    type V = LexerState;

    closed spec fn view(&self) -> LexerState {
        LexerState { src: self.src@, pos: self.pos as int, last: self.last, pending: self.pending }
    }
}

impl<'src> Lexer<'src> {
    /// The position lies within the source.
    pub open spec fn in_bounds(&self) -> bool {
        0 <= self@.pos <= self@.src.len() <= usize::MAX
    }

    /// The lexer is in a state that lexing can reach.
    pub open spec fn wf(&self) -> bool {
        self.in_bounds() && valid_state(self@)
    }

    pub fn new(src: &'src str) -> (r: Self)
        ensures
            r.wf(),
            r@ == initial_state(src.spec_bytes()),
    {
        let bytes = src.as_bytes();
        assert(bytes.len() == bytes@.len());
        Lexer { src: bytes, pos: 0, last: TokenKind::Semi, pending: None }
    }

    /// Hands out the next token; see [`lex_step`].
    pub fn next_token(&mut self) -> (t: Token)
        requires
            old(self).wf(),
        ensures
            final(self).wf(),
            (t, final(self)@) == lex_step(old(self)@),
    {
        proof {
            lemma_lex_step(self@);
        }
        if let Some(token) = self.pending.take() {
            self.last = token.kind;
            return token;
        }
        let trivia = self.skip_trivia();
        if trivia.crossed_newline && is_terminator(self.last) && !self.next_is_closer() {
            if trivia.error.is_some() {
                self.pending = trivia.error;
            }
            self.last = TokenKind::Semi;
            let at = trivia.semi_pos as u32;
            return Token { kind: TokenKind::Semi, span: Span { start: at, end: at } };
        }
        if trivia.error.is_some() {
            let error = trivia.error.unwrap();
            self.last = error.kind;
            return error;
        }
        let start = self.pos;
        let kind = self.scan();
        self.last = kind;
        Token { kind, span: Span { start: start as u32, end: self.pos as u32 } }
    }

    fn peek_byte(&self) -> (r: Option<u8>)
        requires
            self.in_bounds(),
        ensures
            r == (if self.pos < self.src@.len() {
                Some(self.src@[self.pos as int])
            } else {
                None
            }),
    {
        if self.pos < self.src.len() {
            Some(self.src[self.pos])
        } else {
            None
        }
    }

    /// Whether the byte just after the current one is `b`.
    fn second_byte_is(&self, b: u8) -> (r: bool)
        requires
            self.in_bounds(),
        ensures
            r == byte_at(self.src@, self.pos + 1, b),
    {
        self.pos < self.src.len() && self.pos + 1 < self.src.len() && self.src[self.pos + 1] == b
    }

    fn advance(&mut self)
        requires
            old(self).in_bounds(),
            old(self).pos < old(self).src@.len(),
        ensures
            final(self).in_bounds(),
            final(self)@ == (LexerState { pos: old(self)@.pos + 1, ..old(self)@ }),
    {
        self.pos += 1;
    }

    fn eat_byte(&mut self, b: u8) -> (r: bool)
        requires
            old(self).in_bounds(),
        ensures
            final(self).in_bounds(),
            r == byte_at(old(self)@.src, old(self)@.pos, b),
            final(self)@ == (LexerState {
                pos: if r {
                    old(self)@.pos + 1
                } else {
                    old(self)@.pos
                },
                ..old(self)@
            }),
    {
        if self.pos < self.src.len() && self.src[self.pos] == b {
            self.pos += 1;
            true
        } else {
            false
        }
    }

    fn take_while<F: Fn(u8) -> bool>(&mut self, pred: F, Ghost(p): Ghost<spec_fn(u8) -> bool>)
        requires
            old(self).in_bounds(),
            forall|b: u8| pred.requires((b,)),
            forall|b: u8, r: bool| pred.ensures((b,), r) ==> r == p(b),
        ensures
            final(self).in_bounds(),
            final(self)@ == (LexerState {
                pos: scan_while(old(self)@.src, old(self)@.pos, p),
                ..old(self)@
            }),
    {
        let ghost start = self.pos as int;
        while self.pos < self.src.len()
            invariant
                self.in_bounds(),
                start == old(self)@.pos,
                self.src == old(self).src,
                self.last == old(self).last,
                self.pending == old(self).pending,
                forall|b: u8| pred.requires((b,)),
                forall|b: u8, r: bool| pred.ensures((b,), r) ==> r == p(b),
                scan_while(self.src@, self.pos as int, p) == scan_while(self.src@, start, p),
            decreases self.src@.len() - self.pos,
        {
            let b = self.src[self.pos];
            let keep = pred(b);
            assert(keep == p(b));
            if keep {
                self.pos += 1;
            } else {
                return;
            }
        }
    }

    fn take_number_digits(&mut self)
        requires
            old(self).in_bounds(),
        ensures
            final(self).in_bounds(),
            final(self)@ == (LexerState {
                pos: scan_while(old(self)@.src, old(self)@.pos, number_digits()),
                ..old(self)@
            }),
    {
        self.take_while(number_digit, Ghost(number_digits()));
    }

    fn take_radix_digits(&mut self)
        requires
            old(self).in_bounds(),
        ensures
            final(self).in_bounds(),
            final(self)@ == (LexerState {
                pos: scan_while(old(self)@.src, old(self)@.pos, radix_digits()),
                ..old(self)@
            }),
    {
        self.take_while(radix_digit, Ghost(radix_digits()));
    }

    fn single(&mut self, k: TokenKind) -> (r: TokenKind)
        requires
            old(self).in_bounds(),
            old(self).pos < old(self).src@.len(),
        ensures
            final(self).in_bounds(),
            r == k,
            final(self)@ == (LexerState { pos: old(self)@.pos + 1, ..old(self)@ }),
    {
        self.advance();
        k
    }

    fn peek_is(&self, b: u8) -> (r: bool)
        requires
            self.in_bounds(),
        ensures
            r == byte_at(self@.src, self@.pos, b),
    {
        match self.peek_byte() {
            Some(c) => c == b,
            None => false,
        }
    }

    fn number(&mut self) -> (k: TokenKind)
        requires
            old(self).in_bounds(),
            old(self)@.pos < old(self)@.src.len(),
            is_digit_byte(old(self)@.src[old(self)@.pos]),
        ensures
            final(self).in_bounds(),
            k == TokenKind::Number,
            final(self)@ == (LexerState { pos: number_end(old(self)@.src, old(self)@.pos), ..old(self)@ }),
    {
        self.take_number_digits();
        if self.eat_byte(LOWER_R) {
            self.take_radix_digits();
            return TokenKind::Number;
        }
        let fraction = self.peek_is(DOT) && (self.pos + 1 >= self.src.len() || is_ascii_digit(
            self.src[self.pos + 1],
        ) || is_blank(self.src[self.pos + 1]));
        if fraction {
            self.advance();
            self.take_number_digits();
        }
        if self.peek_is(LOWER_E) || self.peek_is(UPPER_E) {
            self.advance();
            if self.peek_is(PLUS) || self.peek_is(MINUS) {
                self.advance();
            }
            self.take_number_digits();
        }
        TokenKind::Number
    }

    fn block_comment(&mut self, newline: &mut bool) -> (closed: bool)
        requires
            old(self).in_bounds(),
            byte_at(old(self)@.src, old(self)@.pos, SLASH),
            byte_at(old(self)@.src, old(self)@.pos + 1, STAR),
        ensures
            final(self).in_bounds(),
            ({
                let r = block_comment_end(old(self)@.src, old(self)@.pos + 2, 1, *old(newline));
                &&& closed == r.0
                &&& final(self)@ == (LexerState { pos: r.1, ..old(self)@ })
                &&& *final(newline) == r.2
            }),
    {
        self.pos += 2;
        let mut depth: usize = 1;
        while self.pos < self.src.len()
            invariant
                self.in_bounds(),
                self.src == old(self).src,
                self.last == old(self).last,
                self.pending == old(self).pending,
                1 <= depth <= self.pos,
                block_comment_end(self.src@, self.pos as int, depth as nat, *newline)
                    == block_comment_end(old(self)@.src, old(self)@.pos + 2, 1, *old(newline)),
            decreases self.src@.len() - self.pos,
        {
            let b = self.src[self.pos];
            if b == SLASH && self.second_byte_is(STAR) {
                self.pos += 2;
                depth += 1;
                continue;
            }
            if b == STAR && self.second_byte_is(SLASH) {
                self.pos += 2;
                depth -= 1;
                if depth == 0 {
                    return true;
                }
                continue;
            }
            if b == NEWLINE {
                *newline = true;
            }
            self.pos += 1;
        }
        false
    }

    fn string_body(&mut self) -> (terminated: bool)
        requires
            old(self).in_bounds(),
        ensures
            final(self).in_bounds(),
            (terminated, final(self)@.pos) == string_end(old(self)@.src, old(self)@.pos),
            final(self)@ == (LexerState { pos: final(self)@.pos, ..old(self)@ }),
    {
        while self.pos < self.src.len()
            invariant
                self.in_bounds(),
                self.src == old(self).src,
                self.last == old(self).last,
                self.pending == old(self).pending,
                string_end(self.src@, self.pos as int) == string_end(
                    old(self)@.src,
                    old(self)@.pos,
                ),
            decreases self.src@.len() - self.pos,
        {
            let b = self.src[self.pos];
            self.pos += 1;
            if b == BACKSLASH {
                if self.pos < self.src.len() {
                    self.pos += 1;
                }
            } else if b == QUOTE {
                return true;
            }
        }
        false
    }

    fn skip_trivia(&mut self) -> (t: Trivia)
        requires
            old(self).in_bounds(),
        ensures
            final(self).in_bounds(),
            ({
                let tr = trivia(old(self)@.src, old(self)@.pos, false);
                &&& final(self)@ == (LexerState { pos: tr.end, ..old(self)@ })
                &&& t.crossed_newline == tr.crossed
                &&& t.semi_pos == tr.semi_pos
                &&& t.error == (if tr.unterminated {
                    Some(
                        token_at(
                            TokenKind::Error(LexErrorKind::UnterminatedBlockComment),
                            tr.semi_pos,
                            tr.end,
                        ),
                    )
                } else {
                    None
                })
            }),
    {
        let mut newline = false;
        loop
            invariant
                self.in_bounds(),
                self.src == old(self).src,
                self.last == old(self).last,
                self.pending == old(self).pending,
                trivia(self.src@, self.pos as int, newline) == trivia(
                    old(self)@.src,
                    old(self)@.pos,
                    false,
                ),
            decreases self.src@.len() - self.pos,
        {
            match self.peek_byte() {
                Some(b) => {
                    if b == SPACE || b == TAB || b == CR {
                        self.pos += 1;
                    } else if b == NEWLINE {
                        newline = true;
                        self.pos += 1;
                    } else if b == SLASH && self.second_byte_is(SLASH) {
                        self.pos += 2;
                        let ghost body = self.pos as int;
                        proof {
                            lemma_scan_while(self.src@, body, line_bytes());
                        }
                        while self.pos < self.src.len() && self.src[self.pos] != NEWLINE
                            invariant
                                self.in_bounds(),
                                self.src == old(self).src,
                                self.last == old(self).last,
                                self.pending == old(self).pending,
                                body <= self.pos,
                                scan_while(self.src@, self.pos as int, line_bytes())
                                    == scan_while(self.src@, body, line_bytes()),
                            decreases self.src@.len() - self.pos,
                        {
                            self.pos += 1;
                        }
                    } else if b == SLASH && self.second_byte_is(STAR) {
                        let start = self.pos;
                        let ghost seen = newline;
                        proof {
                            lemma_block_comment_end(self.src@, start + 2, 1, seen);
                        }
                        if !self.block_comment(&mut newline) {
                            return Trivia {
                                crossed_newline: newline,
                                semi_pos: start,
                                error: Some(
                                    Token {
                                        kind: TokenKind::Error(
                                            LexErrorKind::UnterminatedBlockComment,
                                        ),
                                        span: Span { start: start as u32, end: self.pos as u32 },
                                    },
                                ),
                            };
                        }
                    } else {
                        return Trivia { crossed_newline: newline, semi_pos: self.pos, error: None };
                    }
                },
                None => {
                    return Trivia { crossed_newline: newline, semi_pos: self.pos, error: None };
                },
            }
        }
    }

    fn scan(&mut self) -> (k: TokenKind)
        requires
            old(self).in_bounds(),
        ensures
            final(self).in_bounds(),
            (k, final(self)@.pos) == scan_token(old(self)@.src, old(self)@.pos),
            final(self)@ == (LexerState { pos: final(self)@.pos, ..old(self)@ }),
    {
        let start = self.pos;
        let b = match self.peek_byte() {
            Some(b) => b,
            None => return TokenKind::Eof,
        };
        if is_ascii_digit(b) {
            self.number()
        } else if is_ident_start(b) {
            proof {
                lemma_scan_while(self.src@, start as int, ident_bytes());
            }
            self.take_while(is_ident_continue, Ghost(ident_bytes()));
            keyword_or_ident(slice_subrange(self.src, start, self.pos))
        } else if b == QUOTE {
            self.advance();
            if self.string_body() {
                TokenKind::Str
            } else {
                TokenKind::Error(LexErrorKind::UnterminatedString)
            }
        } else if b == LPAREN {
            self.single(TokenKind::LParen)
        } else if b == RPAREN {
            self.single(TokenKind::RParen)
        } else if b == LBRACE {
            self.single(TokenKind::LBrace)
        } else if b == RBRACE {
            self.single(TokenKind::RBrace)
        } else if b == LBRACKET {
            self.single(TokenKind::LBracket)
        } else if b == RBRACKET {
            self.single(TokenKind::RBracket)
        } else if b == COMMA {
            self.single(TokenKind::Comma)
        } else if b == COLON {
            self.single(TokenKind::Colon)
        } else if b == SEMICOLON {
            self.single(TokenKind::Semi)
        } else if b == CARET {
            self.single(TokenKind::Caret)
        } else if b == QUESTION {
            self.single(TokenKind::Question)
        } else if b == PERCENT {
            self.single(TokenKind::Percent)
        } else {
            self.operator(b)
        }
    }

    /// Operators of one or two bytes, and bytes that start no token.
    fn operator(&mut self, b: u8) -> (k: TokenKind)
        requires
            old(self).in_bounds(),
            old(self)@.pos < old(self)@.src.len(),
            b == old(self)@.src[old(self)@.pos],
        ensures
            final(self).in_bounds(),
            (k, final(self)@.pos) == operator_token(old(self)@.src, old(self)@.pos),
            final(self)@ == (LexerState { pos: final(self)@.pos, ..old(self)@ }),
    {
        self.advance();
        if b == DOT {
            if self.eat_byte(DOT) {
                TokenKind::DotDot
            } else {
                TokenKind::Dot
            }
        } else if b == PLUS {
            if self.eat_byte(EQUALS) {
                TokenKind::PlusEq
            } else {
                TokenKind::Plus
            }
        } else if b == MINUS {
            if self.eat_byte(GREATER) {
                TokenKind::Arrow
            } else if self.eat_byte(EQUALS) {
                TokenKind::MinusEq
            } else {
                TokenKind::Minus
            }
        } else if b == STAR {
            if self.eat_byte(EQUALS) {
                TokenKind::StarEq
            } else {
                TokenKind::Star
            }
        } else if b == SLASH {
            if self.eat_byte(EQUALS) {
                TokenKind::SlashEq
            } else {
                TokenKind::Slash
            }
        } else if b == EQUALS {
            if self.eat_byte(GREATER) {
                TokenKind::FatArrow
            } else if self.eat_byte(EQUALS) {
                TokenKind::EqEq
            } else {
                TokenKind::Eq
            }
        } else if b == BANG {
            if self.eat_byte(EQUALS) {
                TokenKind::Ne
            } else {
                TokenKind::Bang
            }
        } else if b == LESS {
            if self.eat_byte(EQUALS) {
                TokenKind::Le
            } else {
                TokenKind::Lt
            }
        } else if b == GREATER {
            if self.eat_byte(EQUALS) {
                TokenKind::Ge
            } else {
                TokenKind::Gt
            }
        } else if b == AMP {
            if self.eat_byte(AMP) {
                TokenKind::AmpAmp
            } else {
                TokenKind::Amp
            }
        } else if b == PIPE {
            if self.eat_byte(PIPE) {
                TokenKind::PipePipe
            } else {
                TokenKind::Pipe
            }
        } else {
            TokenKind::Error(LexErrorKind::InvalidChar)
        }
    }

    fn next_is_closer(&self) -> (r: bool)
        requires
            self.in_bounds(),
        ensures
            r == closer_at(self@.src, self@.pos),
    {
        match self.peek_byte() {
            Some(b) => b == RPAREN || b == RBRACKET || b == RBRACE,
            None => false,
        }
    }
}

impl<'src> Cursor<'src> {
    /// The underlying lexer is well formed.
    pub closed spec fn wf(&self) -> bool {
        self.lexer.wf()
    }

    /// The state of the underlying lexer.
    pub closed spec fn lexer_state(&self) -> LexerState {
        self.lexer@
    }

    /// The token under the cursor.
    pub closed spec fn current(&self) -> Token {
        self.current
    }

    pub fn new(src: &'src str) -> (r: Self)
        ensures
            r.wf(),
            (r.current(), r.lexer_state()) == lex_step(initial_state(src.spec_bytes())),
    {
        let mut lexer = Lexer::new(src);
        let current = lexer.next_token();
        Cursor { lexer, current }
    }

    pub fn peek(&self) -> (t: Token)
        ensures
            t == self.current(),
    {
        self.current
    }

    /// Hands out the token under the cursor and moves to the next one.
    pub fn bump(&mut self) -> (prev: Token)
        requires
            old(self).wf(),
        ensures
            final(self).wf(),
            prev == old(self).current(),
            (final(self).current(), final(self).lexer_state()) == lex_step(old(self).lexer_state()),
    {
        let prev = self.current;
        self.current = self.lexer.next_token();
        prev
    }
}

/// Whether a line break after a token of kind `k` ends the statement.
fn is_terminator(k: TokenKind) -> (r: bool)
    ensures
        r == ends_statement(k),
{
    match k {
        TokenKind::Number | TokenKind::Str | TokenKind::Ident | TokenKind::Underscore
        | TokenKind::RParen | TokenKind::RBracket | TokenKind::RBrace | TokenKind::KwReturn
        | TokenKind::KwBreak | TokenKind::KwContinue => true,
        _ => false,
    }
}

/// The keyword spelled by `s`, or `Ident`.
fn keyword_or_ident(s: &[u8]) -> (k: TokenKind)
    ensures
        k == keyword_kind(s@),
{
    let n = s.len();
    if n == 3 && s[0] == 0x6C && s[1] == 0x65 && s[2] == 0x74 {
        // let
        assert(s@ =~= seq![0x6Cu8, 0x65u8, 0x74u8]);
        TokenKind::KwLet
    } else if n == 2 && s[0] == 0x66 && s[1] == 0x6E {
        // fn
        assert(s@ =~= seq![0x66u8, 0x6Eu8]);
        TokenKind::KwFn
    } else if n == 2 && s[0] == 0x69 && s[1] == 0x66 {
        // if
        assert(s@ =~= seq![0x69u8, 0x66u8]);
        TokenKind::KwIf
    } else if n == 4 && s[0] == 0x65 && s[1] == 0x6C && s[2] == 0x73 && s[3] == 0x65 {
        // else
        assert(s@ =~= seq![0x65u8, 0x6Cu8, 0x73u8, 0x65u8]);
        TokenKind::KwElse
    } else if n == 5 && s[0] == 0x6D && s[1] == 0x61 && s[2] == 0x74 && s[3] == 0x63 && s[4]
        == 0x68 {
        // match
        assert(s@ =~= seq![0x6Du8, 0x61u8, 0x74u8, 0x63u8, 0x68u8]);
        TokenKind::KwMatch
    } else if n == 6 && s[0] == 0x73 && s[1] == 0x74 && s[2] == 0x72 && s[3] == 0x75 && s[4]
        == 0x63 && s[5] == 0x74 {
        // struct
        assert(s@ =~= seq![0x73u8, 0x74u8, 0x72u8, 0x75u8, 0x63u8, 0x74u8]);
        TokenKind::KwStruct
    } else if n == 6 && s[0] == 0x72 && s[1] == 0x65 && s[2] == 0x74 && s[3] == 0x75 && s[4]
        == 0x72 && s[5] == 0x6E {
        // return
        assert(s@ =~= seq![0x72u8, 0x65u8, 0x74u8, 0x75u8, 0x72u8, 0x6Eu8]);
        TokenKind::KwReturn
    } else if n == 5 && s[0] == 0x77 && s[1] == 0x68 && s[2] == 0x69 && s[3] == 0x6C && s[4]
        == 0x65 {
        // while
        assert(s@ =~= seq![0x77u8, 0x68u8, 0x69u8, 0x6Cu8, 0x65u8]);
        TokenKind::KwWhile
    } else if n == 3 && s[0] == 0x66 && s[1] == 0x6F && s[2] == 0x72 {
        // for
        assert(s@ =~= seq![0x66u8, 0x6Fu8, 0x72u8]);
        TokenKind::KwFor
    } else if n == 5 && s[0] == 0x62 && s[1] == 0x72 && s[2] == 0x65 && s[3] == 0x61 && s[4]
        == 0x6B {
        // break
        assert(s@ =~= seq![0x62u8, 0x72u8, 0x65u8, 0x61u8, 0x6Bu8]);
        TokenKind::KwBreak
    } else if n == 8 && s[0] == 0x63 && s[1] == 0x6F && s[2] == 0x6E && s[3] == 0x74 && s[4]
        == 0x69 && s[5] == 0x6E && s[6] == 0x75 && s[7] == 0x65 {
        // continue
        assert(s@ =~= seq![0x63u8, 0x6Fu8, 0x6Eu8, 0x74u8, 0x69u8, 0x6Eu8, 0x75u8, 0x65u8]);
        TokenKind::KwContinue
    } else if n == 1 && s[0] == UNDERSCORE {
        assert(s@ =~= seq![0x5Fu8]);
        TokenKind::Underscore
    } else if n == 1 && s[0] == 0x76 {
        // v: the union type operator, which takes `v` from the identifiers
        assert(s@ =~= seq![0x76u8]);
        TokenKind::Union
    } else {
        TokenKind::Ident
    }
}

fn is_ident_start(b: u8) -> (r: bool)
    ensures
        r == ident_start_byte(b),
{
    (LOWER_A <= b && b <= LOWER_Z) || (UPPER_A <= b && b <= UPPER_Z) || b == UNDERSCORE || is_non_ascii(b)
}

fn is_ident_continue(b: u8) -> (r: bool)
    ensures
        r == ident_continue_byte(b),
{
    (ZERO <= b && b <= NINE) || (LOWER_A <= b && b <= LOWER_Z) || (UPPER_A <= b && b <= UPPER_Z) || b == UNDERSCORE
        || is_non_ascii(b)
}

fn is_blank(b: u8) -> (r: bool)
    ensures
        r == is_blank_byte(b),
{
    b == SPACE || b == TAB || b == CR || b == NEWLINE
}

fn is_ascii_digit(b: u8) -> (r: bool)
    ensures
        r == is_digit_byte(b),
{
    ZERO <= b && b <= NINE
}

fn number_digit(b: u8) -> (r: bool)
    ensures
        r == is_number_digit(b),
{
    (ZERO <= b && b <= NINE) || b == UNDERSCORE
}

fn radix_digit(b: u8) -> (r: bool)
    ensures
        r == is_radix_digit(b),
{
    (ZERO <= b && b <= NINE) || (LOWER_A <= b && b <= LOWER_Z) || (UPPER_A <= b && b <= UPPER_Z) || b == UNDERSCORE
}

fn is_non_ascii(b: u8) -> (r: bool)
    ensures
        r == (b >= 0x80),
{
    b >= 0x80
}

} // verus!
