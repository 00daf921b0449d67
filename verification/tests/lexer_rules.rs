use language::lexer::{Cursor, Lexer};
use language::{LexErrorKind, TokenKind};

fn tokens(src: &str) -> Vec<(TokenKind, u32, u32)> {
    let mut lexer = Lexer::new(src);
    let mut out = Vec::new();
    loop {
        let token = lexer.next_token();
        out.push((token.kind, token.span.start, token.span.end));
        if token.kind == TokenKind::Eof {
            break;
        }
    }
    out
}

fn kinds(src: &str) -> Vec<TokenKind> {
    tokens(src).into_iter().map(|t| t.0).collect()
}

#[test]
fn lexes_every_keyword_and_the_union_operator() {
    assert_eq!(
        kinds("let fn if else match struct return while for break continue _ v vv lets"),
        vec![
            TokenKind::KwLet,
            TokenKind::KwFn,
            TokenKind::KwIf,
            TokenKind::KwElse,
            TokenKind::KwMatch,
            TokenKind::KwStruct,
            TokenKind::KwReturn,
            TokenKind::KwWhile,
            TokenKind::KwFor,
            TokenKind::KwBreak,
            TokenKind::KwContinue,
            TokenKind::Underscore,
            TokenKind::Union,
            TokenKind::Ident,
            TokenKind::Ident,
            TokenKind::Eof,
        ]
    );
}

#[test]
fn lexes_every_punctuation_and_operator() {
    assert_eq!(
        kinds("( ) { } [ ] , : ; ^ ? % . .. + += - -> -= * *= / /= = => == ! != < <= > >= & && | ||"),
        vec![
            TokenKind::LParen,
            TokenKind::RParen,
            TokenKind::LBrace,
            TokenKind::RBrace,
            TokenKind::LBracket,
            TokenKind::RBracket,
            TokenKind::Comma,
            TokenKind::Colon,
            TokenKind::Semi,
            TokenKind::Caret,
            TokenKind::Question,
            TokenKind::Percent,
            TokenKind::Dot,
            TokenKind::DotDot,
            TokenKind::Plus,
            TokenKind::PlusEq,
            TokenKind::Minus,
            TokenKind::Arrow,
            TokenKind::MinusEq,
            TokenKind::Star,
            TokenKind::StarEq,
            TokenKind::Slash,
            TokenKind::SlashEq,
            TokenKind::Eq,
            TokenKind::FatArrow,
            TokenKind::EqEq,
            TokenKind::Bang,
            TokenKind::Ne,
            TokenKind::Lt,
            TokenKind::Le,
            TokenKind::Gt,
            TokenKind::Ge,
            TokenKind::Amp,
            TokenKind::AmpAmp,
            TokenKind::Pipe,
            TokenKind::PipePipe,
            TokenKind::Eof,
        ]
    );
}

#[test]
fn string_escapes_hide_the_quote() {
    assert_eq!(
        tokens("\"a\\\"b\" x"),
        vec![(TokenKind::Str, 0, 6), (TokenKind::Ident, 7, 8), (TokenKind::Eof, 8, 8)]
    );
}

#[test]
fn string_ending_in_backslash_is_unterminated() {
    assert_eq!(
        tokens("\"ab\\"),
        vec![
            (TokenKind::Error(LexErrorKind::UnterminatedString), 0, 4),
            (TokenKind::Eof, 4, 4),
        ]
    );
}

#[test]
fn eof_repeats_once_reached() {
    let mut lexer = Lexer::new("x");
    let first = lexer.next_token();
    assert_eq!((first.kind, first.span.start, first.span.end), (TokenKind::Ident, 0, 1));
    for _ in 0..3 {
        let t = lexer.next_token();
        assert_eq!((t.kind, t.span.start, t.span.end), (TokenKind::Eof, 1, 1));
    }
}

#[test]
fn empty_source_gives_only_eof() {
    assert_eq!(tokens(""), vec![(TokenKind::Eof, 0, 0)]);
    assert_eq!(tokens(" \t\r\n  "), vec![(TokenKind::Eof, 6, 6)]);
}

#[test]
fn dot_after_number_joins_it_only_before_a_digit_a_blank_or_the_end() {
    assert_eq!(
        tokens("1.max 1.e5 2.5e+3 3.;"),
        vec![
            (TokenKind::Number, 0, 1),
            (TokenKind::Dot, 1, 2),
            (TokenKind::Ident, 2, 5),
            (TokenKind::Number, 6, 7),
            (TokenKind::Dot, 7, 8),
            (TokenKind::Ident, 8, 10),
            (TokenKind::Number, 11, 17),
            (TokenKind::Number, 18, 19),
            (TokenKind::Dot, 19, 20),
            (TokenKind::Semi, 20, 21),
            (TokenKind::Eof, 21, 21),
        ]
    );
    assert_eq!(
        tokens("4.\n5. (6.)"),
        vec![
            (TokenKind::Number, 0, 2),
            (TokenKind::Semi, 3, 3),
            (TokenKind::Number, 3, 5),
            (TokenKind::LParen, 6, 7),
            (TokenKind::Number, 7, 8),
            (TokenKind::Dot, 8, 9),
            (TokenKind::RParen, 9, 10),
            (TokenKind::Eof, 10, 10),
        ]
    );
    assert_eq!(tokens("9."), vec![(TokenKind::Number, 0, 2), (TokenKind::Eof, 2, 2)]);
}

#[test]
fn radix_and_exponent_shapes() {
    assert_eq!(
        tokens("16r_FF_zz 1e- 7"),
        vec![
            (TokenKind::Number, 0, 9),
            (TokenKind::Number, 10, 13),
            (TokenKind::Number, 14, 15),
            (TokenKind::Eof, 15, 15),
        ]
    );
}

#[test]
fn inserted_semicolon_stands_where_the_next_line_starts() {
    assert_eq!(
        tokens("x // c\ny"),
        vec![
            (TokenKind::Ident, 0, 1),
            (TokenKind::Semi, 7, 7),
            (TokenKind::Ident, 7, 8),
            (TokenKind::Eof, 8, 8),
        ]
    );
    assert_eq!(
        tokens("a\t\r\nb"),
        vec![
            (TokenKind::Ident, 0, 1),
            (TokenKind::Semi, 4, 4),
            (TokenKind::Ident, 4, 5),
            (TokenKind::Eof, 5, 5),
        ]
    );
}

#[test]
fn line_break_inside_nested_comment_ends_the_statement() {
    assert_eq!(
        tokens("x /* a /* b \n */ */ y"),
        vec![
            (TokenKind::Ident, 0, 1),
            (TokenKind::Semi, 20, 20),
            (TokenKind::Ident, 20, 21),
            (TokenKind::Eof, 21, 21),
        ]
    );
}

#[test]
fn no_semicolon_after_operator_or_at_start() {
    assert_eq!(
        kinds("\nx =\n1"),
        vec![TokenKind::Ident, TokenKind::Eq, TokenKind::Number, TokenKind::Eof]
    );
}

#[test]
fn bytes_that_start_no_token_are_errors() {
    assert_eq!(
        tokens("#$"),
        vec![
            (TokenKind::Error(LexErrorKind::InvalidChar), 0, 1),
            (TokenKind::Error(LexErrorKind::InvalidChar), 1, 2),
            (TokenKind::Eof, 2, 2),
        ]
    );
}

#[test]
fn unterminated_comment_after_operator_is_reported_at_once() {
    assert_eq!(
        tokens("+\n/* open"),
        vec![
            (TokenKind::Plus, 0, 1),
            (TokenKind::Error(LexErrorKind::UnterminatedBlockComment), 2, 9),
            (TokenKind::Eof, 9, 9),
        ]
    );
}

#[test]
fn cursor_bump_hands_out_what_peek_showed() {
    let mut cursor = Cursor::new("a + b");
    let seen = cursor.peek();
    let bumped = cursor.bump();
    assert_eq!((seen.kind, seen.span.start), (bumped.kind, bumped.span.start));
    assert_eq!(bumped.kind, TokenKind::Ident);
    assert_eq!(cursor.peek().kind, TokenKind::Plus);
    assert_eq!(cursor.bump().kind, TokenKind::Plus);
    let b = cursor.bump();
    assert_eq!((b.kind, b.span.start, b.span.end), (TokenKind::Ident, 4, 5));
    assert_eq!(cursor.peek().kind, TokenKind::Eof);
    assert_eq!(cursor.bump().kind, TokenKind::Eof);
    let eof = cursor.peek();
    assert_eq!((eof.kind, eof.span.start, eof.span.end), (TokenKind::Eof, 5, 5));
}

#[test]
fn token_count_is_bounded_by_twice_the_length() {
    let src = "x\n/* a\ny";
    let toks = tokens(src);
    assert!(toks.len() <= 2 * src.len() + 1);
    for w in toks.windows(2) {
        assert!(w[0].1 <= w[0].2);
        assert!(w[0].2 as usize <= src.len());
    }
}

#[test]
fn cursor_hands_out_the_lexer_tokens_in_order() {
    let src = "let x = 1.\n(y) /* c */ z";
    let expected = tokens(src);
    let mut cursor = Cursor::new(src);
    for &(kind, start, end) in &expected {
        let t = cursor.bump();
        assert_eq!((t.kind, t.span.start, t.span.end), (kind, start, end));
    }
    assert_eq!(cursor.peek().kind, TokenKind::Eof);
}

#[test]
fn gaps_between_tokens_hold_only_blanks_and_comments() {
    let src = "a /* one\n */ b // two\n c\t;";
    let toks = tokens(src);
    let bytes = src.as_bytes();
    let mut prev_end = 0usize;
    for &(kind, start, end) in &toks {
        let gap = &src[prev_end..start as usize];
        let stripped: String = gap
            .replace("/* one\n */", "")
            .replace("// two", "")
            .chars()
            .filter(|c| !matches!(c, ' ' | '\t' | '\r' | '\n'))
            .collect();
        assert!(stripped.is_empty(), "gap {:?} before {:?}", gap, kind);
        assert!(start <= end && end as usize <= bytes.len());
        prev_end = end as usize;
    }
    assert_eq!(
        toks.iter().map(|t| t.0).collect::<Vec<_>>(),
        vec![
            TokenKind::Ident,
            TokenKind::Semi,
            TokenKind::Ident,
            TokenKind::Semi,
            TokenKind::Ident,
            TokenKind::Semi,
            TokenKind::Eof,
        ]
    );
}
