use ski::lexer::{Keyword, LexError, Lexer, Literal, Pos, Symbol, Token, TokenKind};

fn kinds(tokens: &[Token]) -> Vec<&TokenKind> {
    tokens.iter().map(|t| t.kind()).collect()
}

#[test]
fn test() {
    let _lexer = Lexer::new();
}

#[test]
fn strip_line_comment() {
    assert_eq!(Lexer::strip_comments("a //x\nb"), "a \nb");
}

#[test]
fn strip_block_comment() {
    assert_eq!(Lexer::strip_comments("a/*x*/b"), "ab");
}

#[test]
fn strip_unterminated_comments() {
    assert_eq!(Lexer::strip_comments("a/*x"), "a");
    assert_eq!(Lexer::strip_comments("a//x"), "a");
    assert_eq!(Lexer::strip_comments("a/*x*"), "a");
}

#[test]
fn strip_block_before_line() {
    // a `//` inside a block comment is never separately interpreted
    assert_eq!(Lexer::strip_comments("a/* //x */b\nc"), "ab\nc");
}

#[test]
fn strip_idempotent_examples() {
    for input in ["a //x\nb", "a/*x*/b", "", "no comments at all", "/*a*/ //b", "x/y"] {
        let once = Lexer::strip_comments(input);
        let twice = Lexer::strip_comments(&once);
        assert_eq!(twice, once);
    }
}

#[test]
fn strip_seam_splices_new_opener() {
    // removing the block comment splices its neighbours into a new `/*`,
    // which only a further pass would consume; stripping is not idempotent
    // on such inputs
    let once = Lexer::strip_comments("//*x*/*y*/");
    assert_eq!(once, "/*y*/");
    assert_eq!(Lexer::strip_comments(&once), "");
}

#[test]
fn lex_one_plus_one() {
    let mut lexer = Lexer::new();
    let tokens = lexer.lex("1+1").unwrap();
    assert_eq!(
        kinds(&tokens),
        vec![
            &TokenKind::Literal(Literal::Int(1)),
            &TokenKind::Symbol(Symbol::Add),
            &TokenKind::Literal(Literal::Int(1)),
        ]
    );
}

#[test]
fn lex_one_plus_one_spaced() {
    let mut lexer = Lexer::new();
    for input in ["1+1 ", "1 + 1"] {
        let tokens = lexer.lex(input).unwrap();
        assert_eq!(
            kinds(&tokens),
            vec![
                &TokenKind::Literal(Literal::Int(1)),
                &TokenKind::Symbol(Symbol::Add),
                &TokenKind::Literal(Literal::Int(1)),
            ]
        );
    }
}

#[test]
fn lex_let_statement() {
    let mut lexer = Lexer::new();
    let tokens = lexer.lex("let x = 1 + 1;").unwrap();
    assert_eq!(
        kinds(&tokens),
        vec![
            &TokenKind::Keyword(Keyword::Let),
            &TokenKind::Identifier(String::from("x")),
            &TokenKind::Symbol(Symbol::Equal),
            &TokenKind::Literal(Literal::Int(1)),
            &TokenKind::Symbol(Symbol::Add),
            &TokenKind::Literal(Literal::Int(1)),
            &TokenKind::Symbol(Symbol::SemiColon),
        ]
    );
}

#[test]
fn lex_hex_literal() {
    let mut lexer = Lexer::new();
    let tokens = lexer.lex("0x1F").unwrap();
    assert_eq!(kinds(&tokens), vec![&TokenKind::Literal(Literal::Int(31))]);
}

#[test]
fn lex_string_literal() {
    let mut lexer = Lexer::new();
    let tokens = lexer.lex("\"hi\"").unwrap();
    assert_eq!(
        kinds(&tokens),
        vec![&TokenKind::Literal(Literal::Str(String::from("hi")))]
    );
}

#[test]
fn lex_separated_pipes() {
    // doubling requires adjacency: each pipe is flushed separately
    let mut lexer = Lexer::new();
    let tokens = lexer.lex("| |").unwrap();
    assert_eq!(
        kinds(&tokens),
        vec![
            &TokenKind::Symbol(Symbol::BinaryOr),
            &TokenKind::Symbol(Symbol::BinaryOr),
        ]
    );
}

#[test]
fn lex_adjacent_pipes() {
    let mut lexer = Lexer::new();
    let tokens = lexer.lex("||").unwrap();
    assert_eq!(kinds(&tokens), vec![&TokenKind::Symbol(Symbol::LogicalOr)]);
}

#[test]
fn lex_function_source() {
    let mut lexer = Lexer::new();
    let tokens = lexer.lex("fn hi(){if 1==1{print(\"hi\");}}").unwrap();
    assert_eq!(
        kinds(&tokens),
        vec![
            &TokenKind::Keyword(Keyword::Function),
            &TokenKind::Identifier(String::from("hi")),
            &TokenKind::Symbol(Symbol::OpenParen),
            &TokenKind::Symbol(Symbol::CloseParen),
            &TokenKind::Symbol(Symbol::OpenBracket),
            &TokenKind::Keyword(Keyword::If),
            &TokenKind::Literal(Literal::Int(1)),
            &TokenKind::Symbol(Symbol::DoubleEqual),
            &TokenKind::Literal(Literal::Int(1)),
            &TokenKind::Symbol(Symbol::OpenBracket),
            &TokenKind::Identifier(String::from("print")),
            &TokenKind::Symbol(Symbol::OpenParen),
            &TokenKind::Literal(Literal::Str(String::from("hi"))),
            &TokenKind::Symbol(Symbol::CloseParen),
            &TokenKind::Symbol(Symbol::SemiColon),
            &TokenKind::Symbol(Symbol::CloseBracket),
            &TokenKind::Symbol(Symbol::CloseBracket),
        ]
    );
}

#[test]
fn lex_ignores_comments() {
    let mut plain = Lexer::new();
    let expected = plain
        .lex("fn hi() {\n\tif 1 == 1 {\n\t\tprint(\"hi\");\n}}")
        .unwrap();
    let mut lexer = Lexer::new();
    let tokens = lexer
        .lex("/**/fn hi/**//**/() {\n\tif 1 == 1 {\n\t\tprint(\"hi\");\n}}// aje=  df d")
        .unwrap();
    assert_eq!(kinds(&tokens), kinds(&expected));
}

#[test]
fn lex_compound_assign() {
    let mut lexer = Lexer::new();
    let tokens = lexer.lex("x += 1").unwrap();
    assert_eq!(
        kinds(&tokens),
        vec![
            &TokenKind::Identifier(String::from("x")),
            &TokenKind::Symbol(Symbol::AddAssign),
            &TokenKind::Literal(Literal::Int(1)),
        ]
    );
}

#[test]
fn lex_string_keeps_pending_buffer() {
    // the opening quote flushes nothing: a pending word becomes part of the
    // string literal's text
    let mut lexer = Lexer::new();
    let tokens = lexer.lex("abc\"x\"").unwrap();
    assert_eq!(
        kinds(&tokens),
        vec![&TokenKind::Literal(Literal::Str(String::from("abcx")))]
    );
}

#[test]
fn lex_error_hex_digit_in_decimal() {
    let mut lexer = Lexer::new();
    assert_eq!(lexer.lex("1a"), Err(LexError::StrayHexDigit));
}

#[test]
fn lex_error_misplaced_hex_marker() {
    let mut lexer = Lexer::new();
    assert_eq!(lexer.lex("12x"), Err(LexError::StrayHexMarker));
}

#[test]
fn lex_error_empty_hex_digits() {
    let mut lexer = Lexer::new();
    assert_eq!(lexer.lex("0x"), Err(LexError::EmptyIntegerDigits));
}

#[test]
fn lex_error_integer_overflow() {
    let mut lexer = Lexer::new();
    assert_eq!(
        lexer.lex("99999999999999999999"),
        Err(LexError::IntegerOverflow)
    );
}

#[test]
fn lex_largest_integer() {
    let mut lexer = Lexer::new();
    let tokens = lexer.lex("18446744073709551615").unwrap();
    assert_eq!(
        kinds(&tokens),
        vec![&TokenKind::Literal(Literal::Int(u64::MAX))]
    );
}

#[test]
fn lex_positions_at_token_completion() {
    let mut lexer = Lexer::new();
    let tokens = lexer.lex("a b\nc").unwrap();
    let positions: Vec<(usize, usize)> = tokens
        .iter()
        .map(|t| (t.pos().row(), t.pos().col()))
        .collect();
    // positions reflect where each token was completed, not started
    assert_eq!(positions, vec![(0, 2), (0, 4), (1, 1)]);
}

#[test]
fn lex_position_persists_across_inputs() {
    let mut lexer = Lexer::new();
    let first = lexer.lex("a").unwrap();
    assert_eq!((first[0].pos().row(), first[0].pos().col()), (0, 1));
    let second = lexer.lex("b").unwrap();
    assert_eq!((second[0].pos().row(), second[0].pos().col()), (0, 2));
}

#[test]
fn lex_words_round_trip_on_kinds() {
    // scanning balanced words, spelling each token kind back out and
    // rescanning reproduces the same token kinds
    let mut lexer = Lexer::new();
    let source = "let x = y + z ; foo == bar | baz";
    let tokens = lexer.lex(source).unwrap();
    let spelled: Vec<String> = tokens
        .iter()
        .map(|t| match t.kind() {
            TokenKind::Identifier(s) => s.clone(),
            TokenKind::Keyword(Keyword::Let) => String::from("let"),
            TokenKind::Symbol(Symbol::Equal) => String::from("="),
            TokenKind::Symbol(Symbol::Add) => String::from("+"),
            TokenKind::Symbol(Symbol::SemiColon) => String::from(";"),
            TokenKind::Symbol(Symbol::DoubleEqual) => String::from("=="),
            TokenKind::Symbol(Symbol::BinaryOr) => String::from("|"),
            other => panic!("unexpected token kind: {:?}", other),
        })
        .collect();
    let rebuilt = spelled.join(" ");
    assert_eq!(rebuilt, source);
    let mut second = Lexer::new();
    let again = second.lex(&rebuilt).unwrap();
    assert_eq!(kinds(&again), kinds(&tokens));
}

#[test]
fn token_kind_classification() {
    assert_eq!(TokenKind::new("fn"), TokenKind::Keyword(Keyword::Function));
    assert_eq!(TokenKind::new("in"), TokenKind::Keyword(Keyword::In));
    assert_eq!(TokenKind::new("**"), TokenKind::Symbol(Symbol::Pow));
    assert_eq!(TokenKind::new("^"), TokenKind::Symbol(Symbol::Xor));
    assert_eq!(
        TokenKind::new("true"),
        TokenKind::Literal(Literal::Bool(true))
    );
    assert_eq!(
        TokenKind::new("false"),
        TokenKind::Literal(Literal::Bool(false))
    );
    assert_eq!(
        TokenKind::new("frobnicate"),
        TokenKind::Identifier(String::from("frobnicate"))
    );
}

#[test]
fn token_holds_kind_and_position() {
    let token = Token::new(TokenKind::Symbol(Symbol::Add), Pos::new());
    assert_eq!(token.kind(), &TokenKind::Symbol(Symbol::Add));
    assert_eq!(token.pos().row(), 0);
    assert_eq!(token.pos().col(), 0);
}

#[test]
fn lex_mul_and_div_assign() {
    let mut lexer = Lexer::new();
    let tokens = lexer.lex("x *= 1").unwrap();
    assert_eq!(
        kinds(&tokens),
        vec![
            &TokenKind::Identifier(String::from("x")),
            &TokenKind::Symbol(Symbol::MulAssign),
            &TokenKind::Literal(Literal::Int(1)),
        ]
    );
    let tokens = lexer.lex("y /= 2").unwrap();
    assert_eq!(
        kinds(&tokens),
        vec![
            &TokenKind::Identifier(String::from("y")),
            &TokenKind::Symbol(Symbol::DivAssign),
            &TokenKind::Literal(Literal::Int(2)),
        ]
    );
}
