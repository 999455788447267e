use ika::lexer::{tokenization, Token, TokenType, LEXER};

fn token(token_type: TokenType, value: &str) -> Token {
    Token { token_type, value: String::from(value) }
}

fn read_all(input: &str) -> Vec<Token> {
    let mut lexer = LEXER::new(input);
    let mut tokens: Vec<Token> = Vec::new();
    while let Some(ctk) = lexer.next_token() {
        tokens.push(ctk);
    }
    tokens
}

#[test]
fn input_to_token() {
    let input = "i32 a = 1;//this is a comment!\nsub main{\nret 0;}";

    let mut lexer = LEXER::new(input);
    let mut tokens: Vec<Token> = Vec::new();

    while let Some(ctk) = lexer.next_token() {
        tokens.push(ctk);
    }

    let right_result = vec![
        Token { token_type: TokenType::KEYWORD, value: String::from("i32") },
        Token { token_type: TokenType::ID, value: String::from("a") },
        Token { token_type: TokenType::EQUALS, value: String::from("=") },
        Token { token_type: TokenType::NUMBER, value: String::from("1") },
        Token { token_type: TokenType::SEMICOLON, value: String::from(";") },
        Token { token_type: TokenType::KEYWORD, value: String::from("sub") },
        Token { token_type: TokenType::ID, value: String::from("main") },
        Token { token_type: TokenType::LBRACE, value: String::from("{") },
        Token { token_type: TokenType::KEYWORD, value: String::from("ret") },
        Token { token_type: TokenType::NUMBER, value: String::from("0") },
        Token { token_type: TokenType::SEMICOLON, value: String::from(";") },
        Token { token_type: TokenType::RBRACE, value: String::from("}") },
    ];

    assert_eq!(tokens, right_result);

    let _ = tokenization(&mut lexer);
}

#[test]
fn comment() {
    let input = "i32 a = 1;//This is a comment!\n i32 b = 1;";

    let mut lexer = LEXER::new(input);
    let mut tokens: Vec<Token> = Vec::new();

    while let Some(ctk) = lexer.next_token() {
        tokens.push(ctk);
    }

    let right_result = vec![
        Token { token_type: TokenType::KEYWORD, value: String::from("i32") },
        Token { token_type: TokenType::ID, value: String::from("a") },
        Token { token_type: TokenType::EQUALS, value: String::from("=") },
        Token { token_type: TokenType::NUMBER, value: String::from("1") },
        Token { token_type: TokenType::SEMICOLON, value: String::from(";") },
        Token { token_type: TokenType::KEYWORD, value: String::from("i32") },
        Token { token_type: TokenType::ID, value: String::from("b") },
        Token { token_type: TokenType::EQUALS, value: String::from("=") },
        Token { token_type: TokenType::NUMBER, value: String::from("1") },
        Token { token_type: TokenType::SEMICOLON, value: String::from(";") },
    ];

    assert_eq!(tokens, right_result);

    let _ = tokenization(&mut lexer);
}

#[test]
fn calculate() {
    let input = "i32 a = 1 + 5 - 7 * 4 / 2;";

    let mut lexer = LEXER::new(input);
    let mut tokens: Vec<Token> = Vec::new();

    while let Some(ctk) = lexer.next_token() {
        tokens.push(ctk);
    }

    let right_result = vec![
        Token { token_type: TokenType::KEYWORD, value: String::from("i32") },
        Token { token_type: TokenType::ID, value: String::from("a") },
        Token { token_type: TokenType::EQUALS, value: String::from("=") },
        Token { token_type: TokenType::NUMBER, value: String::from("1") },
        Token { token_type: TokenType::ADD, value: String::from("+") },
        Token { token_type: TokenType::NUMBER, value: String::from("5") },
        Token { token_type: TokenType::MINUS, value: String::from("-") },
        Token { token_type: TokenType::NUMBER, value: String::from("7") },
        Token { token_type: TokenType::ASTERISK, value: String::from("*") },
        Token { token_type: TokenType::NUMBER, value: String::from("4") },
        Token { token_type: TokenType::SLASH, value: String::from("/") },
        Token { token_type: TokenType::NUMBER, value: String::from("2") },
        Token { token_type: TokenType::SEMICOLON, value: String::from(";") },
    ];

    assert_eq!(tokens, right_result);

    let _ = tokenization(&mut lexer);
}

#[test]
fn string() {
    let input = "str a = \"aaa\";";

    let mut lexer = LEXER::new(input);
    let mut tokens: Vec<Token> = Vec::new();

    while let Some(ctk) = lexer.next_token() {
        tokens.push(ctk);
    }

    let right_result = vec![
        Token { token_type: TokenType::KEYWORD, value: String::from("str") },
        Token { token_type: TokenType::ID, value: String::from("a") },
        Token { token_type: TokenType::EQUALS, value: String::from("=") },
        Token { token_type: TokenType::STRING, value: String::from("aaa") },
        Token { token_type: TokenType::SEMICOLON, value: String::from(";") },
    ];

    assert_eq!(tokens, right_result);

    let _ = tokenization(&mut lexer);
}

#[test]
fn tokenization_reads_every_token() {
    let mut lexer = LEXER::new("a -> b");
    let tokens = tokenization(&mut lexer).unwrap();
    assert_eq!(
        tokens,
        vec![token(TokenType::ID, "a"), token(TokenType::ARROW, "->"), token(TokenType::ID, "b")]
    );
    assert_eq!(lexer.next_token(), None);
}

#[test]
fn two_character_operators() {
    assert_eq!(
        read_all("== = >= > <= < != ! -> -"),
        vec![
            token(TokenType::DEQUALS, "=="),
            token(TokenType::EQUALS, "="),
            token(TokenType::LE, ">="),
            token(TokenType::LT, ">"),
            token(TokenType::SE, "<="),
            token(TokenType::ST, "<"),
            token(TokenType::UNEQ, "!="),
            token(TokenType::EX, "!"),
            token(TokenType::ARROW, "->"),
            token(TokenType::MINUS, "-"),
        ]
    );
}

#[test]
fn operator_at_the_end_of_the_source() {
    assert_eq!(read_all("a ="), vec![token(TokenType::ID, "a"), token(TokenType::EQUALS, "=")]);
    assert_eq!(read_all("a -"), vec![token(TokenType::ID, "a"), token(TokenType::MINUS, "-")]);
    assert_eq!(read_all("!"), vec![token(TokenType::EX, "!")]);
}

#[test]
fn punctuation() {
    assert_eq!(
        read_all(";:{}()'+*,@"),
        vec![
            token(TokenType::SEMICOLON, ";"),
            token(TokenType::COLON, ":"),
            token(TokenType::LBRACE, "{"),
            token(TokenType::RBRACE, "}"),
            token(TokenType::LPAREN, "("),
            token(TokenType::RPAREN, ")"),
            token(TokenType::QUOTES, "'"),
            token(TokenType::ADD, "+"),
            token(TokenType::ASTERISK, "*"),
            token(TokenType::COMMA, ","),
            token(TokenType::AT, "@"),
        ]
    );
}

#[test]
fn boolean_constants_are_numbers() {
    assert_eq!(
        read_all("true false truth"),
        vec![
            token(TokenType::NUMBER, "1"),
            token(TokenType::NUMBER, "0"),
            token(TokenType::ID, "truth"),
        ]
    );
}

#[test]
fn every_keyword() {
    let words = "i32 bool str ret sub if else elif while for in call";
    let tokens = read_all(words);
    assert_eq!(tokens.len(), 12);
    for (token, word) in tokens.iter().zip(words.split(' ')) {
        assert_eq!(token.token_type, TokenType::KEYWORD);
        assert_eq!(token.value, word);
    }
}

#[test]
fn words_may_hold_digits_and_underscores() {
    assert_eq!(
        read_all("_a1 b_2 9c"),
        vec![
            token(TokenType::ID, "_a1"),
            token(TokenType::ID, "b_2"),
            token(TokenType::NUMBER, "9"),
            token(TokenType::ID, "c"),
        ]
    );
}

#[test]
fn words_of_other_scripts() {
    assert_eq!(read_all("größe = 1"), vec![
        token(TokenType::ID, "größe"),
        token(TokenType::EQUALS, "="),
        token(TokenType::NUMBER, "1"),
    ]);
}

#[test]
fn unknown_character_is_an_end_token() {
    assert_eq!(read_all("a # b"), vec![
        token(TokenType::ID, "a"),
        token(TokenType::EOF, ""),
        token(TokenType::ID, "b"),
    ]);
}

#[test]
fn trailing_slash_is_dropped() {
    assert_eq!(read_all("a /"), vec![token(TokenType::ID, "a")]);
    assert_eq!(read_all("a / b"), vec![
        token(TokenType::ID, "a"),
        token(TokenType::SLASH, "/"),
        token(TokenType::ID, "b"),
    ]);
}

#[test]
fn comment_without_line_end() {
    assert_eq!(read_all("a // the rest"), vec![token(TokenType::ID, "a")]);
    assert_eq!(read_all("//\n//\nb"), vec![token(TokenType::ID, "b")]);
}

#[test]
fn unterminated_string_runs_to_the_end() {
    assert_eq!(read_all("\"abc"), vec![token(TokenType::STRING, "abc")]);
    assert_eq!(read_all("\"\""), vec![token(TokenType::STRING, "")]);
}

#[test]
fn empty_source_has_no_token() {
    assert_eq!(read_all(""), vec![]);
    assert_eq!(read_all(" \t\n"), vec![]);
}

#[test]
fn every_kind_of_white_space_is_skipped() {
    assert_eq!(
        read_all("a\tb\nc\rd\u{a0}e\u{3000}f\u{2028}g\u{b}h\u{c}i"),
        vec![
            token(TokenType::ID, "a"),
            token(TokenType::ID, "b"),
            token(TokenType::ID, "c"),
            token(TokenType::ID, "d"),
            token(TokenType::ID, "e"),
            token(TokenType::ID, "f"),
            token(TokenType::ID, "g"),
            token(TokenType::ID, "h"),
            token(TokenType::ID, "i"),
        ]
    );
    assert_eq!(read_all("a\u{200b}b"), vec![
        token(TokenType::ID, "a"),
        token(TokenType::EOF, ""),
        token(TokenType::ID, "b"),
    ]);
}

#[test]
fn numerals_of_other_scripts() {
    assert_eq!(read_all("x٣ ½"), vec![token(TokenType::ID, "x٣"), token(TokenType::EOF, "")]);
    assert_eq!(read_all("12x"), vec![token(TokenType::NUMBER, "12"), token(TokenType::ID, "x")]);
    assert_eq!(read_all("٣"), vec![token(TokenType::EOF, "")]);
    assert_eq!(read_all("aⅧ½"), vec![token(TokenType::ID, "aⅧ½")]);
}

#[test]
fn pieces_of_the_tokenizer() {
    let mut lexer = LEXER::new("abc123 456 ");
    assert_eq!(lexer.collect_identifier_keyword(), token(TokenType::ID, "abc123"));
    assert_eq!(lexer.collect_identifier_keyword(), token(TokenType::ID, ""));
    assert_eq!(lexer.collect_number(), token(TokenType::NUMBER, ""));
    assert_eq!(lexer.collect_symbol(), token(TokenType::EOF, ""));
    assert_eq!(lexer.collect_number(), token(TokenType::NUMBER, "456"));
    assert_eq!(lexer.collect_string(), token(TokenType::STRING, " "));
    assert_eq!(lexer.collect_symbol(), token(TokenType::EOF, ""));
    assert_eq!(lexer.collect_eq(), token(TokenType::EQUALS, "="));
    assert_eq!(lexer.collect_lt(), token(TokenType::LT, ">"));
    assert_eq!(lexer.collect_st(), token(TokenType::ST, "<"));
    assert_eq!(lexer.collect_ex(), token(TokenType::EX, "!"));
    assert_eq!(lexer.collect_minus(), token(TokenType::MINUS, "-"));
    let mut lexer = LEXER::new("=>x");
    assert_eq!(lexer.collect_eq(), token(TokenType::DEQUALS, "=="));
    assert_eq!(lexer.collect_minus(), token(TokenType::ARROW, "->"));
    assert_eq!(lexer.next_token(), Some(token(TokenType::ID, "x")));
    assert_eq!(lexer.next_token(), None);
}
