use ika::grammar::{ParseError, ParseErrorKind};
use ika::lexer::{tokenization, Error, Token, TokenType, LEXER};
use ika::parser::{handle_identifier, handle_type, ASTNode, Parser};
use ika::sema::lib_insert_symbol;

fn tokens_of(input: &str) -> Vec<Token> {
    let mut lexer = LEXER::new(input);
    let mut tokens = tokenization(&mut lexer).unwrap();
    tokens.push(Token { token_type: TokenType::EOF, value: String::new() });
    tokens
}

fn parse(input: &str) -> Result<ASTNode, ParseError> {
    let mut parser = Parser::new(tokens_of(input));
    lib_insert_symbol(&mut parser.scopes);
    parser.parse_program()
}

fn statements(input: &str) -> Vec<ASTNode> {
    match parse(input) {
        Ok(ASTNode::Program(statements)) => statements,
        other => panic!("no program: {:?}", other),
    }
}

fn failure(input: &str) -> ParseError {
    match parse(input) {
        Err(err) => err,
        Ok(tree) => panic!("parsed: {:?}", tree),
    }
}

fn number(text: &str) -> ASTNode {
    ASTNode::Number(String::from(text))
}

fn name(text: &str) -> ASTNode {
    ASTNode::Identifier(String::from(text))
}

fn infix(left: ASTNode, op: &str, right: ASTNode) -> ASTNode {
    ASTNode::InfixExpression {
        left_expr: Box::new(left),
        op: String::from(op),
        right_expr: Box::new(right),
    }
}

fn variable(ty: &str, identifier: &str, value: Option<ASTNode>) -> ASTNode {
    ASTNode::VariableDefinition {
        var_type: String::from(ty),
        identifier: String::from(identifier),
        var_value: value.map(Box::new),
    }
}

#[test]
fn peek() {
    let list = [
        Token { token_type: TokenType::KEYWORD, value: String::from("i32") },
        Token { token_type: TokenType::KEYWORD, value: String::from("i32") },
    ];
    let tokens = Vec::from(list);
    let parser = Parser::new(tokens.clone());
    let first = parser.peek().unwrap();
    let second = parser.peek().unwrap();
    assert_eq!(tokens[0], *first);
    assert_eq!(tokens[1], *second);
}

#[test]
fn peek_overlist() {
    let list = [
        Token { token_type: TokenType::KEYWORD, value: String::from("i32") },
        Token { token_type: TokenType::KEYWORD, value: String::from("i32") },
    ];
    let tokens = Vec::from(list);
    let mut parser = Parser::new(tokens.clone());
    parser.current = 2;
    let third = parser.peek();

    assert_eq!(third, Err(Error::ParserErr));
}

#[test]
fn advance() {
    let list = [
        Token { token_type: TokenType::KEYWORD, value: String::from("i32") },
        Token { token_type: TokenType::KEYWORD, value: String::from("i32") },
    ];
    let tokens = Vec::from(list);
    let mut parser = Parser::new(tokens.clone());

    let first = parser.advance().unwrap();
    assert_eq!(tokens[0], *first);
    let second = parser.advance().unwrap();
    assert_eq!(tokens[1], *second);
    let third = parser.advance();

    assert_eq!(third, Err(Error::ParserErr));
}

#[test]
fn expect() {
    let list = [
        Token { token_type: TokenType::KEYWORD, value: String::from("i32") },
        Token { token_type: TokenType::KEYWORD, value: String::from("sub") },
    ];
    let tokens = Vec::from(list);
    let mut parser = Parser::new(tokens.clone());
    assert!(parser.expect(TokenType::KEYWORD, String::from("i32")).is_ok());
    assert!(parser.expect(TokenType::KEYWORD, String::from("sub")).is_ok());
}

#[test]
#[allow(non_snake_case)]
fn functionDef() {
    let input = "sub main(i32 a, i32 b) -> i32{ ret a + b; }";
    println!("{input}");

    let mut lexer = LEXER::new(input);

    let tokens = tokenization(&mut lexer).unwrap();

    let mut parser = Parser::new(tokens);

    let result = parser.parse_function_definition();

    assert!(result.is_ok());

    if let ASTNode::FunctionDefinition { fn_name, parameters, ret_type, body } = result.unwrap() {
        assert_eq!(fn_name, "main");

        assert_eq!(parameters.len(), 2);
        assert_eq!(parameters[0], ("i32".to_string(), "a".to_string()));
        assert_eq!(parameters[1], ("i32".to_string(), "b".to_string()));

        assert_eq!(ret_type, Some("i32".to_string()));

        assert_eq!(body.len(), 1);
        if let ASTNode::Return(expr) = &body[0] {
            if let ASTNode::InfixExpression { left_expr, op, right_expr } = &**expr {
                assert_eq!(**left_expr, ASTNode::Identifier("a".to_string()));
                assert_eq!(op, "+");
                assert_eq!(**right_expr, ASTNode::Identifier("b".to_string()));
            } else {
                panic!("Expected InfixExpression inside Return.");
            }
        } else {
            panic!("Expected Return statement in function body.");
        }
    } else {
        panic!("Expected FunctionDefinition ASTNode.");
    }
}

#[test]
fn cal_expr() {
    let input = "i32 a = 1 * 2 + (3 - 4) / 5;";

    let mut lexer = LEXER::new(input);

    let mut tokens = tokenization(&mut lexer).unwrap();
    tokens.push(Token { token_type: TokenType::EOF, value: String::new() });

    let mut parser = Parser::new(tokens.clone());

    if let ASTNode::Program(statements) = parser.parse_program().unwrap() {
        assert_eq!(statements.len(), 1);

        if let ASTNode::VariableDefinition { var_type, identifier, var_value } = &statements[0] {
            assert_eq!(var_type, "i32");
            assert_eq!(identifier, "a");

            if let Some(value) = var_value {
                if let ASTNode::InfixExpression { left_expr, op, right_expr } = &**value {
                    assert!(matches!(**left_expr, ASTNode::InfixExpression { .. }));
                    if let ASTNode::InfixExpression { left_expr, op, right_expr } = &**left_expr {
                        assert!(matches!(**left_expr, ASTNode::Number(ref n) if n == "1"));
                        assert_eq!(op, "*");
                        assert!(matches!(**right_expr, ASTNode::Number(ref n) if n == "2"));
                    }

                    assert_eq!(op, "+");
                    if let ASTNode::InfixExpression { left_expr, op, right_expr } = &**right_expr {
                        assert!(matches!(**left_expr, ASTNode::InfixExpression { .. }));
                        if let ASTNode::InfixExpression { left_expr, op, right_expr } =
                            &**left_expr
                        {
                            assert!(matches!(**left_expr, ASTNode::Number(ref n) if n == "3"));
                            assert_eq!(op, "-");
                            assert!(matches!(**right_expr, ASTNode::Number(ref n) if n == "4"));
                        }
                        assert_eq!(op, "/");
                        assert!(matches!(**right_expr, ASTNode::Number(ref n) if n == "5"));
                    }
                }
            } else {
                panic!("Expected a value in assignment, but found None");
            }
        } else {
            panic!("Expected an assignment statement");
        }
    } else {
        panic!("Expected program node");
    }
}

#[test]
fn products_bind_tighter_than_sums() {
    assert_eq!(
        statements("i32 a = 1 + 5 - 7 * 4 / 2;"),
        vec![variable(
            "i32",
            "a",
            Some(infix(
                infix(number("1"), "+", number("5")),
                "-",
                infix(infix(number("7"), "*", number("4")), "/", number("2")),
            )),
        )]
    );
}

#[test]
fn operators_group_from_the_left() {
    assert_eq!(
        statements("i32 a = 8 - 4 - 2; i32 b = 8 / 4 / 2;"),
        vec![
            variable("i32", "a", Some(infix(infix(number("8"), "-", number("4")), "-", number("2")))),
            variable("i32", "b", Some(infix(infix(number("8"), "/", number("4")), "/", number("2")))),
        ]
    );
}

#[test]
fn parentheses_group() {
    assert_eq!(
        statements("i32 a = (1 + 2) * 3;"),
        vec![variable("i32", "a", Some(infix(infix(number("1"), "+", number("2")), "*", number("3"))))]
    );
}

#[test]
fn redefinition_in_one_scope_is_rejected() {
    let err = failure("i32 a = 1; i32 a = 2;");
    assert_eq!(err, ParseError { kind: ParseErrorKind::Redefinition, at: 6 });
    let err = failure("sub f() { i32 a = 1; i32 a = 2; }");
    assert_eq!(err.kind, ParseErrorKind::Redefinition);
    let err = failure("sub f() { } sub f() { }");
    assert_eq!(err.kind, ParseErrorKind::Redefinition);
    let err = failure("sub f(i32 a) { i32 a = 2; }");
    assert_eq!(err.kind, ParseErrorKind::Redefinition);
}

#[test]
fn inner_declaration_hides_outer() {
    let program = statements("i32 a = 1; sub f() -> i32 { str a = \"x\"; ret a; } i32 b = a;");
    assert_eq!(program.len(), 3);
    assert_eq!(program[2], variable("i32", "b", Some(name("a"))));
    if let ASTNode::FunctionDefinition { body, .. } = &program[1] {
        assert_eq!(body[1], ASTNode::Return(Box::new(name("a"))));
    } else {
        panic!("no function");
    }
}

#[test]
fn references_walk_outward() {
    let program = statements("i32 g = 1; sub f() -> i32 { g = 2; ret g + @g; }");
    assert_eq!(program.len(), 2);
}

#[test]
fn locals_end_with_their_function() {
    let err = failure("sub f() { i32 a = 1; } i32 b = a;");
    assert_eq!(err.kind, ParseErrorKind::UnresolvedReference);
    let err = failure("sub f(i32 p) { } i32 b = p;");
    assert_eq!(err.kind, ParseErrorKind::UnresolvedReference);
}

#[test]
fn global_reference_skips_locals() {
    let err = failure("sub f() -> i32 { i32 a = 1; ret @a; }");
    assert_eq!(err.kind, ParseErrorKind::UnresolvedReference);
}

#[test]
fn unresolved_names() {
    assert_eq!(
        failure("i32 a = b;"),
        ParseError { kind: ParseErrorKind::UnresolvedReference, at: 3 }
    );
    assert_eq!(failure("a = 1;").kind, ParseErrorKind::UnresolvedReference);
    assert_eq!(failure("i32 a = f(1);").kind, ParseErrorKind::UnresolvedReference);
    assert_eq!(failure("i32 a = a;").kind, ParseErrorKind::UnresolvedReference);
}

#[test]
fn calls() {
    let program = statements("sub f(i32 x, str y) { } i32 a = 1; f(a, \"s\"); i32 b = f(a \"s\",) + 1;");
    assert_eq!(
        program[2],
        ASTNode::FunctionCall {
            fn_name: String::from("f"),
            argument: vec![name("a"), ASTNode::String(String::from("s"))],
        }
    );
    assert_eq!(
        program[3],
        variable(
            "i32",
            "b",
            Some(infix(
                ASTNode::FunctionCall {
                    fn_name: String::from("f"),
                    argument: vec![name("a"), ASTNode::String(String::from("s"))],
                },
                "+",
                number("1"),
            )),
        )
    );
}

#[test]
fn runtime_functions_can_be_called() {
    let program = statements("echo(\"hi\", 2);");
    assert_eq!(
        program,
        vec![ASTNode::FunctionCall {
            fn_name: String::from("echo"),
            argument: vec![ASTNode::String(String::from("hi")), number("2")],
        }]
    );
}

#[test]
fn function_may_call_itself() {
    let program = statements("sub f(i32 n) -> i32 { ret f(n); }");
    assert_eq!(program.len(), 1);
}

#[test]
fn function_without_return_type() {
    let program = statements("sub f() { }");
    assert_eq!(
        program,
        vec![ASTNode::FunctionDefinition {
            fn_name: String::from("f"),
            parameters: vec![],
            ret_type: None,
            body: vec![],
        }]
    );
}

#[test]
fn assignment_and_definition_without_value() {
    assert_eq!(
        statements("i32 a; a = 3;"),
        vec![
            variable("i32", "a", None),
            ASTNode::Assignment {
                identifier: String::from("a"),
                var_value: Some(Box::new(number("3"))),
            },
        ]
    );
}

#[test]
fn syntax_errors() {
    assert_eq!(failure("i32 a = 1").kind, ParseErrorKind::UnexpectedToken);
    assert_eq!(failure("i32 a = ;"), ParseError { kind: ParseErrorKind::UnexpectedToken, at: 3 });
    assert_eq!(failure("i32 ret = 1;").kind, ParseErrorKind::KeywordAsIdentifier);
    assert_eq!(failure("sub f(bool x) { }").kind, ParseErrorKind::InvalidType);
    assert_eq!(failure("if"), ParseError { kind: ParseErrorKind::InvalidStatement, at: 0 });
    assert_eq!(failure("i32 a; a + 1;"), ParseError { kind: ParseErrorKind::InvalidSymbol, at: 4 });
    assert_eq!(failure("i32 a = @1;").kind, ParseErrorKind::MisplacedAt);
}

#[test]
fn tokens_that_end_too_early() {
    let mut lexer = LEXER::new("i32 a = 1;");
    let tokens = tokenization(&mut lexer).unwrap();
    let mut parser = Parser::new(tokens);
    assert_eq!(
        parser.parse_program(),
        Err(ParseError { kind: ParseErrorKind::UnexpectedEnd, at: 5 })
    );
    let mut lexer = LEXER::new("sub f() { ret 1;");
    let tokens = tokenization(&mut lexer).unwrap();
    let mut parser = Parser::new(tokens);
    assert_eq!(parser.parse_function_definition().unwrap_err().kind, ParseErrorKind::UnexpectedEnd);
    let mut parser = Parser::new(vec![]);
    assert_eq!(
        parser.expect(TokenType::SEMICOLON, String::from(";")),
        Err(ParseError { kind: ParseErrorKind::UnexpectedEnd, at: 0 })
    );
}

#[test]
fn program_stops_at_the_end_token() {
    assert_eq!(statements("i32 a = 1; # i32 a = 2;").len(), 1);
    assert_eq!(statements(""), vec![]);
}

#[test]
fn names_and_types() {
    assert_eq!(handle_identifier("abc"), Ok(String::from("abc")));
    assert_eq!(handle_identifier("bool"), Ok(String::from("bool")));
    for word in ["i32", "str", "ret", "sub", "if", "else", "while", "for", "in", "call"] {
        assert_eq!(handle_identifier(word), Err(ParseErrorKind::KeywordAsIdentifier));
    }
    assert_eq!(handle_type("i32"), Ok(String::from("i32")));
    assert_eq!(handle_type("str"), Ok(String::from("str")));
    assert_eq!(handle_type("bool"), Err(ParseErrorKind::InvalidType));
}

#[test]
fn parse_errors_have_messages() {
    assert_eq!(
        failure("i32 a = 1; i32 a = 2;").message(),
        "token 6: the name is already defined in this scope"
    );
    assert_eq!(failure("i32 a = b;").message(), "token 3: no such variable or function");
    assert_eq!(failure("if").message(), "token 0: this keyword starts no statement");
    assert_eq!(
        ParseError { kind: ParseErrorKind::UnexpectedEnd, at: 12 }.message(),
        "token 12: the input ends where a token is needed"
    );
    assert_eq!(ParseErrorKind::UnexpectedToken.describe(), "unexpected token");
    assert_eq!(ParseErrorKind::InvalidSymbol.describe(), "a name must be followed by `=` or `(`");
    assert_eq!(ParseErrorKind::KeywordAsIdentifier.describe(), "a keyword cannot be used as a name");
    assert_eq!(ParseErrorKind::InvalidType.describe(), "not a valid type");
    assert_eq!(
        ParseErrorKind::MisplacedAt.describe(),
        "`@` must stand before a variable or a function"
    );
}

#[test]
fn long_chains_group_from_the_left() {
    let mut expected = number("0");
    let mut source = String::from("i32 a = 0");
    for i in 1..40 {
        let op = if i % 2 == 0 { "-" } else { "+" };
        source.push_str(&format!(" {} {}", op, i));
        expected = infix(expected, op, number(&i.to_string()));
    }
    source.push(';');
    assert_eq!(statements(&source), vec![variable("i32", "a", Some(expected))]);
    let mut expected = number("1");
    let mut source = String::from("i32 a = 1");
    for i in 2..30 {
        let op = if i % 3 == 0 { "/" } else { "*" };
        source.push_str(&format!(" {} {}", op, i));
        expected = infix(expected, op, number(&i.to_string()));
    }
    source.push(';');
    assert_eq!(statements(&source), vec![variable("i32", "a", Some(expected))]);
}

#[test]
fn errors_are_explained_with_the_offending_token() {
    let explain = |source: &str| {
        let mut lexer = LEXER::new(source);
        let mut tokens = tokenization(&mut lexer).unwrap();
        tokens.push(Token { token_type: TokenType::EOF, value: String::new() });
        let mut parser = Parser::new(tokens);
        lib_insert_symbol(&mut parser.scopes);
        let err = parser.parse_program().unwrap_err();
        parser.explain(&err)
    };
    assert_eq!(
        explain("i32 a = 1; i32 a = 2;"),
        "token 6: the name is already defined in this scope at 'a'"
    );
    assert_eq!(explain("i32 total = count;"), "token 3: no such variable or function at 'count'");
    assert_eq!(explain("i32 a = missing(1);"), "token 3: no such variable or function at 'missing'");
    assert_eq!(explain("i32 ret;"), "token 1: a keyword cannot be used as a name at 'ret'");
    assert_eq!(explain("sub f(sub a) { }"), "token 3: not a valid type at 'sub'");
    assert_eq!(explain("i32 a = ;"), "token 3: unexpected token at ';'");
    let parser = Parser::new(vec![]);
    assert_eq!(
        parser.explain(&ParseError { kind: ParseErrorKind::UnexpectedEnd, at: 0 }),
        "token 0: the input ends where a token is needed at the end of the input"
    );
}
