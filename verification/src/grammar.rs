//! What parsing means: the tree, the scope stack and the position that
//! result from parsing a list of tokens, as functions of the tokens and of
//! the state in which parsing starts.
//!
//! The grammar, with `?` for an optional part and `*` for a repetition:
//!
//! ```text
//! program     = statement* EOF
//! statement   = function | return | variable | assignment | call ";" | expression
//! function    = "sub" name "(" (type name ","?)* ")" ("->" type)? block
//! block       = "{" statement* "}"
//! return      = "ret" expression ";"
//! variable    = type name ("=" expression)? ";"
//! assignment  = name "=" expression ";"
//! expression  = product (("+" | "-") product)*
//! product     = primary (("*" | "/") primary)*
//! primary     = NUMBER | STRING | "@"? name | "@"? call | "(" expression ")"
//! call        = name "(" (expression ","?)* ")"
//! ```

use crate::lexer::{Lexeme, TokenType};
use crate::parser::Tree;
use crate::sema::{
    empty_frame, nearest_frame, with_function, with_variable, FunctionView, SymbolTableView,
};
use vstd::prelude::*;

verus! {

/// The kinds of parse error.
#[derive(Debug, PartialEq, Eq, Clone, Copy, Structural)]
pub enum ParseErrorKind {
    /// The tokens end where one more is needed.
    UnexpectedEnd,
    /// A token other than the one that the grammar asks for.
    UnexpectedToken,
    /// A keyword that starts no statement.
    InvalidStatement,
    /// A name at the start of a statement that neither `=` nor `(` follows.
    InvalidSymbol,
    /// A reserved word where a name is needed.
    KeywordAsIdentifier,
    /// A word that names no type where a type is needed.
    InvalidType,
    /// An `@` that no name follows.
    MisplacedAt,
    /// A name that the current scope already declares.
    Redefinition,
    /// A variable or function name that no visible declaration binds.
    UnresolvedReference,
}

/// A parse error: its kind, and the index of the token at which it was met
/// (the number of tokens where they ended too early).
#[derive(Debug, PartialEq, Eq, Clone, Copy, Structural)]
pub struct ParseError {
    pub kind: ParseErrorKind,
    pub at: usize,
}

/// What went wrong, in words, for each kind of parse error.
pub open spec fn kind_text(kind: ParseErrorKind) -> Seq<char> {
    match kind {
        ParseErrorKind::UnexpectedEnd => "the input ends where a token is needed"@,
        ParseErrorKind::UnexpectedToken => "unexpected token"@,
        ParseErrorKind::InvalidStatement => "this keyword starts no statement"@,
        ParseErrorKind::InvalidSymbol => "a name must be followed by `=` or `(`"@,
        ParseErrorKind::KeywordAsIdentifier => "a keyword cannot be used as a name"@,
        ParseErrorKind::InvalidType => "not a valid type"@,
        ParseErrorKind::MisplacedAt => "`@` must stand before a variable or a function"@,
        ParseErrorKind::Redefinition => "the name is already defined in this scope"@,
        ParseErrorKind::UnresolvedReference => "no such variable or function"@,
    }
}

/// The message of a parse error: the index of the token, then what went
/// wrong.
pub open spec fn error_text(err: ParseError) -> Seq<char> {
    "token "@ + crate::text::decimal(err.at as nat) + ": "@ + kind_text(err.kind)
}

/// The message of a parse error met in `tokens`, with the text of the token
/// that it points at: for an error about a name or a type, that word.
pub open spec fn located_text(err: ParseError, tokens: Seq<Lexeme>) -> Seq<char> {
    if err.at < tokens.len() {
        error_text(err) + " at '"@ + tokens[err.at as int].text + "'"@
    } else {
        error_text(err) + " at the end of the input"@
    }
}

impl ParseErrorKind {
    /// What went wrong, in words.
    pub fn describe(&self) -> (text: &'static str)
        ensures
            text@ == kind_text(*self),
    {
        match self {
            ParseErrorKind::UnexpectedEnd => "the input ends where a token is needed",
            ParseErrorKind::UnexpectedToken => "unexpected token",
            ParseErrorKind::InvalidStatement => "this keyword starts no statement",
            ParseErrorKind::InvalidSymbol => "a name must be followed by `=` or `(`",
            ParseErrorKind::KeywordAsIdentifier => "a keyword cannot be used as a name",
            ParseErrorKind::InvalidType => "not a valid type",
            ParseErrorKind::MisplacedAt => "`@` must stand before a variable or a function",
            ParseErrorKind::Redefinition => "the name is already defined in this scope",
            ParseErrorKind::UnresolvedReference => "no such variable or function",
        }
    }
}

impl ParseError {
    /// The message of this error: the index of the token at which it was
    /// met, then what went wrong.
    pub fn message(&self) -> (text: String)
        ensures
            text@ == error_text(*self),
    {
        let mut text = String::from_str("token ");
        text.append(crate::text::decimal_string(self.at as u128).as_str());
        text.append(": ");
        text.append(self.kind.describe());
        text
    }
}

/// The state of a parser: the index of the next token, and the scope stack.
pub struct ParseState {
    pub pos: int,
    pub scopes: Seq<SymbolTableView>,
}

/// The final state of a parsing step, and its value or the error that
/// stopped it.
pub type Parsed<T> = (ParseState, Result<T, ParseError>);

/// The token at `pos`, if there is one.
pub open spec fn token_at(tokens: Seq<Lexeme>, pos: int) -> Option<Lexeme> {
    if 0 <= pos < tokens.len() {
        Some(tokens[pos])
    } else {
        None
    }
}

/// The kind of the token at `pos`, if there is one.
pub open spec fn kind_at(tokens: Seq<Lexeme>, pos: int) -> Option<TokenType> {
    if 0 <= pos < tokens.len() {
        Some(tokens[pos].kind)
    } else {
        None
    }
}

/// `s` with one more token read.
pub open spec fn advance(s: ParseState) -> ParseState {
    ParseState { pos: s.pos + 1, ..s }
}

/// `s` with `scopes` as its scope stack.
pub open spec fn with_scopes(s: ParseState, scopes: Seq<SymbolTableView>) -> ParseState {
    ParseState { scopes, ..s }
}

/// The error of kind `kind` at token `at`.
pub open spec fn error(kind: ParseErrorKind, at: int) -> ParseError {
    ParseError { kind, at: at as usize }
}

/// The index of the token before `pos`, or 0 where there is none.
pub open spec fn previous(pos: int) -> int {
    if pos > 0 {
        pos - 1
    } else {
        0
    }
}

/// Whether `text` is a word that cannot be a name.
pub open spec fn reserved(text: Seq<char>) -> bool {
    text == "i32"@ || text == "str"@ || text == "ret"@ || text == "sub"@ || text == "if"@ || text
        == "else"@ || text == "while"@ || text == "for"@ || text == "in"@ || text == "call"@
}

/// Whether `text` names a type.
pub open spec fn names_type(text: Seq<char>) -> bool {
    text == "i32"@ || text == "str"@
}

/// Reads one token, which must be of kind `kind` with text `text`. The token
/// is read even where it is another.
pub open spec fn expect(tokens: Seq<Lexeme>, s: ParseState, kind: TokenType, text: Seq<char>) -> Parsed<
    (),
> {
    match token_at(tokens, s.pos) {
        None => (s, Err(error(ParseErrorKind::UnexpectedEnd, s.pos))),
        Some(token) => if token.kind == kind && token.text == text {
            (advance(s), Ok(()))
        } else {
            (advance(s), Err(error(ParseErrorKind::UnexpectedToken, s.pos)))
        },
    }
}

/// Reads one token of any kind as a name, which no reserved word can be.
pub open spec fn name(tokens: Seq<Lexeme>, s: ParseState) -> Parsed<Seq<char>> {
    match token_at(tokens, s.pos) {
        None => (s, Err(error(ParseErrorKind::UnexpectedEnd, s.pos))),
        Some(token) => if reserved(token.text) {
            (advance(s), Err(error(ParseErrorKind::KeywordAsIdentifier, s.pos)))
        } else {
            (advance(s), Ok(token.text))
        },
    }
}

/// Reads one token of any kind as the name of a type.
pub open spec fn type_word(tokens: Seq<Lexeme>, s: ParseState) -> Parsed<Seq<char>> {
    match token_at(tokens, s.pos) {
        None => (s, Err(error(ParseErrorKind::UnexpectedEnd, s.pos))),
        Some(token) => if names_type(token.text) {
            (advance(s), Ok(token.text))
        } else {
            (advance(s), Err(error(ParseErrorKind::InvalidType, s.pos)))
        },
    }
}

/// Whether a reference to variable `name` resolves: some frame of the stack,
/// from the innermost outward, declares it.
pub open spec fn variable_visible(scopes: Seq<SymbolTableView>, name: Seq<char>) -> bool {
    nearest_frame(scopes, name, scopes.len() - 1) >= 0
}

/// Whether the global frame declares variable `name`.
pub open spec fn variable_global(scopes: Seq<SymbolTableView>, name: Seq<char>) -> bool {
    scopes[0].variables.contains_key(name)
}

/// Whether the global frame declares function `name`.
pub open spec fn function_known(scopes: Seq<SymbolTableView>, name: Seq<char>) -> bool {
    scopes[0].functions.contains_key(name)
}

/// `scopes` with variable `name` of type `ty` declared in the innermost frame.
pub open spec fn declare_variable(
    scopes: Seq<SymbolTableView>,
    name: Seq<char>,
    ty: Seq<char>,
) -> Seq<SymbolTableView> {
    scopes.update(scopes.len() - 1, with_variable(scopes.last(), name, ty))
}

/// `scopes` with function `name` declared in the innermost frame.
pub open spec fn declare_function(
    scopes: Seq<SymbolTableView>,
    name: Seq<char>,
    sig: FunctionView,
) -> Seq<SymbolTableView> {
    scopes.update(scopes.len() - 1, with_function(scopes.last(), name, sig))
}

/// `scopes` with the first `count` parameters declared, in order, as
/// variables of the innermost frame.
pub open spec fn declare_parameters(
    scopes: Seq<SymbolTableView>,
    params: Seq<(Seq<char>, Seq<char>)>,
    count: int,
) -> Seq<SymbolTableView>
    decreases count,
{
    if count <= 0 {
        scopes
    } else {
        declare_variable(
            declare_parameters(scopes, params, count - 1),
            params[count - 1].1,
            params[count - 1].0,
        )
    }
}

/// `parsed` with `first` put before the list it yields.
pub open spec fn prepend<T>(first: Seq<T>, parsed: Parsed<Seq<T>>) -> Parsed<Seq<T>> {
    match parsed.1 {
        Ok(rest) => (parsed.0, Ok(first + rest)),
        Err(err) => (parsed.0, Err(err)),
    }
}

/// The parameters of a function definition up to the closing parenthesis,
/// which is left unread: each a type and a name, with an optional comma
/// after it.
pub open spec fn parse_parameters(tokens: Seq<Lexeme>, s: ParseState) -> Parsed<
    Seq<(Seq<char>, Seq<char>)>,
>
    decreases tokens.len() - s.pos,
{
    match kind_at(tokens, s.pos) {
        None => (s, Err(error(ParseErrorKind::UnexpectedEnd, s.pos))),
        Some(TokenType::RPAREN) => (s, Ok(Seq::empty())),
        Some(_) => {
            let (s1, ty) = type_word(tokens, s);
            match ty {
                Err(err) => (s1, Err(err)),
                Ok(ty) => {
                    let (s2, param) = name(tokens, s1);
                    match param {
                        Err(err) => (s2, Err(err)),
                        Ok(param) => match kind_at(tokens, s2.pos) {
                            None => (s2, Err(error(ParseErrorKind::UnexpectedEnd, s2.pos))),
                            Some(TokenType::COMMA) => prepend(
                                seq![(ty, param)],
                                parse_parameters(tokens, advance(s2)),
                            ),
                            Some(_) => prepend(seq![(ty, param)], parse_parameters(tokens, s2)),
                        },
                    }
                },
            }
        },
    }
}

/// The optional return type after a parameter list: the word after an arrow.
pub open spec fn parse_return_type(tokens: Seq<Lexeme>, s: ParseState) -> Parsed<
    Option<Seq<char>>,
> {
    match kind_at(tokens, s.pos) {
        None => (s, Err(error(ParseErrorKind::UnexpectedEnd, s.pos))),
        Some(TokenType::ARROW) => match token_at(tokens, s.pos + 1) {
            None => (advance(s), Err(error(ParseErrorKind::UnexpectedEnd, s.pos + 1))),
            Some(token) => (advance(advance(s)), Ok(Some(token.text))),
        },
        Some(_) => (s, Ok(None)),
    }
}

/// The head of a function definition, from `sub` to the return type.
pub struct Head {
    pub fn_name: Seq<char>,
    pub parameters: Seq<(Seq<char>, Seq<char>)>,
    pub ret_type: Option<Seq<char>>,
}

/// The head of a function definition. The name must be new in the innermost
/// frame.
pub open spec fn parse_head(tokens: Seq<Lexeme>, s: ParseState) -> Parsed<Head> {
    let (s1, sub) = expect(tokens, s, TokenType::KEYWORD, "sub"@);
    match sub {
        Err(err) => (s1, Err(err)),
        Ok(_) => {
            let (s2, fn_name) = name(tokens, s1);
            match fn_name {
                Err(err) => (s2, Err(err)),
                Ok(fn_name) => if s2.scopes.last().functions.contains_key(fn_name) {
                    (s2, Err(error(ParseErrorKind::Redefinition, s1.pos)))
                } else {
                    let (s3, open) = expect(tokens, s2, TokenType::LPAREN, "("@);
                    match open {
                        Err(err) => (s3, Err(err)),
                        Ok(_) => {
                            let (s4, parameters) = parse_parameters(tokens, s3);
                            match parameters {
                                Err(err) => (s4, Err(err)),
                                Ok(parameters) => {
                                    let (s5, close) = expect(tokens, s4, TokenType::RPAREN, ")"@);
                                    match close {
                                        Err(err) => (s5, Err(err)),
                                        Ok(_) => {
                                            let (s6, ret_type) = parse_return_type(tokens, s5);
                                            match ret_type {
                                                Err(err) => (s6, Err(err)),
                                                Ok(ret_type) => (
                                                    s6,
                                                    Ok(Head { fn_name, parameters, ret_type }),
                                                ),
                                            }
                                        },
                                    }
                                },
                            }
                        },
                    }
                },
            }
        },
    }
}

/// The scope stack in which the body of a function is parsed: the function
/// is declared in the innermost frame, and a new frame holds its parameters.
pub open spec fn enter_function(scopes: Seq<SymbolTableView>, head: Head) -> Seq<SymbolTableView> {
    declare_parameters(
        declare_function(
            scopes,
            head.fn_name,
            FunctionView {
                fn_name: head.fn_name,
                paras: head.parameters,
                ret_type: head.ret_type,
            },
        ).push(empty_frame()),
        head.parameters,
        head.parameters.len() as int,
    )
}

/// A reference by a name that was just read. Before `(` it is a call of a
/// function that the global frame declares. Otherwise it is a variable: one
/// that the global frame declares where `global` holds, else one that some
/// frame from the innermost outward declares.
pub open spec fn parse_reference(
    tokens: Seq<Lexeme>,
    s: ParseState,
    referent: Seq<char>,
    global: bool,
) -> Parsed<Tree>
    decreases tokens.len() - s.pos, 5nat,
{
    match kind_at(tokens, s.pos) {
        None => (s, Err(error(ParseErrorKind::UnexpectedEnd, s.pos))),
        Some(TokenType::LPAREN) => if !function_known(s.scopes, referent) {
            (s, Err(error(ParseErrorKind::UnresolvedReference, previous(s.pos))))
        } else {
            parse_function_call(tokens, s, referent)
        },
        Some(_) => if (global && variable_global(s.scopes, referent)) || (!global
            && variable_visible(s.scopes, referent)) {
            (s, Ok(Tree::Identifier(referent)))
        } else {
            (s, Err(error(ParseErrorKind::UnresolvedReference, previous(s.pos))))
        },
    }
}

/// A primary expression: a literal, a reference, or an expression in
/// parentheses.
pub open spec fn parse_expression_primary(tokens: Seq<Lexeme>, s: ParseState) -> Parsed<Tree>
    decreases tokens.len() - s.pos, 1nat,
{
    match token_at(tokens, s.pos) {
        None => (s, Err(error(ParseErrorKind::UnexpectedEnd, s.pos))),
        Some(token) => match token.kind {
            TokenType::NUMBER => (advance(s), Ok(Tree::Number(token.text))),
            TokenType::STRING => (advance(s), Ok(Tree::String(token.text))),
            TokenType::ID => parse_reference(tokens, advance(s), token.text, false),
            TokenType::AT => match token_at(tokens, s.pos + 1) {
                None => (advance(s), Err(error(ParseErrorKind::UnexpectedEnd, s.pos + 1))),
                Some(next) => if next.kind == TokenType::ID {
                    parse_reference(tokens, advance(advance(s)), next.text, true)
                } else {
                    (advance(s), Err(error(ParseErrorKind::MisplacedAt, s.pos)))
                },
            },
            TokenType::LPAREN => {
                let (s1, inner) = parse_expression(tokens, advance(s));
                match inner {
                    Err(err) => (s1, Err(err)),
                    Ok(tree) => {
                        let (s2, close) = expect(tokens, s1, TokenType::RPAREN, ")"@);
                        match close {
                            Err(err) => (s2, Err(err)),
                            Ok(_) => (s2, Ok(tree)),
                        }
                    },
                }
            },
            _ => (advance(s), Err(error(ParseErrorKind::UnexpectedToken, s.pos))),
        },
    }
}

/// The rest of a product whose operands so far make up `left`: each `*` or
/// `/` with the primary after it is joined to the left.
pub open spec fn parse_factors(tokens: Seq<Lexeme>, s: ParseState, left: Tree) -> Parsed<Tree>
    decreases tokens.len() - s.pos, 0nat,
{
    match token_at(tokens, s.pos) {
        None => (s, Ok(left)),
        Some(token) => if token.kind == TokenType::ASTERISK || token.kind == TokenType::SLASH {
            let (s1, right) = parse_expression_primary(tokens, advance(s));
            match right {
                Err(err) => (s1, Err(err)),
                Ok(right) => {
                    let joined = Tree::InfixExpression {
                        left_expr: Box::new(left),
                        op: token.text,
                        right_expr: Box::new(right),
                    };
                    if s.pos < s1.pos <= tokens.len() {
                        parse_factors(tokens, s1, joined)
                    } else {
                        (s1, Ok(joined))
                    }
                },
            }
        } else {
            (s, Ok(left))
        },
    }
}

/// A product: primaries joined by `*` and `/`, grouped from the left.
pub open spec fn parse_expression_secondary(tokens: Seq<Lexeme>, s: ParseState) -> Parsed<Tree>
    decreases tokens.len() - s.pos, 2nat,
{
    let (s1, first) = parse_expression_primary(tokens, s);
    match first {
        Err(err) => (s1, Err(err)),
        Ok(first) => if s.pos < s1.pos <= tokens.len() {
            parse_factors(tokens, s1, first)
        } else {
            (s1, Ok(first))
        },
    }
}

/// The rest of a sum whose operands so far make up `left`: each `+` or `-`
/// with the product after it is joined to the left.
pub open spec fn parse_terms(tokens: Seq<Lexeme>, s: ParseState, left: Tree) -> Parsed<Tree>
    decreases tokens.len() - s.pos, 0nat,
{
    match token_at(tokens, s.pos) {
        None => (s, Ok(left)),
        Some(token) => if token.kind == TokenType::ADD || token.kind == TokenType::MINUS {
            let (s1, right) = parse_expression_secondary(tokens, advance(s));
            match right {
                Err(err) => (s1, Err(err)),
                Ok(right) => {
                    let joined = Tree::InfixExpression {
                        left_expr: Box::new(left),
                        op: token.text,
                        right_expr: Box::new(right),
                    };
                    if s.pos < s1.pos <= tokens.len() {
                        parse_terms(tokens, s1, joined)
                    } else {
                        (s1, Ok(joined))
                    }
                },
            }
        } else {
            (s, Ok(left))
        },
    }
}

/// An expression: products joined by `+` and `-`, grouped from the left.
pub open spec fn parse_expression(tokens: Seq<Lexeme>, s: ParseState) -> Parsed<Tree>
    decreases tokens.len() - s.pos, 3nat,
{
    let (s1, first) = parse_expression_secondary(tokens, s);
    match first {
        Err(err) => (s1, Err(err)),
        Ok(first) => if s.pos < s1.pos <= tokens.len() {
            parse_terms(tokens, s1, first)
        } else {
            (s1, Ok(first))
        },
    }
}

/// The arguments of a call up to the closing parenthesis, which is left
/// unread: expressions, each with an optional comma after it.
pub open spec fn parse_arguments(tokens: Seq<Lexeme>, s: ParseState) -> Parsed<Seq<Tree>>
    decreases tokens.len() - s.pos, 4nat,
{
    match kind_at(tokens, s.pos) {
        None => (s, Err(error(ParseErrorKind::UnexpectedEnd, s.pos))),
        Some(TokenType::RPAREN) => (s, Ok(Seq::empty())),
        Some(_) => {
            let (s1, arg) = parse_expression(tokens, s);
            match arg {
                Err(err) => (s1, Err(err)),
                Ok(arg) => match kind_at(tokens, s1.pos) {
                    None => (s1, Err(error(ParseErrorKind::UnexpectedEnd, s1.pos))),
                    Some(kind) => {
                        let s2 = if kind == TokenType::COMMA {
                            advance(s1)
                        } else {
                            s1
                        };
                        if s.pos < s1.pos <= tokens.len() {
                            prepend(seq![arg], parse_arguments(tokens, s2))
                        } else {
                            (s2, Ok(seq![arg]))
                        }
                    },
                },
            }
        },
    }
}

/// A call of `callee`, from its opening to its closing parenthesis.
pub open spec fn parse_function_call(tokens: Seq<Lexeme>, s: ParseState, callee: Seq<char>) -> Parsed<
    Tree,
>
    decreases tokens.len() - s.pos, 4nat,
{
    let (s1, open) = expect(tokens, s, TokenType::LPAREN, "("@);
    match open {
        Err(err) => (s1, Err(err)),
        Ok(_) => {
            let (s2, args) = parse_arguments(tokens, s1);
            match args {
                Err(err) => (s2, Err(err)),
                Ok(args) => {
                    let (s3, close) = expect(tokens, s2, TokenType::RPAREN, ")"@);
                    match close {
                        Err(err) => (s3, Err(err)),
                        Ok(_) => (s3, Ok(Tree::FunctionCall { fn_name: callee, argument: args })),
                    }
                },
            }
        },
    }
}

/// A return statement.
pub open spec fn parse_return(tokens: Seq<Lexeme>, s: ParseState) -> Parsed<Tree> {
    let (s1, ret) = expect(tokens, s, TokenType::KEYWORD, "ret"@);
    match ret {
        Err(err) => (s1, Err(err)),
        Ok(_) => {
            let (s2, value) = parse_expression(tokens, s1);
            match value {
                Err(err) => (s2, Err(err)),
                Ok(value) => {
                    let (s3, end) = expect(tokens, s2, TokenType::SEMICOLON, ";"@);
                    match end {
                        Err(err) => (s3, Err(err)),
                        Ok(_) => (s3, Ok(Tree::Return(Box::new(value)))),
                    }
                },
            }
        },
    }
}

/// The optional initial value of a variable definition: the expression
/// after an `=`.
pub open spec fn parse_initializer(tokens: Seq<Lexeme>, s: ParseState) -> Parsed<
    Option<Box<Tree>>,
> {
    match kind_at(tokens, s.pos) {
        None => (s, Err(error(ParseErrorKind::UnexpectedEnd, s.pos))),
        Some(TokenType::EQUALS) => {
            let (s1, value) = parse_expression(tokens, advance(s));
            match value {
                Err(err) => (s1, Err(err)),
                Ok(value) => (s1, Ok(Some(Box::new(value)))),
            }
        },
        Some(_) => (s, Ok(None)),
    }
}

/// A variable definition. The name must be new in the innermost frame, and
/// is declared there once the whole definition is read.
pub open spec fn parse_variable_definition(tokens: Seq<Lexeme>, s: ParseState) -> Parsed<Tree> {
    let (s1, var_type) = type_word(tokens, s);
    match var_type {
        Err(err) => (s1, Err(err)),
        Ok(var_type) => {
            let (s2, identifier) = name(tokens, s1);
            match identifier {
                Err(err) => (s2, Err(err)),
                Ok(identifier) => if s2.scopes.last().variables.contains_key(identifier) {
                    (s2, Err(error(ParseErrorKind::Redefinition, s1.pos)))
                } else {
                    let (s3, var_value) = parse_initializer(tokens, s2);
                    match var_value {
                        Err(err) => (s3, Err(err)),
                        Ok(var_value) => {
                            let (s4, end) = expect(tokens, s3, TokenType::SEMICOLON, ";"@);
                            match end {
                                Err(err) => (s4, Err(err)),
                                Ok(_) => (
                                    with_scopes(
                                        s4,
                                        declare_variable(s4.scopes, identifier, var_type),
                                    ),
                                    Ok(Tree::VariableDefinition { var_type, identifier, var_value }),
                                ),
                            }
                        },
                    }
                },
            }
        },
    }
}

/// An assignment to `target`, whose name was just read. The target must be
/// visible.
pub open spec fn parse_assignment(tokens: Seq<Lexeme>, s: ParseState, target: Seq<char>) -> Parsed<
    Tree,
> {
    if !variable_visible(s.scopes, target) {
        (s, Err(error(ParseErrorKind::UnresolvedReference, previous(s.pos))))
    } else {
        let (s1, sign) = expect(tokens, s, TokenType::EQUALS, "="@);
        match sign {
            Err(err) => (s1, Err(err)),
            Ok(_) => {
                let (s2, value) = parse_expression(tokens, s1);
                match value {
                    Err(err) => (s2, Err(err)),
                    Ok(value) => {
                        let (s3, end) = expect(tokens, s2, TokenType::SEMICOLON, ";"@);
                        match end {
                            Err(err) => (s3, Err(err)),
                            Ok(_) => (
                                s3,
                                Ok(
                                    Tree::Assignment {
                                        identifier: target,
                                        var_value: Some(Box::new(value)),
                                    },
                                ),
                            ),
                        }
                    },
                }
            },
        }
    }
}

/// A statement that starts with a name: an assignment, or a call followed by
/// a semicolon.
pub open spec fn parse_named(tokens: Seq<Lexeme>, s: ParseState, first: Seq<char>) -> Parsed<Tree> {
    match kind_at(tokens, s.pos) {
        None => (s, Err(error(ParseErrorKind::UnexpectedEnd, s.pos))),
        Some(TokenType::EQUALS) => parse_assignment(tokens, s, first),
        Some(TokenType::LPAREN) => {
            let (s1, call) = parse_function_call(tokens, s, first);
            match call {
                Err(err) => (s1, Err(err)),
                Ok(call) => {
                    let (s2, end) = expect(tokens, s1, TokenType::SEMICOLON, ";"@);
                    match end {
                        Err(err) => (s2, Err(err)),
                        Ok(_) => (s2, Ok(call)),
                    }
                },
            }
        },
        Some(_) => (s, Err(error(ParseErrorKind::InvalidSymbol, s.pos))),
    }
}

/// A statement.
pub open spec fn parse_statement(tokens: Seq<Lexeme>, s: ParseState) -> Parsed<Tree>
    decreases tokens.len() - s.pos, 2nat,
{
    match token_at(tokens, s.pos) {
        None => (s, Err(error(ParseErrorKind::UnexpectedEnd, s.pos))),
        Some(token) => match token.kind {
            TokenType::KEYWORD => if token.text == "sub"@ {
                parse_function_definition(tokens, s)
            } else if token.text == "ret"@ {
                parse_return(tokens, s)
            } else if token.text == "i32"@ || token.text == "str"@ {
                parse_variable_definition(tokens, s)
            } else {
                (s, Err(error(ParseErrorKind::InvalidStatement, s.pos)))
            },
            TokenType::ID => parse_named(tokens, advance(s), token.text),
            _ => parse_expression(tokens, s),
        },
    }
}

/// Statements up to a token of kind `stop`, which is left unread.
pub open spec fn parse_statements(tokens: Seq<Lexeme>, s: ParseState, stop: TokenType) -> Parsed<
    Seq<Tree>,
>
    decreases tokens.len() - s.pos, 3nat,
{
    match kind_at(tokens, s.pos) {
        None => (s, Err(error(ParseErrorKind::UnexpectedEnd, s.pos))),
        Some(kind) => if kind == stop {
            (s, Ok(Seq::empty()))
        } else {
            let (s1, statement) = parse_statement(tokens, s);
            match statement {
                Err(err) => (s1, Err(err)),
                Ok(statement) => if s.pos < s1.pos <= tokens.len() {
                    prepend(seq![statement], parse_statements(tokens, s1, stop))
                } else {
                    (s1, Ok(seq![statement]))
                },
            }
        },
    }
}

/// A block: statements between braces.
pub open spec fn parse_block(tokens: Seq<Lexeme>, s: ParseState) -> Parsed<Seq<Tree>>
    decreases tokens.len() - s.pos, 4nat,
{
    let (s1, open) = expect(tokens, s, TokenType::LBRACE, "{"@);
    match open {
        Err(err) => (s1, Err(err)),
        Ok(_) => {
            let (s2, statements) = parse_statements(tokens, s1, TokenType::RBRACE);
            match statements {
                Err(err) => (s2, Err(err)),
                Ok(statements) => (advance(s2), Ok(statements)),
            }
        },
    }
}

/// A function definition. The body is parsed with the function declared and
/// its parameters in a frame of their own, which is left again after the
/// body; where the body cannot be parsed that frame stays.
pub open spec fn parse_function_definition(tokens: Seq<Lexeme>, s: ParseState) -> Parsed<Tree>
    decreases tokens.len() - s.pos, 1nat,
{
    let (s1, head) = parse_head(tokens, s);
    match head {
        Err(err) => (s1, Err(err)),
        Ok(head) => if s.pos < s1.pos <= tokens.len() {
            let (s2, body) = parse_block(tokens, with_scopes(s1, enter_function(s1.scopes, head)));
            match body {
                Err(err) => (s2, Err(err)),
                Ok(body) => (
                    with_scopes(s2, s2.scopes.drop_last()),
                    Ok(
                        Tree::FunctionDefinition {
                            fn_name: head.fn_name,
                            parameters: head.parameters,
                            ret_type: head.ret_type,
                            body,
                        },
                    ),
                ),
            }
        } else {
            (s1, Err(error(ParseErrorKind::UnexpectedEnd, s1.pos)))
        },
    }
}

/// A program: statements up to the end token.
pub open spec fn parse_program(tokens: Seq<Lexeme>, s: ParseState) -> Parsed<Tree> {
    let (s1, statements) = parse_statements(tokens, s, TokenType::EOF);
    match statements {
        Err(err) => (s1, Err(err)),
        Ok(statements) => (s1, Ok(Tree::Program(statements))),
    }
}

} // verus!
