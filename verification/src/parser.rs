//! The syntax tree and the recursive-descent parser that builds it.

use crate::grammar::{
    error, expect, kind_at, name, names_type, prepend, reserved, type_word, ParseError,
    ParseErrorKind, ParseState, Parsed,
};
use crate::lexer::{lexemes, Error, Lexeme, Token, TokenType};
use crate::sema::ScopeManager;
use vstd::prelude::*;

verus! {

/// A node of the syntax tree.
#[derive(Debug, PartialEq)]
pub enum ASTNode {
    Program(Vec<ASTNode>),
    Assignment { identifier: String, var_value: Option<Box<ASTNode>> },
    FunctionDefinition {
        fn_name: String,
        /// The parameters in order, each as (type, name).
        parameters: Vec<(String, String)>,
        ret_type: Option<String>,
        body: Vec<ASTNode>,
    },
    VariableDefinition { var_type: String, identifier: String, var_value: Option<Box<ASTNode>> },
    FunctionCall { fn_name: String, argument: Vec<ASTNode> },
    InfixExpression { left_expr: Box<ASTNode>, op: String, right_expr: Box<ASTNode> },
    Return(Box<ASTNode>),
    IfElse {
        condition: Box<ASTNode>,
        if_body: Vec<ASTNode>,
        elif_body: Option<Vec<ASTNode>>,
        else_body: Option<Vec<ASTNode>>,
    },
    Expression(Box<ASTNode>),
    Number(String),
    String(String),
    Identifier(String),
}

/// The syntax tree as a mathematical value: the shape of [`ASTNode`] with
/// every string as its characters and every list as a sequence.
pub enum Tree {
    Program(Seq<Tree>),
    Assignment { identifier: Seq<char>, var_value: Option<Box<Tree>> },
    FunctionDefinition {
        fn_name: Seq<char>,
        parameters: Seq<(Seq<char>, Seq<char>)>,
        ret_type: Option<Seq<char>>,
        body: Seq<Tree>,
    },
    VariableDefinition { var_type: Seq<char>, identifier: Seq<char>, var_value: Option<Box<Tree>> },
    FunctionCall { fn_name: Seq<char>, argument: Seq<Tree> },
    InfixExpression { left_expr: Box<Tree>, op: Seq<char>, right_expr: Box<Tree> },
    Return(Box<Tree>),
    IfElse {
        condition: Box<Tree>,
        if_body: Seq<Tree>,
        elif_body: Option<Seq<Tree>>,
        else_body: Option<Seq<Tree>>,
    },
    Expression(Box<Tree>),
    Number(Seq<char>),
    String(Seq<char>),
    Identifier(Seq<char>),
}

/// The trees of a list of nodes, in order.
pub open spec fn trees(nodes: Seq<ASTNode>) -> Seq<Tree>
    decreases nodes,
{
    if nodes.len() == 0 {
        Seq::empty()
    } else {
        trees(nodes.drop_last()).push(nodes.last()@)
    }
}

/// The tree of an optional boxed node.
pub open spec fn boxed_tree(node: Option<Box<ASTNode>>) -> Option<Box<Tree>>
    decreases node,
{
    match node {
        Some(n) => Some(Box::new((*n)@)),
        None => None,
    }
}

/// The trees of an optional list of nodes.
pub open spec fn optional_trees(nodes: Option<Vec<ASTNode>>) -> Option<Seq<Tree>>
    decreases nodes,
{
    match nodes {
        Some(v) => Some(trees(v@)),
        None => None,
    }
}

impl View for ASTNode {
    type V = Tree;

    open spec fn view(&self) -> Tree
        decreases self,
    {
        match self {
            ASTNode::Program(nodes) => Tree::Program(trees(nodes@)),
            ASTNode::Assignment { identifier, var_value } => Tree::Assignment {
                identifier: identifier@,
                var_value: boxed_tree(*var_value),
            },
            ASTNode::FunctionDefinition { fn_name, parameters, ret_type, body } => {
                Tree::FunctionDefinition {
                    fn_name: fn_name@,
                    parameters: crate::sema::pairs_view(parameters@),
                    ret_type: crate::sema::option_view(*ret_type),
                    body: trees(body@),
                }
            },
            ASTNode::VariableDefinition { var_type, identifier, var_value } => {
                Tree::VariableDefinition {
                    var_type: var_type@,
                    identifier: identifier@,
                    var_value: boxed_tree(*var_value),
                }
            },
            ASTNode::FunctionCall { fn_name, argument } => Tree::FunctionCall {
                fn_name: fn_name@,
                argument: trees(argument@),
            },
            ASTNode::InfixExpression { left_expr, op, right_expr } => Tree::InfixExpression {
                left_expr: Box::new((**left_expr)@),
                op: op@,
                right_expr: Box::new((**right_expr)@),
            },
            ASTNode::Return(value) => Tree::Return(Box::new((**value)@)),
            ASTNode::IfElse { condition, if_body, elif_body, else_body } => Tree::IfElse {
                condition: Box::new((**condition)@),
                if_body: trees(if_body@),
                elif_body: optional_trees(*elif_body),
                else_body: optional_trees(*else_body),
            },
            ASTNode::Expression(value) => Tree::Expression(Box::new((**value)@)),
            ASTNode::Number(text) => Tree::Number(text@),
            ASTNode::String(text) => Tree::String(text@),
            ASTNode::Identifier(name) => Tree::Identifier(name@),
        }
    }
}

/// The trees of a list line up with its nodes, one for one.
pub proof fn lemma_trees(nodes: Seq<ASTNode>)
    ensures
        trees(nodes).len() == nodes.len(),
        forall|i: int| 0 <= i < nodes.len() ==> (#[trigger] trees(nodes)[i]) == nodes[i]@,
    decreases nodes.len(),
{
    if nodes.len() > 0 {
        lemma_trees(nodes.drop_last());
        assert(trees(nodes) == trees(nodes.drop_last()).push(nodes.last()@));
    } else {
        assert(trees(nodes) == Seq::<Tree>::empty());
    }
}

/// A copy of a list of nodes.
fn duplicate_all(nodes: &Vec<ASTNode>) -> (copy: Vec<ASTNode>)
    ensures
        trees(copy@) == trees(nodes@),
    decreases nodes, 0nat,
{
    let mut copy: Vec<ASTNode> = Vec::new();
    let mut i: usize = 0;
    assert(nodes@.take(0) =~= Seq::<ASTNode>::empty());
    while i < nodes.len()
        invariant
            i <= nodes.len(),
            trees(copy@) == trees(nodes@.take(i as int)),
        decreases nodes.len() - i,
    {
        assert(decreases_to!(*nodes => nodes@[i as int]));
        let node = duplicate(&nodes[i]);
        assert(nodes@.take(i as int + 1).drop_last() =~= nodes@.take(i as int));
        assert(copy@.push(node).drop_last() =~= copy@);
        copy.push(node);
        i = i + 1;
    }
    assert(nodes@.take(nodes.len() as int) =~= nodes@);
    copy
}

/// A copy of a node: the same tree.
fn duplicate(node: &ASTNode) -> (copy: ASTNode)
    ensures
        copy@ == node@,
    decreases node, 1nat,
{
    match node {
        ASTNode::Program(nodes) => ASTNode::Program(duplicate_all(nodes)),
        ASTNode::Assignment { identifier, var_value } => ASTNode::Assignment {
            identifier: identifier.clone(),
            var_value: duplicate_boxed(var_value),
        },
        ASTNode::FunctionDefinition { fn_name, parameters, ret_type, body } => {
            ASTNode::FunctionDefinition {
                fn_name: fn_name.clone(),
                parameters: crate::sema::clone_pairs(parameters),
                ret_type: match ret_type {
                    Some(ty) => Some(ty.clone()),
                    None => None,
                },
                body: duplicate_all(body),
            }
        },
        ASTNode::VariableDefinition { var_type, identifier, var_value } => {
            ASTNode::VariableDefinition {
                var_type: var_type.clone(),
                identifier: identifier.clone(),
                var_value: duplicate_boxed(var_value),
            }
        },
        ASTNode::FunctionCall { fn_name, argument } => ASTNode::FunctionCall {
            fn_name: fn_name.clone(),
            argument: duplicate_all(argument),
        },
        ASTNode::InfixExpression { left_expr, op, right_expr } => ASTNode::InfixExpression {
            left_expr: Box::new(duplicate(left_expr)),
            op: op.clone(),
            right_expr: Box::new(duplicate(right_expr)),
        },
        ASTNode::Return(value) => ASTNode::Return(Box::new(duplicate(value))),
        ASTNode::IfElse { condition, if_body, elif_body, else_body } => ASTNode::IfElse {
            condition: Box::new(duplicate(condition)),
            if_body: duplicate_all(if_body),
            elif_body: duplicate_optional(elif_body),
            else_body: duplicate_optional(else_body),
        },
        ASTNode::Expression(value) => ASTNode::Expression(Box::new(duplicate(value))),
        ASTNode::Number(text) => ASTNode::Number(text.clone()),
        ASTNode::String(text) => ASTNode::String(text.clone()),
        ASTNode::Identifier(name) => ASTNode::Identifier(name.clone()),
    }
}

/// A copy of an optional list of nodes.
fn duplicate_optional(nodes: &Option<Vec<ASTNode>>) -> (copy: Option<Vec<ASTNode>>)
    ensures
        optional_trees(copy) == optional_trees(*nodes),
    decreases nodes, 2nat,
{
    match nodes {
        Some(inner) => Some(duplicate_all(inner)),
        None => None,
    }
}

/// A copy of an optional boxed node.
fn duplicate_boxed(node: &Option<Box<ASTNode>>) -> (copy: Option<Box<ASTNode>>)
    ensures
        boxed_tree(copy) == boxed_tree(*node),
    decreases node, 2nat,
{
    match node {
        Some(inner) => Some(Box::new(duplicate(inner))),
        None => None,
    }
}

impl Clone for ASTNode {
    fn clone(&self) -> (copy: Self)
        ensures
            copy@ == self@,
    {
        duplicate(self)
    }
}

/// The tree that a parsing step yields, or the error that stopped it.
pub open spec fn tree_result(r: Result<ASTNode, ParseError>) -> Result<Tree, ParseError> {
    match r {
        Ok(node) => Ok(node@),
        Err(err) => Err(err),
    }
}

/// The text that a parsing step yields, or the error that stopped it.
pub open spec fn text_result(r: Result<String, ParseError>) -> Result<Seq<char>, ParseError> {
    match r {
        Ok(text) => Ok(text@),
        Err(err) => Err(err),
    }
}

/// A name, unless it is a reserved word.
pub fn handle_identifier(ident: &str) -> (r: Result<String, ParseErrorKind>)
    ensures
        match r {
            Ok(id) => !reserved(ident@) && id@ == ident@,
            Err(kind) => reserved(ident@) && kind == ParseErrorKind::KeywordAsIdentifier,
        },
{
    if *ident == *"i32" || *ident == *"str" || *ident == *"ret" || *ident == *"sub" || *ident
        == *"if" || *ident == *"else" || *ident == *"while" || *ident == *"for" || *ident == *"in"
        || *ident == *"call" {
        Err(ParseErrorKind::KeywordAsIdentifier)
    } else {
        Ok(String::from_str(ident))
    }
}

/// The name of a type, if `ty` is one.
pub fn handle_type(ty: &str) -> (r: Result<String, ParseErrorKind>)
    ensures
        match r {
            Ok(name) => names_type(ty@) && name@ == ty@,
            Err(kind) => !names_type(ty@) && kind == ParseErrorKind::InvalidType,
        },
{
    if *ty == *"i32" || *ty == *"str" {
        Ok(String::from_str(ty))
    } else {
        Err(ParseErrorKind::InvalidType)
    }
}

/// The parser: the tokens, the index of the next one, and the scope stack
/// against which names are checked.
#[derive(Debug)]
pub struct Parser {
    pub tokens: Vec<Token>,
    pub current: usize,
    pub scopes: ScopeManager,
}

impl View for Parser {
    type V = ParseState;

    open spec fn view(&self) -> ParseState {
        ParseState { pos: self.current as int, scopes: self.scopes@ }
    }
}

impl Parser {
    /// The tokens as mathematical values.
    pub open spec fn input(&self) -> Seq<Lexeme> {
        lexemes(self.tokens@)
    }

    /// Whether the scope stack holds at least the global frame.
    pub open spec fn wf(&self) -> bool {
        self.scopes@.len() >= 1
    }

    /// Whether `self` is what a step that started in `before` leaves: the
    /// same tokens, a position that is no earlier, a scope stack that is no
    /// shallower, and, where the step succeeded, at least one token read and
    /// the scope stack as deep as before.
    pub open spec fn follows(&self, before: &Parser, succeeded: bool) -> bool {
        &&& self.wf()
        &&& self.tokens@ == before.tokens@
        &&& self.current >= before.current
        &&& self.scopes@.len() >= before.scopes@.len()
        &&& succeeded ==> before.current < self.current <= self.tokens@.len() && self.scopes@.len()
            == before.scopes@.len()
    }

    /// A parser at the first of `tokens`, with nothing declared.
    pub fn new(tokens: Vec<Token>) -> (parser: Self)
        ensures
            parser.wf(),
            parser.tokens == tokens,
            parser.current == 0,
            parser.scopes@ == seq![crate::sema::empty_frame()],
    {
        Self { tokens, current: 0, scopes: ScopeManager::new() }
    }

    /// The message of an error that this parser gave: what went wrong, and
    /// the text of the token at which it did, which for an error about a
    /// name is the name.
    pub fn explain(&self, err: &ParseError) -> (text: String)
        ensures
            text@ == crate::grammar::located_text(*err, self.input()),
    {
        let mut text = err.message();
        if err.at < self.tokens.len() {
            text.append(" at '");
            text.append(self.tokens[err.at].value.as_str());
            text.append("'");
        } else {
            text.append(" at the end of the input");
        }
        text
    }

    /// The next token, without reading it.
    pub fn peek(&self) -> (r: Result<&Token, Error>)
        ensures
            match r {
                Ok(token) => self.current < self.tokens@.len() && *token
                    == self.tokens@[self.current as int],
                Err(err) => self.current >= self.tokens@.len() && err == Error::ParserErr,
            },
    {
        if self.current < self.tokens.len() {
            Ok(&self.tokens[self.current])
        } else {
            Err(Error::ParserErr)
        }
    }

    /// Reads the next token.
    pub fn advance(&mut self) -> (r: Result<&Token, Error>)
        ensures
            final(self).tokens == old(self).tokens,
            final(self).scopes == old(self).scopes,
            match r {
                Ok(token) => old(self).current < old(self).tokens@.len() && *token
                    == old(self).tokens@[old(self).current as int] && final(self).current
                    == old(self).current + 1,
                Err(err) => old(self).current >= old(self).tokens@.len() && err
                    == Error::ParserErr && final(self).current == old(self).current,
            },
    {
        if self.current < self.tokens.len() {
            self.current += 1;
            Ok(&self.tokens[self.current - 1])
        } else {
            Err(Error::ParserErr)
        }
    }

    /// The kind of the next token, if there is one.
    fn kind_here(&self) -> (r: Option<TokenType>)
        ensures
            r == kind_at(self.input(), self.current as int),
    {
        if self.current < self.tokens.len() {
            Some(self.tokens[self.current].token_type)
        } else {
            None
        }
    }

    /// Reads the next token, whatever it is.
    fn skip(&mut self)
        requires
            old(self).current < old(self).tokens@.len(),
        ensures
            final(self).tokens == old(self).tokens,
            final(self).scopes == old(self).scopes,
            final(self).current == old(self).current + 1,
    {
        if self.current < self.tokens.len() {
            self.current = self.current + 1;
        }
    }

    /// The error of kind `kind` at the next token.
    fn error_here(&self, kind: ParseErrorKind) -> (err: ParseError)
        ensures
            err == error(kind, self.current as int),
    {
        ParseError { kind, at: self.current }
    }

    /// Reads the next token, which must be of kind `ty` with text `value`.
    pub fn expect(&mut self, ty: TokenType, value: String) -> (r: Result<(), ParseError>)
        requires
            old(self).wf(),
        ensures
            final(self).follows(old(self), r is Ok),
            final(self).scopes@ == old(self).scopes@,
            expect(old(self).input(), old(self)@, ty, value@) == (final(self)@, r),
    {
        if self.current >= self.tokens.len() {
            return Err(self.error_here(ParseErrorKind::UnexpectedEnd));
        }
        let at: usize = self.current;
        self.current = self.current + 1;
        if self.tokens[at].token_type == ty && self.tokens[at].value == value {
            Ok(())
        } else {
            Err(ParseError { kind: ParseErrorKind::UnexpectedToken, at })
        }
    }

    /// Reads the next token as a name.
    fn read_name(&mut self) -> (r: Result<String, ParseError>)
        requires
            old(self).wf(),
        ensures
            final(self).follows(old(self), r is Ok),
            final(self).scopes@ == old(self).scopes@,
            name(old(self).input(), old(self)@) == (final(self)@, text_result(r)),
    {
        if self.current >= self.tokens.len() {
            return Err(self.error_here(ParseErrorKind::UnexpectedEnd));
        }
        let at: usize = self.current;
        self.current = self.current + 1;
        match handle_identifier(self.tokens[at].value.as_str()) {
            Ok(id) => Ok(id),
            Err(kind) => Err(ParseError { kind, at }),
        }
    }

    /// Reads the next token as the name of a type.
    fn read_type(&mut self) -> (r: Result<String, ParseError>)
        requires
            old(self).wf(),
        ensures
            final(self).follows(old(self), r is Ok),
            final(self).scopes@ == old(self).scopes@,
            type_word(old(self).input(), old(self)@) == (final(self)@, text_result(r)),
    {
        if self.current >= self.tokens.len() {
            return Err(self.error_here(ParseErrorKind::UnexpectedEnd));
        }
        let at: usize = self.current;
        self.current = self.current + 1;
        match handle_type(self.tokens[at].value.as_str()) {
            Ok(name) => Ok(name),
            Err(kind) => Err(ParseError { kind, at }),
        }
    }

    /// The error of kind `kind` at the token before the next one.
    fn error_before(&self, kind: ParseErrorKind) -> (err: ParseError)
        ensures
            err == error(kind, crate::grammar::previous(self.current as int)),
    {
        let at: usize = if self.current > 0 {
            self.current - 1
        } else {
            0
        };
        ParseError { kind, at }
    }

    /// Whether some frame, from the innermost outward, declares variable
    /// `name`.
    fn sees_variable(&self, name: &str) -> (r: bool)
        requires
            self.wf(),
        ensures
            r == crate::grammar::variable_visible(self.scopes@, name@),
    {
        let mut depth: usize = self.scopes.stack.len() - 1;
        crate::sema::has_var(&self.scopes, name, &mut depth)
    }

    /// Parses a reference by `name`, which was just read: a call before `(`,
    /// else a variable, which the global frame must declare where `global`
    /// holds.
    fn parse_reference(&mut self, name: String, global: bool) -> (r: Result<ASTNode, ParseError>)
        requires
            old(self).wf(),
        ensures
            final(self).wf(),
            final(self).tokens@ == old(self).tokens@,
            final(self).scopes@ == old(self).scopes@,
            old(self).current <= final(self).current,
            r is Ok ==> final(self).current <= final(self).tokens@.len(),
            crate::grammar::parse_reference(old(self).input(), old(self)@, name@, global) == (
                final(self)@,
                tree_result(r),
            ),
        decreases old(self).tokens@.len() - old(self).current, 5nat,
    {
        match self.kind_here() {
            None => Err(self.error_here(ParseErrorKind::UnexpectedEnd)),
            Some(TokenType::LPAREN) => {
                if !self.scopes.global_scope().has_function(name.as_str()) {
                    Err(self.error_before(ParseErrorKind::UnresolvedReference))
                } else {
                    self.parse_function_call(name)
                }
            },
            Some(_) => {
                let known = if global {
                    self.scopes.global_scope().has_variable(name.as_str())
                } else {
                    self.sees_variable(name.as_str())
                };
                if known {
                    Ok(ASTNode::Identifier(name))
                } else {
                    Err(self.error_before(ParseErrorKind::UnresolvedReference))
                }
            },
        }
    }

    /// Parses a primary expression.
    pub fn parse_expression_primary(&mut self) -> (r: Result<ASTNode, ParseError>)
        requires
            old(self).wf(),
        ensures
            final(self).follows(old(self), r is Ok),
            final(self).scopes@ == old(self).scopes@,
            crate::grammar::parse_expression_primary(old(self).input(), old(self)@) == (
                final(self)@,
                tree_result(r),
            ),
        decreases old(self).tokens@.len() - old(self).current, 1nat,
    {
        if self.current >= self.tokens.len() {
            return Err(self.error_here(ParseErrorKind::UnexpectedEnd));
        }
        let at: usize = self.current;
        let kind = self.tokens[at].token_type;
        let text = self.tokens[at].value.clone();
        self.current = self.current + 1;
        match kind {
            TokenType::NUMBER => Ok(ASTNode::Number(text)),
            TokenType::STRING => Ok(ASTNode::String(text)),
            TokenType::ID => self.parse_reference(text, false),
            TokenType::AT => {
                if self.current >= self.tokens.len() {
                    return Err(self.error_here(ParseErrorKind::UnexpectedEnd));
                }
                if self.tokens[self.current].token_type == TokenType::ID {
                    let name = self.tokens[self.current].value.clone();
                    self.current = self.current + 1;
                    self.parse_reference(name, true)
                } else {
                    Err(ParseError { kind: ParseErrorKind::MisplacedAt, at })
                }
            },
            TokenType::LPAREN => {
                let expr = match self.parse_expression() {
                    Ok(expr) => expr,
                    Err(err) => {
                        return Err(err);
                    },
                };
                match self.expect(TokenType::RPAREN, String::from_str(")")) {
                    Ok(_) => Ok(expr),
                    Err(err) => Err(err),
                }
            },
            _ => Err(ParseError { kind: ParseErrorKind::UnexpectedToken, at }),
        }
    }

    /// Parses a product.
    pub fn parse_expression_secondary(&mut self) -> (r: Result<ASTNode, ParseError>)
        requires
            old(self).wf(),
        ensures
            final(self).follows(old(self), r is Ok),
            final(self).scopes@ == old(self).scopes@,
            crate::grammar::parse_expression_secondary(old(self).input(), old(self)@) == (
                final(self)@,
                tree_result(r),
            ),
        decreases old(self).tokens@.len() - old(self).current, 2nat,
    {
        let mut primary = match self.parse_expression_primary() {
            Ok(primary) => primary,
            Err(err) => {
                return Err(err);
            },
        };
        loop
            invariant
                self.follows(old(self), true),
                self.scopes@ == old(self).scopes@,
                crate::grammar::parse_expression_secondary(old(self).input(), old(self)@)
                    == crate::grammar::parse_factors(old(self).input(), self@, primary@),
            ensures
                crate::grammar::parse_expression_secondary(old(self).input(), old(self)@) == (
                    self@,
                    Ok::<Tree, ParseError>(primary@),
                ),
            decreases self.tokens@.len() - self.current,
        {
            if self.current >= self.tokens.len() {
                break ;
            }
            let kind = self.tokens[self.current].token_type;
            if !(kind == TokenType::ASTERISK || kind == TokenType::SLASH) {
                break ;
            }
            let op = self.tokens[self.current].value.clone();
            self.current = self.current + 1;
            let right_expr = match self.parse_expression_primary() {
                Ok(right_expr) => right_expr,
                Err(err) => {
                    return Err(err);
                },
            };
            primary = ASTNode::InfixExpression {
                left_expr: Box::new(primary),
                op,
                right_expr: Box::new(right_expr),
            };
        }
        Ok(primary)
    }

    /// Parses an expression.
    pub fn parse_expression(&mut self) -> (r: Result<ASTNode, ParseError>)
        requires
            old(self).wf(),
        ensures
            final(self).follows(old(self), r is Ok),
            final(self).scopes@ == old(self).scopes@,
            crate::grammar::parse_expression(old(self).input(), old(self)@) == (
                final(self)@,
                tree_result(r),
            ),
        decreases old(self).tokens@.len() - old(self).current, 3nat,
    {
        let mut node = match self.parse_expression_secondary() {
            Ok(node) => node,
            Err(err) => {
                return Err(err);
            },
        };
        loop
            invariant
                self.follows(old(self), true),
                self.scopes@ == old(self).scopes@,
                crate::grammar::parse_expression(old(self).input(), old(self)@)
                    == crate::grammar::parse_terms(old(self).input(), self@, node@),
            ensures
                crate::grammar::parse_expression(old(self).input(), old(self)@) == (
                    self@,
                    Ok::<Tree, ParseError>(node@),
                ),
            decreases self.tokens@.len() - self.current,
        {
            if self.current >= self.tokens.len() {
                break ;
            }
            let kind = self.tokens[self.current].token_type;
            if !(kind == TokenType::ADD || kind == TokenType::MINUS) {
                break ;
            }
            let op = self.tokens[self.current].value.clone();
            self.current = self.current + 1;
            let right_expr = match self.parse_expression_secondary() {
                Ok(right_expr) => right_expr,
                Err(err) => {
                    return Err(err);
                },
            };
            node = ASTNode::InfixExpression {
                left_expr: Box::new(node),
                op,
                right_expr: Box::new(right_expr),
            };
        }
        Ok(node)
    }

    /// Parses a call of `fn_name`, from its opening to its closing
    /// parenthesis.
    pub fn parse_function_call(&mut self, fn_name: String) -> (r: Result<ASTNode, ParseError>)
        requires
            old(self).wf(),
        ensures
            final(self).follows(old(self), r is Ok),
            final(self).scopes@ == old(self).scopes@,
            crate::grammar::parse_function_call(old(self).input(), old(self)@, fn_name@) == (
                final(self)@,
                tree_result(r),
            ),
        decreases old(self).tokens@.len() - old(self).current, 4nat,
    {
        match self.expect(TokenType::LPAREN, String::from_str("(")) {
            Ok(_) => {},
            Err(err) => {
                return Err(err);
            },
        }
        let ghost opened = self@;
        let mut args: Vec<ASTNode> = Vec::new();
        proof {
            lemma_prepend_nothing(crate::grammar::parse_arguments(self.input(), opened));
        }
        loop
            invariant
                self.follows(old(self), true),
                self.scopes@ == old(self).scopes@,
                expect(old(self).input(), old(self)@, TokenType::LPAREN, "("@) == (
                    opened,
                    Ok::<(), ParseError>(()),
                ),
                crate::grammar::parse_arguments(old(self).input(), opened) == prepend(
                    trees(args@),
                    crate::grammar::parse_arguments(old(self).input(), self@),
                ),
            ensures
                self.follows(old(self), true),
                self.scopes@ == old(self).scopes@,
                crate::grammar::parse_arguments(old(self).input(), opened) == (
                    self@,
                    Ok::<Seq<Tree>, ParseError>(trees(args@)),
                ),
            decreases self.tokens@.len() - self.current,
        {
            let ghost here = self@;
            let ghost read = trees(args@);
            match self.kind_here() {
                None => {
                    return Err(self.error_here(ParseErrorKind::UnexpectedEnd));
                },
                Some(TokenType::RPAREN) => {
                    assert(read + Seq::<Tree>::empty() =~= read);
                    break ;
                },
                Some(_) => {},
            }
            let arg = match self.parse_expression() {
                Ok(arg) => arg,
                Err(err) => {
                    return Err(err);
                },
            };
            match self.kind_here() {
                None => {
                    return Err(self.error_here(ParseErrorKind::UnexpectedEnd));
                },
                Some(TokenType::COMMA) => {
                    self.skip();
                },
                Some(_) => {},
            }
            proof {
                lemma_prepend_twice(
                    read,
                    seq![arg@],
                    crate::grammar::parse_arguments(self.input(), self@),
                );
                assert(trees(args@.push(arg)) =~= read + seq![arg@]) by {
                    assert(args@.push(arg).drop_last() =~= args@);
                }
            }
            args.push(arg);
        }
        match self.expect(TokenType::RPAREN, String::from_str(")")) {
            Ok(_) => Ok(ASTNode::FunctionCall { fn_name, argument: args }),
            Err(err) => Err(err),
        }
    }

    /// Parses a return statement.
    pub fn parse_return(&mut self) -> (r: Result<ASTNode, ParseError>)
        requires
            old(self).wf(),
        ensures
            final(self).follows(old(self), r is Ok),
            final(self).scopes@ == old(self).scopes@,
            crate::grammar::parse_return(old(self).input(), old(self)@) == (
                final(self)@,
                tree_result(r),
            ),
    {
        match self.expect(TokenType::KEYWORD, String::from_str("ret")) {
            Ok(_) => {},
            Err(err) => {
                return Err(err);
            },
        }
        let value = match self.parse_expression() {
            Ok(value) => value,
            Err(err) => {
                return Err(err);
            },
        };
        match self.expect(TokenType::SEMICOLON, String::from_str(";")) {
            Ok(_) => Ok(ASTNode::Return(Box::new(value))),
            Err(err) => Err(err),
        }
    }

    /// Parses the optional initial value of a variable definition.
    fn parse_initializer(&mut self) -> (r: Result<Option<Box<ASTNode>>, ParseError>)
        requires
            old(self).wf(),
        ensures
            final(self).wf(),
            final(self).tokens@ == old(self).tokens@,
            final(self).scopes@ == old(self).scopes@,
            final(self).current >= old(self).current,
            r is Ok ==> final(self).current <= final(self).tokens@.len(),
            crate::grammar::parse_initializer(old(self).input(), old(self)@) == (
                final(self)@,
                match r {
                    Ok(value) => Ok::<Option<Box<Tree>>, ParseError>(boxed_tree(value)),
                    Err(err) => Err::<Option<Box<Tree>>, ParseError>(err),
                },
            ),
    {
        match self.kind_here() {
            None => Err(self.error_here(ParseErrorKind::UnexpectedEnd)),
            Some(TokenType::EQUALS) => {
                self.skip();
                match self.parse_expression() {
                    Ok(value) => Ok(Some(Box::new(value))),
                    Err(err) => Err(err),
                }
            },
            Some(_) => Ok(None),
        }
    }

    /// Parses a variable definition and declares the variable in the
    /// innermost frame.
    pub fn parse_variable_definition(&mut self) -> (r: Result<ASTNode, ParseError>)
        requires
            old(self).wf(),
        ensures
            final(self).follows(old(self), r is Ok),
            crate::grammar::parse_variable_definition(old(self).input(), old(self)@) == (
                final(self)@,
                tree_result(r),
            ),
    {
        let var_type = match self.read_type() {
            Ok(var_type) => var_type,
            Err(err) => {
                return Err(err);
            },
        };
        let defined = self.error_here(ParseErrorKind::Redefinition);
        let identifier = match self.read_name() {
            Ok(identifier) => identifier,
            Err(err) => {
                return Err(err);
            },
        };
        if self.scopes.current_scope().has_variable(identifier.as_str()) {
            return Err(defined);
        }
        let var_value = match self.parse_initializer() {
            Ok(var_value) => var_value,
            Err(err) => {
                return Err(err);
            },
        };
        match self.expect(TokenType::SEMICOLON, String::from_str(";")) {
            Ok(_) => {},
            Err(err) => {
                return Err(err);
            },
        }
        crate::sema::insert_var(&mut self.scopes, identifier.clone(), var_type.clone());
        Ok(ASTNode::VariableDefinition { var_type, identifier, var_value })
    }

    /// Parses an assignment to `var_name`, which was just read.
    pub fn parse_assignment(&mut self, var_name: String) -> (r: Result<ASTNode, ParseError>)
        requires
            old(self).wf(),
        ensures
            final(self).follows(old(self), r is Ok),
            final(self).scopes@ == old(self).scopes@,
            crate::grammar::parse_assignment(old(self).input(), old(self)@, var_name@) == (
                final(self)@,
                tree_result(r),
            ),
    {
        if !self.sees_variable(var_name.as_str()) {
            return Err(self.error_before(ParseErrorKind::UnresolvedReference));
        }
        match self.expect(TokenType::EQUALS, String::from_str("=")) {
            Ok(_) => {},
            Err(err) => {
                return Err(err);
            },
        }
        let value = match self.parse_expression() {
            Ok(value) => value,
            Err(err) => {
                return Err(err);
            },
        };
        assert(boxed_tree(Some(Box::new(value))) == Some(Box::new(value@)));
        match self.expect(TokenType::SEMICOLON, String::from_str(";")) {
            Ok(_) => Ok(
                ASTNode::Assignment { identifier: var_name, var_value: Some(Box::new(value)) },
            ),
            Err(err) => Err(err),
        }
    }

    /// Parses the rest of a statement that starts with the name `first`.
    fn parse_named(&mut self, first: String) -> (r: Result<ASTNode, ParseError>)
        requires
            old(self).wf(),
        ensures
            final(self).wf(),
            final(self).tokens@ == old(self).tokens@,
            final(self).scopes@ == old(self).scopes@,
            final(self).current >= old(self).current,
            r is Ok ==> final(self).current <= final(self).tokens@.len(),
            crate::grammar::parse_named(old(self).input(), old(self)@, first@) == (
                final(self)@,
                tree_result(r),
            ),
    {
        match self.kind_here() {
            None => Err(self.error_here(ParseErrorKind::UnexpectedEnd)),
            Some(TokenType::EQUALS) => self.parse_assignment(first),
            Some(TokenType::LPAREN) => {
                let call = match self.parse_function_call(first) {
                    Ok(call) => call,
                    Err(err) => {
                        return Err(err);
                    },
                };
                match self.expect(TokenType::SEMICOLON, String::from_str(";")) {
                    Ok(_) => Ok(call),
                    Err(err) => Err(err),
                }
            },
            Some(_) => Err(self.error_here(ParseErrorKind::InvalidSymbol)),
        }
    }

    /// Parses the parameters of a function definition up to the closing
    /// parenthesis.
    fn parse_parameters(&mut self) -> (r: Result<Vec<(String, String)>, ParseError>)
        requires
            old(self).wf(),
        ensures
            final(self).wf(),
            final(self).tokens@ == old(self).tokens@,
            final(self).scopes@ == old(self).scopes@,
            final(self).current >= old(self).current,
            crate::grammar::parse_parameters(old(self).input(), old(self)@) == (
                final(self)@,
                match r {
                    Ok(params) => Ok::<Seq<(Seq<char>, Seq<char>)>, ParseError>(
                        crate::sema::pairs_view(params@),
                    ),
                    Err(err) => Err::<Seq<(Seq<char>, Seq<char>)>, ParseError>(err),
                },
            ),
    {
        let mut parameters: Vec<(String, String)> = Vec::new();
        proof {
            lemma_prepend_nothing(crate::grammar::parse_parameters(self.input(), self@));
            assert(crate::sema::pairs_view(parameters@) =~= Seq::<
                (Seq<char>, Seq<char>),
            >::empty());
        }
        loop
            invariant
                self.wf(),
                self.tokens@ == old(self).tokens@,
                self.scopes@ == old(self).scopes@,
                self.current >= old(self).current,
                crate::grammar::parse_parameters(old(self).input(), old(self)@) == prepend(
                    crate::sema::pairs_view(parameters@),
                    crate::grammar::parse_parameters(old(self).input(), self@),
                ),
            ensures
                self.wf(),
                self.tokens@ == old(self).tokens@,
                self.scopes@ == old(self).scopes@,
                self.current >= old(self).current,
                crate::grammar::parse_parameters(old(self).input(), old(self)@) == (
                    self@,
                    Ok::<Seq<(Seq<char>, Seq<char>)>, ParseError>(
                        crate::sema::pairs_view(parameters@),
                    ),
                ),
            decreases self.tokens@.len() - self.current,
        {
            let ghost read = crate::sema::pairs_view(parameters@);
            match self.kind_here() {
                None => {
                    return Err(self.error_here(ParseErrorKind::UnexpectedEnd));
                },
                Some(TokenType::RPAREN) => {
                    assert(read + Seq::<(Seq<char>, Seq<char>)>::empty() =~= read);
                    break ;
                },
                Some(_) => {},
            }
            let para_type = match self.read_type() {
                Ok(para_type) => para_type,
                Err(err) => {
                    return Err(err);
                },
            };
            let para_name = match self.read_name() {
                Ok(para_name) => para_name,
                Err(err) => {
                    return Err(err);
                },
            };
            match self.kind_here() {
                None => {
                    return Err(self.error_here(ParseErrorKind::UnexpectedEnd));
                },
                Some(TokenType::COMMA) => {
                    self.skip();
                },
                Some(_) => {},
            }
            proof {
                lemma_prepend_twice(
                    read,
                    seq![(para_type@, para_name@)],
                    crate::grammar::parse_parameters(self.input(), self@),
                );
                assert(crate::sema::pairs_view(parameters@.push((para_type, para_name))) =~= read
                    + seq![(para_type@, para_name@)]);
            }
            parameters.push((para_type, para_name));
        }
        Ok(parameters)
    }

    /// Parses the optional return type of a function definition.
    fn parse_return_type(&mut self) -> (r: Result<Option<String>, ParseError>)
        requires
            old(self).wf(),
        ensures
            final(self).wf(),
            final(self).tokens@ == old(self).tokens@,
            final(self).scopes@ == old(self).scopes@,
            final(self).current >= old(self).current,
            crate::grammar::parse_return_type(old(self).input(), old(self)@) == (
                final(self)@,
                match r {
                    Ok(ty) => Ok::<Option<Seq<char>>, ParseError>(crate::sema::option_view(ty)),
                    Err(err) => Err::<Option<Seq<char>>, ParseError>(err),
                },
            ),
    {
        match self.kind_here() {
            None => Err(self.error_here(ParseErrorKind::UnexpectedEnd)),
            Some(TokenType::ARROW) => {
                self.skip();
                if self.current >= self.tokens.len() {
                    return Err(self.error_here(ParseErrorKind::UnexpectedEnd));
                }
                let ty = self.tokens[self.current].value.clone();
                self.skip();
                Ok(Some(ty))
            },
            Some(_) => Ok(None),
        }
    }

    /// Parses statements up to a token of kind `stop`.
    pub fn parse_statements(&mut self, stop: TokenType) -> (r: Result<Vec<ASTNode>, ParseError>)
        requires
            old(self).wf(),
        ensures
            final(self).wf(),
            final(self).tokens@ == old(self).tokens@,
            final(self).current >= old(self).current,
            final(self).scopes@.len() >= old(self).scopes@.len(),
            r is Ok ==> final(self).current < final(self).tokens@.len(),
            r is Ok ==> final(self).scopes@.len() == old(self).scopes@.len(),
            crate::grammar::parse_statements(old(self).input(), old(self)@, stop) == (
                final(self)@,
                trees_result(r),
            ),
        decreases old(self).tokens@.len() - old(self).current, 3nat,
    {
        let mut statements: Vec<ASTNode> = Vec::new();
        proof {
            lemma_prepend_nothing(crate::grammar::parse_statements(self.input(), self@, stop));
        }
        loop
            invariant
                self.wf(),
                self.tokens@ == old(self).tokens@,
                self.current >= old(self).current,
                self.scopes@.len() == old(self).scopes@.len(),
                crate::grammar::parse_statements(old(self).input(), old(self)@, stop) == prepend(
                    trees(statements@),
                    crate::grammar::parse_statements(old(self).input(), self@, stop),
                ),
            ensures
                self.wf(),
                self.tokens@ == old(self).tokens@,
                self.current >= old(self).current,
                self.current < self.tokens@.len(),
                self.scopes@.len() == old(self).scopes@.len(),
                crate::grammar::parse_statements(old(self).input(), old(self)@, stop) == (
                    self@,
                    Ok::<Seq<Tree>, ParseError>(trees(statements@)),
                ),
            decreases self.tokens@.len() - self.current,
        {
            let ghost read = trees(statements@);
            match self.kind_here() {
                None => {
                    return Err(self.error_here(ParseErrorKind::UnexpectedEnd));
                },
                Some(kind) => {
                    if kind == stop {
                        assert(read + Seq::<Tree>::empty() =~= read);
                        break ;
                    }
                },
            }
            let statement = match self.parse_statement() {
                Ok(statement) => statement,
                Err(err) => {
                    return Err(err);
                },
            };
            proof {
                lemma_prepend_twice(
                    read,
                    seq![statement@],
                    crate::grammar::parse_statements(self.input(), self@, stop),
                );
                assert(trees(statements@.push(statement)) =~= read + seq![statement@]) by {
                    assert(statements@.push(statement).drop_last() =~= statements@);
                }
            }
            statements.push(statement);
        }
        Ok(statements)
    }

    /// Parses a block: statements between braces.
    pub fn parse_block(&mut self) -> (r: Result<Vec<ASTNode>, ParseError>)
        requires
            old(self).wf(),
        ensures
            final(self).follows(old(self), r is Ok),
            crate::grammar::parse_block(old(self).input(), old(self)@) == (
                final(self)@,
                trees_result(r),
            ),
        decreases old(self).tokens@.len() - old(self).current, 4nat,
    {
        match self.expect(TokenType::LBRACE, String::from_str("{")) {
            Ok(_) => {},
            Err(err) => {
                return Err(err);
            },
        }
        let statements = match self.parse_statements(TokenType::RBRACE) {
            Ok(statements) => statements,
            Err(err) => {
                return Err(err);
            },
        };
        self.skip();
        Ok(statements)
    }

    /// Parses the head of a function definition, from `sub` to the return
    /// type, as (name, parameters, return type).
    fn parse_head(&mut self) -> (r: Result<
        (String, Vec<(String, String)>, Option<String>),
        ParseError,
    >)
        requires
            old(self).wf(),
        ensures
            final(self).follows(old(self), r is Ok),
            final(self).scopes@ == old(self).scopes@,
            crate::grammar::parse_head(old(self).input(), old(self)@) == (
                final(self)@,
                match r {
                    Ok(head) => Ok::<crate::grammar::Head, ParseError>(head_view(head)),
                    Err(err) => Err::<crate::grammar::Head, ParseError>(err),
                },
            ),
    {
        match self.expect(TokenType::KEYWORD, String::from_str("sub")) {
            Ok(_) => {},
            Err(err) => {
                return Err(err);
            },
        }
        let defined = self.error_here(ParseErrorKind::Redefinition);
        let fn_name = match self.read_name() {
            Ok(fn_name) => fn_name,
            Err(err) => {
                return Err(err);
            },
        };
        if self.scopes.current_scope().has_function(fn_name.as_str()) {
            return Err(defined);
        }
        match self.expect(TokenType::LPAREN, String::from_str("(")) {
            Ok(_) => {},
            Err(err) => {
                return Err(err);
            },
        }
        let parameters = match self.parse_parameters() {
            Ok(parameters) => parameters,
            Err(err) => {
                return Err(err);
            },
        };
        match self.expect(TokenType::RPAREN, String::from_str(")")) {
            Ok(_) => {},
            Err(err) => {
                return Err(err);
            },
        }
        match self.parse_return_type() {
            Ok(ret_type) => Ok((fn_name, parameters, ret_type)),
            Err(err) => Err(err),
        }
    }

    /// Declares function `fn_name` in the innermost frame and enters a new
    /// frame that holds its parameters.
    fn enter_function(
        &mut self,
        fn_name: &String,
        parameters: &Vec<(String, String)>,
        ret_type: &Option<String>,
    )
        requires
            old(self).wf(),
        ensures
            final(self).tokens == old(self).tokens,
            final(self).current == old(self).current,
            final(self).scopes@.len() == old(self).scopes@.len() + 1,
            final(self).scopes@ == crate::grammar::enter_function(
                old(self).scopes@,
                crate::grammar::Head {
                    fn_name: fn_name@,
                    parameters: crate::sema::pairs_view(parameters@),
                    ret_type: crate::sema::option_view(*ret_type),
                },
            ),
    {
        let func = crate::sema::Function {
            fn_name: fn_name.clone(),
            paras: crate::sema::clone_pairs(parameters),
            ret_type: match ret_type {
                Some(ty) => Some(ty.clone()),
                None => None,
            },
        };
        self.scopes.current_scope_mut().add_function(fn_name.clone(), func);
        self.scopes.push_scope();
        let ghost inside = self.scopes@;
        let mut i: usize = 0;
        while i < parameters.len()
            invariant
                i <= parameters.len(),
                self.tokens == old(self).tokens,
                self.current == old(self).current,
                self.scopes@.len() == old(self).scopes@.len() + 1,
                self.scopes@ == crate::grammar::declare_parameters(
                    inside,
                    crate::sema::pairs_view(parameters@),
                    i as int,
                ),
            decreases parameters.len() - i,
        {
            crate::sema::insert_var(
                &mut self.scopes,
                parameters[i].1.clone(),
                parameters[i].0.clone(),
            );
            i = i + 1;
        }
    }

    /// Parses a function definition: declares the function in the innermost
    /// frame and parses the body in a new frame that holds the parameters.
    pub fn parse_function_definition(&mut self) -> (r: Result<ASTNode, ParseError>)
        requires
            old(self).wf(),
        ensures
            final(self).follows(old(self), r is Ok),
            crate::grammar::parse_function_definition(old(self).input(), old(self)@) == (
                final(self)@,
                tree_result(r),
            ),
        decreases old(self).tokens@.len() - old(self).current, 1nat,
    {
        let (fn_name, parameters, ret_type) = match self.parse_head() {
            Ok(head) => head,
            Err(err) => {
                return Err(err);
            },
        };
        self.enter_function(&fn_name, &parameters, &ret_type);
        let body = match self.parse_block() {
            Ok(body) => body,
            Err(err) => {
                return Err(err);
            },
        };
        self.scopes.pop_scope();
        Ok(ASTNode::FunctionDefinition { fn_name, parameters, ret_type, body })
    }

    /// Parses a statement.
    pub fn parse_statement(&mut self) -> (r: Result<ASTNode, ParseError>)
        requires
            old(self).wf(),
        ensures
            final(self).follows(old(self), r is Ok),
            crate::grammar::parse_statement(old(self).input(), old(self)@) == (
                final(self)@,
                tree_result(r),
            ),
        decreases old(self).tokens@.len() - old(self).current, 2nat,
    {
        if self.current >= self.tokens.len() {
            return Err(self.error_here(ParseErrorKind::UnexpectedEnd));
        }
        match self.tokens[self.current].token_type {
            TokenType::KEYWORD => {
                let word = self.tokens[self.current].value.as_str();
                if *word == *"sub" {
                    self.parse_function_definition()
                } else if *word == *"ret" {
                    self.parse_return()
                } else if *word == *"i32" || *word == *"str" {
                    self.parse_variable_definition()
                } else {
                    Err(self.error_here(ParseErrorKind::InvalidStatement))
                }
            },
            TokenType::ID => {
                let first = self.tokens[self.current].value.clone();
                self.skip();
                self.parse_named(first)
            },
            _ => self.parse_expression(),
        }
    }

    /// Parses a program: statements up to the end token.
    pub fn parse_program(&mut self) -> (r: Result<ASTNode, ParseError>)
        requires
            old(self).wf(),
        ensures
            final(self).wf(),
            final(self).tokens@ == old(self).tokens@,
            crate::grammar::parse_program(old(self).input(), old(self)@) == (
                final(self)@,
                tree_result(r),
            ),
    {
        match self.parse_statements(TokenType::EOF) {
            Ok(statements) => Ok(ASTNode::Program(statements)),
            Err(err) => Err(err),
        }
    }
}

/// The head of a function definition as plain text.
pub open spec fn head_view(head: (String, Vec<(String, String)>, Option<String>)) -> crate::grammar::Head {
    crate::grammar::Head {
        fn_name: head.0@,
        parameters: crate::sema::pairs_view(head.1@),
        ret_type: crate::sema::option_view(head.2),
    }
}

/// The trees that a parsing step yields, or the error that stopped it.
pub open spec fn trees_result(r: Result<Vec<ASTNode>, ParseError>) -> Result<Seq<Tree>, ParseError> {
    match r {
        Ok(nodes) => Ok(trees(nodes@)),
        Err(err) => Err(err),
    }
}

/// Putting the empty list before a list changes nothing.
pub proof fn lemma_prepend_nothing<T>(parsed: Parsed<Seq<T>>)
    ensures
        prepend(Seq::<T>::empty(), parsed) == parsed,
{
    match parsed.1 {
        Ok(rest) => {
            assert(Seq::<T>::empty() + rest =~= rest);
        },
        Err(_) => {},
    }
}

/// Putting two lists before a list, one after the other, is putting their
/// concatenation before it.
pub proof fn lemma_prepend_twice<T>(first: Seq<T>, second: Seq<T>, parsed: Parsed<Seq<T>>)
    ensures
        prepend(first, prepend(second, parsed)) == prepend(first + second, parsed),
{
    match parsed.1 {
        Ok(rest) => {
            assert(first + (second + rest) =~= (first + second) + rest);
        },
        Err(_) => {},
    }
}

} // verus!
