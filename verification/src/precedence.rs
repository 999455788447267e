//! Laws of the grammar: parsing moves forward, products bind tighter than
//! sums, operators of one level group from the left, and a name is declared
//! once per scope.

use crate::grammar::{
    advance, declare_variable, error, expect, kind_at, name, parse_arguments, parse_expression,
    parse_expression_primary, parse_expression_secondary, parse_factors, parse_function_call,
    parse_reference, parse_terms, parse_variable_definition, token_at, type_word, ParseErrorKind,
    ParseState,
};
use crate::lexer::{Lexeme, TokenType};
use crate::parser::Tree;
use vstd::prelude::*;

verus! {

/// Whether a parsing step that started in `s` and ended in `t` with success
/// or without behaved: the scope stack is the same, the position has not
/// gone back, and a success has read at least one token and no more than
/// there are.
pub open spec fn advanced(tokens: Seq<Lexeme>, s: ParseState, t: ParseState, ok: bool) -> bool {
    &&& t.scopes == s.scopes
    &&& s.pos <= t.pos
    &&& ok ==> s.pos < t.pos <= tokens.len()
}

/// Whether a parsing step that may read nothing behaved: the scope stack is
/// the same, the position has not gone back, and a success has not read
/// past the end.
pub open spec fn continued(tokens: Seq<Lexeme>, s: ParseState, t: ParseState, ok: bool) -> bool {
    &&& t.scopes == s.scopes
    &&& s.pos <= t.pos
    &&& ok && s.pos <= tokens.len() ==> t.pos <= tokens.len()
}

/// A primary expression reads at least one token and declares nothing.
pub proof fn lemma_primary_advances(tokens: Seq<Lexeme>, s: ParseState)
    requires
        0 <= s.pos,
    ensures
        advanced(
            tokens,
            s,
            parse_expression_primary(tokens, s).0,
            parse_expression_primary(tokens, s).1 is Ok,
        ),
    decreases tokens.len() - s.pos, 1nat,
{
    match token_at(tokens, s.pos) {
        None => {},
        Some(token) => match token.kind {
            TokenType::ID => {
                lemma_reference_continues(tokens, advance(s), token.text, false);
            },
            TokenType::AT => match token_at(tokens, s.pos + 1) {
                None => {},
                Some(next) => {
                    if next.kind == TokenType::ID {
                        lemma_reference_continues(tokens, advance(advance(s)), next.text, true);
                    }
                },
            },
            TokenType::LPAREN => {
                lemma_expression_advances(tokens, advance(s));
            },
            _ => {},
        },
    }
}

/// A reference declares nothing and does not read past the end.
pub proof fn lemma_reference_continues(
    tokens: Seq<Lexeme>,
    s: ParseState,
    referent: Seq<char>,
    global: bool,
)
    requires
        0 <= s.pos,
    ensures
        continued(
            tokens,
            s,
            parse_reference(tokens, s, referent, global).0,
            parse_reference(tokens, s, referent, global).1 is Ok,
        ),
    decreases tokens.len() - s.pos, 5nat,
{
    match kind_at(tokens, s.pos) {
        Some(TokenType::LPAREN) => {
            if crate::grammar::function_known(s.scopes, referent) {
                lemma_call_advances(tokens, s, referent);
            }
        },
        _ => {},
    }
}

/// A call reads at least one token and declares nothing.
pub proof fn lemma_call_advances(tokens: Seq<Lexeme>, s: ParseState, callee: Seq<char>)
    requires
        0 <= s.pos,
    ensures
        advanced(
            tokens,
            s,
            parse_function_call(tokens, s, callee).0,
            parse_function_call(tokens, s, callee).1 is Ok,
        ),
    decreases tokens.len() - s.pos, 4nat,
{
    let (s1, open) = expect(tokens, s, TokenType::LPAREN, "("@);
    if open is Ok {
        lemma_arguments_continue(tokens, s1);
    }
}

/// The arguments of a call declare nothing and leave the position within
/// the tokens.
pub proof fn lemma_arguments_continue(tokens: Seq<Lexeme>, s: ParseState)
    requires
        0 <= s.pos,
    ensures
        continued(
            tokens,
            s,
            parse_arguments(tokens, s).0,
            parse_arguments(tokens, s).1 is Ok,
        ),
    decreases tokens.len() - s.pos, 4nat,
{
    match kind_at(tokens, s.pos) {
        None => {},
        Some(TokenType::RPAREN) => {},
        Some(_) => {
            lemma_expression_advances(tokens, s);
            let (s1, arg) = parse_expression(tokens, s);
            if arg is Ok {
                match kind_at(tokens, s1.pos) {
                    None => {},
                    Some(kind) => {
                        let s2 = if kind == TokenType::COMMA {
                            advance(s1)
                        } else {
                            s1
                        };
                        lemma_arguments_continue(tokens, s2);
                    },
                }
            }
        },
    }
}

/// The rest of a product declares nothing and does not read past the end.
pub proof fn lemma_factors_continue(tokens: Seq<Lexeme>, s: ParseState, left: Tree)
    requires
        0 <= s.pos,
    ensures
        continued(
            tokens,
            s,
            parse_factors(tokens, s, left).0,
            parse_factors(tokens, s, left).1 is Ok,
        ),
    decreases tokens.len() - s.pos, 0nat,
{
    match token_at(tokens, s.pos) {
        None => {},
        Some(token) => {
            if token.kind == TokenType::ASTERISK || token.kind == TokenType::SLASH {
                lemma_primary_advances(tokens, advance(s));
                let (s1, right) = parse_expression_primary(tokens, advance(s));
                if let Ok(right) = right {
                    lemma_factors_continue(
                        tokens,
                        s1,
                        Tree::InfixExpression {
                            left_expr: Box::new(left),
                            op: token.text,
                            right_expr: Box::new(right),
                        },
                    );
                }
            }
        },
    }
}

/// A product reads at least one token and declares nothing.
pub proof fn lemma_secondary_advances(tokens: Seq<Lexeme>, s: ParseState)
    requires
        0 <= s.pos,
    ensures
        advanced(
            tokens,
            s,
            parse_expression_secondary(tokens, s).0,
            parse_expression_secondary(tokens, s).1 is Ok,
        ),
    decreases tokens.len() - s.pos, 2nat,
{
    lemma_primary_advances(tokens, s);
    let (s1, first) = parse_expression_primary(tokens, s);
    if let Ok(first) = first {
        lemma_factors_continue(tokens, s1, first);
    }
}

/// The rest of a sum declares nothing and does not read past the end.
pub proof fn lemma_terms_continue(tokens: Seq<Lexeme>, s: ParseState, left: Tree)
    requires
        0 <= s.pos,
    ensures
        continued(
            tokens,
            s,
            parse_terms(tokens, s, left).0,
            parse_terms(tokens, s, left).1 is Ok,
        ),
    decreases tokens.len() - s.pos, 0nat,
{
    match token_at(tokens, s.pos) {
        None => {},
        Some(token) => {
            if token.kind == TokenType::ADD || token.kind == TokenType::MINUS {
                lemma_secondary_advances(tokens, advance(s));
                let (s1, right) = parse_expression_secondary(tokens, advance(s));
                if let Ok(right) = right {
                    lemma_terms_continue(
                        tokens,
                        s1,
                        Tree::InfixExpression {
                            left_expr: Box::new(left),
                            op: token.text,
                            right_expr: Box::new(right),
                        },
                    );
                }
            }
        },
    }
}

/// An expression reads at least one token and declares nothing.
pub proof fn lemma_expression_advances(tokens: Seq<Lexeme>, s: ParseState)
    requires
        0 <= s.pos,
    ensures
        advanced(
            tokens,
            s,
            parse_expression(tokens, s).0,
            parse_expression(tokens, s).1 is Ok,
        ),
    decreases tokens.len() - s.pos, 3nat,
{
    lemma_secondary_advances(tokens, s);
    let (s1, first) = parse_expression_secondary(tokens, s);
    if let Ok(first) = first {
        lemma_terms_continue(tokens, s1, first);
    }
}

/// Whether the token at `pos` is `+` or `-`.
pub open spec fn additive_at(tokens: Seq<Lexeme>, pos: int) -> bool {
    kind_at(tokens, pos) == Some(TokenType::ADD) || kind_at(tokens, pos) == Some(TokenType::MINUS)
}

/// Whether the token at `pos` is `*` or `/`.
pub open spec fn multiplicative_at(tokens: Seq<Lexeme>, pos: int) -> bool {
    kind_at(tokens, pos) == Some(TokenType::ASTERISK) || kind_at(tokens, pos) == Some(
        TokenType::SLASH,
    )
}

/// The operation `left op right`.
pub open spec fn joined(left: Tree, op: Seq<char>, right: Tree) -> Tree {
    Tree::InfixExpression { left_expr: Box::new(left), op, right_expr: Box::new(right) }
}

/// Three operands with two operators between them: the primary at `s` is
/// `a` and ends at `s1`, where the first operator stands; the primary after
/// it is `b` and ends at `s2`, where the second operator stands; the primary
/// after that is `c` and ends at `s3`, where no operator stands.
pub open spec fn three_operands(
    tokens: Seq<Lexeme>,
    s: ParseState,
    a: Tree,
    s1: ParseState,
    b: Tree,
    s2: ParseState,
    c: Tree,
    s3: ParseState,
) -> bool {
    &&& 0 <= s.pos
    &&& parse_expression_primary(tokens, s) == (s1, Ok::<Tree, crate::grammar::ParseError>(a))
    &&& additive_at(tokens, s1.pos) || multiplicative_at(tokens, s1.pos)
    &&& parse_expression_primary(tokens, advance(s1)) == (
        s2,
        Ok::<Tree, crate::grammar::ParseError>(b),
    )
    &&& additive_at(tokens, s2.pos) || multiplicative_at(tokens, s2.pos)
    &&& parse_expression_primary(tokens, advance(s2)) == (
        s3,
        Ok::<Tree, crate::grammar::ParseError>(c),
    )
    &&& !additive_at(tokens, s3.pos)
    &&& !multiplicative_at(tokens, s3.pos)
}

/// Products bind tighter than sums, and operators of one level group from
/// the left. For operands `a`, `b`, `c` with operators `x` and `y`:
///
/// - `a + b * c` is `a + (b * c)`: the product is the right operand of the
///   sum, whichever of `+ -` and `* /` the operators are;
/// - in every other case, `a x b y c` is `(a x b) y c`: `a * b + c` because
///   the product comes first, and `a + b - c` and `a * b / c` because the
///   operators have one level.
pub proof fn lemma_precedence(
    tokens: Seq<Lexeme>,
    s: ParseState,
    a: Tree,
    s1: ParseState,
    b: Tree,
    s2: ParseState,
    c: Tree,
    s3: ParseState,
)
    requires
        three_operands(tokens, s, a, s1, b, s2, c, s3),
    ensures
        additive_at(tokens, s1.pos) && multiplicative_at(tokens, s2.pos) ==> parse_expression(
            tokens,
            s,
        ) == (
            s3,
            Ok::<Tree, crate::grammar::ParseError>(
                joined(a, tokens[s1.pos].text, joined(b, tokens[s2.pos].text, c)),
            ),
        ),
        !(additive_at(tokens, s1.pos) && multiplicative_at(tokens, s2.pos)) ==> parse_expression(
            tokens,
            s,
        ) == (
            s3,
            Ok::<Tree, crate::grammar::ParseError>(
                joined(joined(a, tokens[s1.pos].text, b), tokens[s2.pos].text, c),
            ),
        ),
{
    lemma_primary_advances(tokens, s);
    lemma_primary_advances(tokens, advance(s1));
    lemma_primary_advances(tokens, advance(s2));
    let x = tokens[s1.pos].text;
    let y = tokens[s2.pos].text;
    let ab = joined(a, x, b);
    let bc = joined(b, y, c);
    if additive_at(tokens, s1.pos) {
        // the first product is `a` alone
        assert(parse_factors(tokens, s1, a) == (s1, Ok::<Tree, crate::grammar::ParseError>(a)));
        assert(parse_expression_secondary(tokens, s) == (
            s1,
            Ok::<Tree, crate::grammar::ParseError>(a),
        ));
        if multiplicative_at(tokens, s2.pos) {
            // the second product is `b y c`
            assert(parse_factors(tokens, s3, bc) == (
                s3,
                Ok::<Tree, crate::grammar::ParseError>(bc),
            ));
            assert(parse_factors(tokens, s2, b) == (
                s3,
                Ok::<Tree, crate::grammar::ParseError>(bc),
            ));
            assert(parse_expression_secondary(tokens, advance(s1)) == (
                s3,
                Ok::<Tree, crate::grammar::ParseError>(bc),
            ));
            assert(parse_terms(tokens, s3, joined(a, x, bc)) == (
                s3,
                Ok::<Tree, crate::grammar::ParseError>(joined(a, x, bc)),
            ));
            assert(parse_terms(tokens, s1, a) == (
                s3,
                Ok::<Tree, crate::grammar::ParseError>(joined(a, x, bc)),
            ));
        } else {
            // the second product is `b` alone, the third `c` alone
            assert(parse_factors(tokens, s2, b) == (s2, Ok::<Tree, crate::grammar::ParseError>(b)));
            assert(parse_expression_secondary(tokens, advance(s1)) == (
                s2,
                Ok::<Tree, crate::grammar::ParseError>(b),
            ));
            assert(parse_factors(tokens, s3, c) == (s3, Ok::<Tree, crate::grammar::ParseError>(c)));
            assert(parse_expression_secondary(tokens, advance(s2)) == (
                s3,
                Ok::<Tree, crate::grammar::ParseError>(c),
            ));
            assert(parse_terms(tokens, s3, joined(ab, y, c)) == (
                s3,
                Ok::<Tree, crate::grammar::ParseError>(joined(ab, y, c)),
            ));
            assert(parse_terms(tokens, s2, ab) == (
                s3,
                Ok::<Tree, crate::grammar::ParseError>(joined(ab, y, c)),
            ));
            assert(parse_terms(tokens, s1, a) == (
                s3,
                Ok::<Tree, crate::grammar::ParseError>(joined(ab, y, c)),
            ));
        }
    } else {
        // the first product starts with `a x b`
        if multiplicative_at(tokens, s2.pos) {
            assert(parse_factors(tokens, s3, joined(ab, y, c)) == (
                s3,
                Ok::<Tree, crate::grammar::ParseError>(joined(ab, y, c)),
            ));
            assert(parse_factors(tokens, s2, ab) == (
                s3,
                Ok::<Tree, crate::grammar::ParseError>(joined(ab, y, c)),
            ));
            assert(parse_factors(tokens, s1, a) == (
                s3,
                Ok::<Tree, crate::grammar::ParseError>(joined(ab, y, c)),
            ));
            assert(parse_expression_secondary(tokens, s) == (
                s3,
                Ok::<Tree, crate::grammar::ParseError>(joined(ab, y, c)),
            ));
            assert(parse_terms(tokens, s3, joined(ab, y, c)) == (
                s3,
                Ok::<Tree, crate::grammar::ParseError>(joined(ab, y, c)),
            ));
        } else {
            assert(parse_factors(tokens, s2, ab) == (
                s2,
                Ok::<Tree, crate::grammar::ParseError>(ab),
            ));
            assert(parse_factors(tokens, s1, a) == (
                s2,
                Ok::<Tree, crate::grammar::ParseError>(ab),
            ));
            assert(parse_expression_secondary(tokens, s) == (
                s2,
                Ok::<Tree, crate::grammar::ParseError>(ab),
            ));
            assert(parse_factors(tokens, s3, c) == (s3, Ok::<Tree, crate::grammar::ParseError>(c)));
            assert(parse_expression_secondary(tokens, advance(s2)) == (
                s3,
                Ok::<Tree, crate::grammar::ParseError>(c),
            ));
            assert(parse_terms(tokens, s3, joined(ab, y, c)) == (
                s3,
                Ok::<Tree, crate::grammar::ParseError>(joined(ab, y, c)),
            ));
            assert(parse_terms(tokens, s2, ab) == (
                s3,
                Ok::<Tree, crate::grammar::ParseError>(joined(ab, y, c)),
            ));
        }
    }
}

/// The operation that a first operand and a list of further operands, each
/// with the operator before it, make up when they are grouped from the
/// left: the last operator is applied to all that stands before it and to
/// the last operand.
pub open spec fn left_fold(first: Tree, rest: Seq<(Seq<char>, Tree)>) -> Tree
    decreases rest.len(),
{
    if rest.len() == 0 {
        first
    } else {
        joined(left_fold(first, rest.drop_last()), rest.last().0, rest.last().1)
    }
}

/// Whether the tokens from `s` on hold a chain of `*` and `/` with the
/// operands `rest`: each operator is the text before its operand, each
/// operand is the primary that is parsed after its operator, and the chain
/// ends at `end`, where no `*` or `/` stands.
pub open spec fn factor_chain(
    tokens: Seq<Lexeme>,
    s: ParseState,
    rest: Seq<(Seq<char>, Tree)>,
    end: ParseState,
) -> bool
    decreases rest.len(),
{
    if rest.len() == 0 {
        s == end && !multiplicative_at(tokens, s.pos)
    } else {
        &&& multiplicative_at(tokens, s.pos)
        &&& tokens[s.pos].text == rest[0].0
        &&& parse_expression_primary(tokens, advance(s)).1 == Ok::<
            Tree,
            crate::grammar::ParseError,
        >(rest[0].1)
        &&& factor_chain(
            tokens,
            parse_expression_primary(tokens, advance(s)).0,
            rest.drop_first(),
            end,
        )
    }
}

/// Whether the tokens from `s` on hold a chain of `+` and `-` with the
/// operands `rest`: each operator is the text before its operand, each
/// operand is the product that is parsed after its operator, and the chain
/// ends at `end`, where no `+` or `-` stands.
pub open spec fn term_chain(
    tokens: Seq<Lexeme>,
    s: ParseState,
    rest: Seq<(Seq<char>, Tree)>,
    end: ParseState,
) -> bool
    decreases rest.len(),
{
    if rest.len() == 0 {
        s == end && !additive_at(tokens, s.pos)
    } else {
        &&& additive_at(tokens, s.pos)
        &&& tokens[s.pos].text == rest[0].0
        &&& parse_expression_secondary(tokens, advance(s)).1 == Ok::<
            Tree,
            crate::grammar::ParseError,
        >(rest[0].1)
        &&& term_chain(
            tokens,
            parse_expression_secondary(tokens, advance(s)).0,
            rest.drop_first(),
            end,
        )
    }
}

/// Grouping from the left takes the first of the further operands first.
pub proof fn lemma_left_fold_first(first: Tree, rest: Seq<(Seq<char>, Tree)>)
    requires
        rest.len() > 0,
    ensures
        left_fold(first, rest) == left_fold(joined(first, rest[0].0, rest[0].1), rest.drop_first()),
    decreases rest.len(),
{
    if rest.len() == 1 {
        assert(rest.drop_last() =~= Seq::<(Seq<char>, Tree)>::empty());
        assert(rest.drop_first() =~= Seq::<(Seq<char>, Tree)>::empty());
        assert(left_fold(first, rest.drop_last()) == first);
    } else {
        lemma_left_fold_first(first, rest.drop_last());
        assert(rest.drop_last().drop_first() =~= rest.drop_first().drop_last());
        assert(rest.drop_last()[0] == rest[0]);
        assert(rest.drop_first().last() == rest.last());
    }
}

/// A chain of `*` and `/` of any length groups from the left.
pub proof fn lemma_factors_group_left(
    tokens: Seq<Lexeme>,
    s: ParseState,
    left: Tree,
    rest: Seq<(Seq<char>, Tree)>,
    end: ParseState,
)
    requires
        0 <= s.pos,
        factor_chain(tokens, s, rest, end),
    ensures
        parse_factors(tokens, s, left) == (
            end,
            Ok::<Tree, crate::grammar::ParseError>(left_fold(left, rest)),
        ),
    decreases rest.len(),
{
    if rest.len() > 0 {
        lemma_primary_advances(tokens, advance(s));
        let s1 = parse_expression_primary(tokens, advance(s)).0;
        lemma_factors_group_left(
            tokens,
            s1,
            joined(left, rest[0].0, rest[0].1),
            rest.drop_first(),
            end,
        );
        lemma_left_fold_first(left, rest);
    }
}

/// A chain of `+` and `-` of any length groups from the left.
pub proof fn lemma_terms_group_left(
    tokens: Seq<Lexeme>,
    s: ParseState,
    left: Tree,
    rest: Seq<(Seq<char>, Tree)>,
    end: ParseState,
)
    requires
        0 <= s.pos,
        term_chain(tokens, s, rest, end),
    ensures
        parse_terms(tokens, s, left) == (
            end,
            Ok::<Tree, crate::grammar::ParseError>(left_fold(left, rest)),
        ),
    decreases rest.len(),
{
    if rest.len() > 0 {
        lemma_secondary_advances(tokens, advance(s));
        let s1 = parse_expression_secondary(tokens, advance(s)).0;
        lemma_terms_group_left(
            tokens,
            s1,
            joined(left, rest[0].0, rest[0].1),
            rest.drop_first(),
            end,
        );
        lemma_left_fold_first(left, rest);
    }
}

/// Operators of one level group from the left, however many there are, and
/// products bind tighter than sums. A product is its first primary and the
/// primaries after each `*` and `/`, grouped from the left; an expression is
/// its first product and the products after each `+` and `-`, grouped from
/// the left, so that every operand of a sum is a whole product.
pub proof fn lemma_chains_group_left(
    tokens: Seq<Lexeme>,
    s: ParseState,
    first: Tree,
    s1: ParseState,
    rest: Seq<(Seq<char>, Tree)>,
    end: ParseState,
)
    requires
        0 <= s.pos,
    ensures
        parse_expression_primary(tokens, s) == (s1, Ok::<Tree, crate::grammar::ParseError>(first))
            && factor_chain(tokens, s1, rest, end) ==> parse_expression_secondary(tokens, s) == (
            end,
            Ok::<Tree, crate::grammar::ParseError>(left_fold(first, rest)),
        ),
        parse_expression_secondary(tokens, s) == (
            s1,
            Ok::<Tree, crate::grammar::ParseError>(first),
        ) && term_chain(tokens, s1, rest, end) ==> parse_expression(tokens, s) == (
            end,
            Ok::<Tree, crate::grammar::ParseError>(left_fold(first, rest)),
        ),
{
    if parse_expression_primary(tokens, s) == (s1, Ok::<Tree, crate::grammar::ParseError>(first))
        && factor_chain(tokens, s1, rest, end) {
        lemma_primary_advances(tokens, s);
        lemma_factors_group_left(tokens, s1, first, rest, end);
    }
    if parse_expression_secondary(tokens, s) == (
        s1,
        Ok::<Tree, crate::grammar::ParseError>(first),
    ) && term_chain(tokens, s1, rest, end) {
        lemma_secondary_advances(tokens, s);
        lemma_terms_group_left(tokens, s1, first, rest, end);
    }
}

/// A name is declared once per scope. A variable definition whose name the
/// innermost frame already declares is rejected as a redefinition, and a
/// definition that is accepted declares its name there, so that a second
/// definition of the same name in the same frame is rejected.
pub proof fn lemma_redefinition(tokens: Seq<Lexeme>, s: ParseState)
    requires
        s.scopes.len() >= 1,
    ensures
        type_word(tokens, s).1 is Ok && name(tokens, advance(s)).1 is Ok
            && s.scopes.last().variables.contains_key(name(tokens, advance(s)).1->Ok_0)
            ==> parse_variable_definition(tokens, s).1 == Err::<Tree, crate::grammar::ParseError>(
            error(ParseErrorKind::Redefinition, s.pos + 1),
        ),
        parse_variable_definition(tokens, s).1 is Ok ==> parse_variable_definition(
            tokens,
            s,
        ).0.scopes.last().variables.contains_key(
            parse_variable_definition(tokens, s).1->Ok_0->VariableDefinition_identifier,
        ),
{
    let (s1, var_type) = type_word(tokens, s);
    if let Ok(var_type) = var_type {
        let (s2, identifier) = name(tokens, s1);
        if let Ok(identifier) = identifier {
            if !s2.scopes.last().variables.contains_key(identifier) {
                let (s3, var_value) = crate::grammar::parse_initializer(tokens, s2);
                if s2.pos >= 0 {
                    if kind_at(tokens, s2.pos) == Some(TokenType::EQUALS) {
                        lemma_expression_advances(tokens, advance(s2));
                    }
                }
                if let Ok(var_value) = var_value {
                    let (s4, end) = expect(tokens, s3, TokenType::SEMICOLON, ";"@);
                    if end is Ok {
                        assert(s4.scopes == s.scopes);
                        assert(declare_variable(
                            s4.scopes,
                            identifier,
                            var_type,
                        ).last().variables.contains_key(identifier));
                    }
                }
            }
        }
    }
}

} // verus!
