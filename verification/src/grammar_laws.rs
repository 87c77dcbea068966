//! What holds of the grammar for every sequence of lexemes and every table
//! of precedences.
use vstd::prelude::*;
use crate::ast::AstModel;
use crate::grammar::{
    after_operand, arguments, binds_tighter, binop_rhs, expression, least_precedence,
    precedence_of, primary, remaining, token_at, Parsed,
};
use crate::parser::ParseErrorKind;
use crate::token::Lexeme;

verus! {

/// The lexeme ends an expression: it is no operator of the table, and after
/// an operand it is no failure.
pub open spec fn ends_expression(table: Map<u32, i32>, t: Lexeme) -> bool {
    precedence_of(table, t) is None && after_operand(t) is None
}

/// The lexemes from `i` on are a number, the operator `p`, a number, the
/// operator `q`, a number, and a lexeme that ends the expression.
pub open spec fn two_operators_at(
    toks: Seq<Lexeme>,
    table: Map<u32, i32>,
    i: nat,
    a: Seq<char>,
    p: char,
    b: Seq<char>,
    q: char,
    c: Seq<char>,
) -> bool {
    &&& token_at(toks, i) == Lexeme::Number(a)
    &&& token_at(toks, i + 1) == Lexeme::Ascii(p)
    &&& token_at(toks, i + 2) == Lexeme::Number(b)
    &&& token_at(toks, i + 3) == Lexeme::Ascii(q)
    &&& token_at(toks, i + 4) == Lexeme::Number(c)
    &&& ends_expression(table, token_at(toks, i + 5))
    &&& table.contains_key(p as u32)
    &&& table.contains_key(q as u32)
}

/// Precedence: in `a p b q c`, where the operator `q` has a higher
/// precedence than `p`, `q` takes `b` and `c`, and `p` takes `a` and the
/// result. The expression nests one level deep.
pub proof fn lemma_higher_precedence_binds_tighter(
    toks: Seq<Lexeme>,
    table: Map<u32, i32>,
    i: nat,
    a: Seq<char>,
    p: char,
    b: Seq<char>,
    q: char,
    c: Seq<char>,
    depth: nat,
)
    requires
        two_operators_at(toks, table, i, a, p, b, q, c),
        table[q as u32] > table[p as u32],
        depth > 0,
    ensures
        expression(toks, table, i, depth) == (Parsed {
            result: Ok(
                AstModel::Binary(
                    p,
                    Box::new(AstModel::Number(a)),
                    Box::new(
                        AstModel::Binary(
                            q,
                            Box::new(AstModel::Number(b)),
                            Box::new(AstModel::Number(c)),
                        ),
                    ),
                ),
            ),
            len: 5,
        }),
{
    let pp = table[p as u32] as int;
    let na = AstModel::Number(a);
    let nb = AstModel::Number(b);
    let nc = AstModel::Number(c);
    let right = AstModel::Binary(q, Box::new(nb), Box::new(nc));
    let whole = AstModel::Binary(p, Box::new(na), Box::new(right));
    assert(primary(toks, table, i, depth) == Parsed { result: Ok(na), len: 1 });
    assert(primary(toks, table, i + 2, depth) == Parsed { result: Ok(nb), len: 1 });
    assert(primary(toks, table, i + 4, depth) == Parsed { result: Ok(nc), len: 1 });
    let inner = (depth - 1) as nat;
    assert(primary(toks, table, i + 4, inner) == Parsed { result: Ok(nc), len: 1 });
    assert(binop_rhs(toks, table, pp + 1, right, i + 5, inner) == Parsed {
        result: Ok(right),
        len: 0,
    });
    assert(!binds_tighter(table, token_at(toks, i + 5), table[q as u32] as int));
    assert(binop_rhs(toks, table, pp + 1, nb, i + 3, inner) == Parsed {
        result: Ok(right),
        len: 2,
    });
    assert(binop_rhs(toks, table, least_precedence(), whole, i + 5, depth) == Parsed {
        result: Ok(whole),
        len: 0,
    });
    assert(binds_tighter(table, token_at(toks, i + 3), pp));
    assert(binop_rhs(toks, table, least_precedence(), na, i + 1, depth) == Parsed {
        result: Ok(whole),
        len: 4,
    });
}

/// Associativity: in `a p b q c`, where the operator `q` has the precedence
/// of `p` or a lower one, `p` takes `a` and `b`, and `q` takes the result
/// and `c`. Operators of one precedence group to the left.
pub proof fn lemma_equal_precedence_groups_left(
    toks: Seq<Lexeme>,
    table: Map<u32, i32>,
    i: nat,
    a: Seq<char>,
    p: char,
    b: Seq<char>,
    q: char,
    c: Seq<char>,
    depth: nat,
)
    requires
        two_operators_at(toks, table, i, a, p, b, q, c),
        table[q as u32] <= table[p as u32],
    ensures
        expression(toks, table, i, depth) == (Parsed {
            result: Ok(
                AstModel::Binary(
                    q,
                    Box::new(
                        AstModel::Binary(
                            p,
                            Box::new(AstModel::Number(a)),
                            Box::new(AstModel::Number(b)),
                        ),
                    ),
                    Box::new(AstModel::Number(c)),
                ),
            ),
            len: 5,
        }),
{
    let pp = table[p as u32] as int;
    let na = AstModel::Number(a);
    let nb = AstModel::Number(b);
    let nc = AstModel::Number(c);
    let left = AstModel::Binary(p, Box::new(na), Box::new(nb));
    let whole = AstModel::Binary(q, Box::new(left), Box::new(nc));
    assert(primary(toks, table, i, depth) == Parsed { result: Ok(na), len: 1 });
    assert(primary(toks, table, i + 2, depth) == Parsed { result: Ok(nb), len: 1 });
    assert(primary(toks, table, i + 4, depth) == Parsed { result: Ok(nc), len: 1 });
    assert(binop_rhs(toks, table, least_precedence(), whole, i + 5, depth) == Parsed {
        result: Ok(whole),
        len: 0,
    });
    assert(!binds_tighter(table, token_at(toks, i + 5), table[q as u32] as int));
    assert(binop_rhs(toks, table, least_precedence(), left, i + 3, depth) == Parsed {
        result: Ok(whole),
        len: 2,
    });
    assert(!binds_tighter(table, token_at(toks, i + 3), pp));
    assert(binop_rhs(toks, table, least_precedence(), na, i + 1, depth) == Parsed {
        result: Ok(whole),
        len: 4,
    });
}

/// An operator that the table lacks: where a primary expression is followed
/// by a single character that the table does not hold, and that is neither
/// a closing parenthesis nor a comma, the expression fails at that
/// character as an unrecognised operator.
pub proof fn lemma_operator_outside_table_fails(
    toks: Seq<Lexeme>,
    table: Map<u32, i32>,
    i: nat,
    op: char,
    depth: nat,
)
    requires
        primary(toks, table, i, depth).result is Ok,
        token_at(toks, i + primary(toks, table, i, depth).len) == Lexeme::Ascii(op),
        !table.contains_key(op as u32),
        op != ')',
        op != ',',
    ensures
        expression(toks, table, i, depth) == (Parsed::<AstModel> {
            result: Err(ParseErrorKind::UnrecognizedOperator),
            len: primary(toks, table, i, depth).len,
        }),
{
    let first = primary(toks, table, i, depth);
    let lhs = first.result->Ok_0;
    assert(binop_rhs(toks, table, least_precedence(), lhs, i + first.len, depth).result == Err::<
        AstModel,
        ParseErrorKind,
    >(ParseErrorKind::UnrecognizedOperator));
}

/// A name that no opening parenthesis follows is a variable.
pub proof fn lemma_name_alone_is_variable(
    toks: Seq<Lexeme>,
    table: Map<u32, i32>,
    i: nat,
    name: Seq<char>,
    depth: nat,
)
    requires
        token_at(toks, i) == Lexeme::Identifier(name),
        token_at(toks, i + 1) != Lexeme::Ascii('('),
    ensures
        primary(toks, table, i, depth) == (Parsed {
            result: Ok(AstModel::Variable(name)),
            len: 1,
        }),
{
}

/// A name with two numbers in parentheses, a comma between them, is a call
/// of that name with the two numbers as its arguments. The comma and the
/// closing parenthesis are no operators of the table, and the arguments lie
/// one level deep.
pub proof fn lemma_call_with_two_numbers(
    toks: Seq<Lexeme>,
    table: Map<u32, i32>,
    i: nat,
    callee: Seq<char>,
    a: Seq<char>,
    b: Seq<char>,
    depth: nat,
)
    requires
        token_at(toks, i) == Lexeme::Identifier(callee),
        token_at(toks, i + 1) == Lexeme::Ascii('('),
        token_at(toks, i + 2) == Lexeme::Number(a),
        token_at(toks, i + 3) == Lexeme::Ascii(','),
        token_at(toks, i + 4) == Lexeme::Number(b),
        token_at(toks, i + 5) == Lexeme::Ascii(')'),
        !table.contains_key(',' as u32),
        !table.contains_key(')' as u32),
        depth > 0,
    ensures
        primary(toks, table, i, depth) == (Parsed {
            result: Ok(
                AstModel::Call(callee, seq![AstModel::Number(a), AstModel::Number(b)]),
            ),
            len: 6,
        }),
{
    let inner = (depth - 1) as nat;
    let na = AstModel::Number(a);
    let nb = AstModel::Number(b);
    let none = Seq::<AstModel>::empty();
    assert(primary(toks, table, i + 2, inner) == Parsed { result: Ok(na), len: 1 });
    assert(primary(toks, table, i + 4, inner) == Parsed { result: Ok(nb), len: 1 });
    assert(binop_rhs(toks, table, least_precedence(), na, i + 3, inner) == Parsed {
        result: Ok(na),
        len: 0,
    });
    assert(binop_rhs(toks, table, least_precedence(), nb, i + 5, inner) == Parsed {
        result: Ok(nb),
        len: 0,
    });
    assert(expression(toks, table, i + 2, inner) == Parsed { result: Ok(na), len: 1 });
    assert(expression(toks, table, i + 4, inner) == Parsed { result: Ok(nb), len: 1 });
    assert(none.push(na).push(nb) =~= seq![na, nb]);
    assert(arguments(toks, table, i + 4, none.push(na), inner) == Parsed {
        result: Ok(seq![na, nb]),
        len: 2,
    });
    assert(arguments(toks, table, i + 2, none, inner) == Parsed {
        result: Ok(seq![na, nb]),
        len: 4,
    });
}

/// A missing parenthesis: where an opening parenthesis and an expression
/// are followed by a token that is no closing parenthesis, the primary
/// expression fails at that token, which it does not pass.
pub proof fn lemma_unclosed_parenthesis_fails(
    toks: Seq<Lexeme>,
    table: Map<u32, i32>,
    i: nat,
    depth: nat,
)
    requires
        token_at(toks, i) == Lexeme::Ascii('('),
        expression(toks, table, i + 1, depth).result is Ok,
        token_at(toks, i + 1 + expression(toks, table, i + 1, depth).len) != Lexeme::Ascii(')'),
    ensures
        primary(toks, table, i, depth + 1) == (Parsed::<AstModel> {
            result: Err(ParseErrorKind::MissingClosingParen),
            len: 1 + expression(toks, table, i + 1, depth).len,
        }),
{
    lemma_expression_ends(toks, table, i + 1, depth);
}

/// Behind an expression that succeeds stands a lexeme that ends it: neither
/// an operator of the table nor a malformed token.
pub proof fn lemma_expression_ends(toks: Seq<Lexeme>, table: Map<u32, i32>, i: nat, depth: nat)
    requires
        expression(toks, table, i, depth).result is Ok,
    ensures
        ends_expression(table, token_at(toks, i + expression(toks, table, i, depth).len)),
{
    let first = primary(toks, table, i, depth);
    lemma_operands_end(toks, table, least_precedence(), first.result->Ok_0, i + first.len, depth);
}

/// Behind the operators and operands that `binop_rhs` takes stands a lexeme
/// that ends the expression, or an operator of a precedence below `min`.
pub proof fn lemma_operands_end(
    toks: Seq<Lexeme>,
    table: Map<u32, i32>,
    min: int,
    lhs: AstModel,
    i: nat,
    depth: nat,
)
    requires
        binop_rhs(toks, table, min, lhs, i, depth).result is Ok,
    ensures
        ({
            let t = token_at(toks, i + binop_rhs(toks, table, min, lhs, i, depth).len);
            match precedence_of(table, t) {
                Some(prec) => prec < min,
                None => after_operand(t) is None,
            }
        }),
    decreases remaining(toks, i),
{
    let t = token_at(toks, i);
    match precedence_of(table, t) {
        None => {},
        Some(prec) => {
            if prec >= min {
                let operand = primary(toks, table, i + 1, depth);
                let first = operand.result->Ok_0;
                let j = i + 1 + operand.len;
                let rhs = if binds_tighter(table, token_at(toks, j), prec) {
                    binop_rhs(toks, table, prec + 1, first, j, (depth - 1) as nat)
                } else {
                    Parsed { result: Ok(first), len: 0 }
                };
                let node = AstModel::Binary(t->Ascii_0, Box::new(lhs), Box::new(rhs.result->Ok_0));
                lemma_operands_end(toks, table, min, node, j + rhs.len, depth);
            }
        },
    }
}

/// The sequence of lexemes ends with the end of the input.
pub open spec fn ends_with_eof(toks: Seq<Lexeme>) -> bool {
    toks.len() > 0 && toks.last() is Eof
}

/// The parser never passes the end of the input: a primary expression that
/// starts inside the sequence ends inside it.
pub proof fn lemma_primary_stays_inside(
    toks: Seq<Lexeme>,
    table: Map<u32, i32>,
    i: nat,
    depth: nat,
)
    requires
        ends_with_eof(toks),
        i < toks.len(),
    ensures
        i + primary(toks, table, i, depth).len < toks.len(),
    decreases remaining(toks, i), 0int,
{
    match token_at(toks, i) {
        Lexeme::Identifier(name) => {
            if token_at(toks, i + 1) == Lexeme::Ascii('(') && depth > 0 {
                lemma_arguments_stay_inside(toks, table, i + 2, Seq::empty(), (depth - 1) as nat);
            }
        },
        Lexeme::Ascii(c) => {
            if c == '(' && depth > 0 {
                lemma_expression_stays_inside(toks, table, i + 1, (depth - 1) as nat);
            }
        },
        _ => {},
    }
}

/// The parser never passes the end of the input: the operators and operands
/// that start inside the sequence end inside it.
pub proof fn lemma_operands_stay_inside(
    toks: Seq<Lexeme>,
    table: Map<u32, i32>,
    min: int,
    lhs: AstModel,
    i: nat,
    depth: nat,
)
    requires
        ends_with_eof(toks),
        i < toks.len(),
    ensures
        i + binop_rhs(toks, table, min, lhs, i, depth).len < toks.len(),
    decreases remaining(toks, i), 1int,
{
    let t = token_at(toks, i);
    match precedence_of(table, t) {
        None => {},
        Some(prec) => {
            if prec >= min {
                let operand = primary(toks, table, i + 1, depth);
                lemma_primary_stays_inside(toks, table, i + 1, depth);
                match operand.result {
                    Err(_) => {},
                    Ok(first) => {
                        let j = i + 1 + operand.len;
                        let op = t->Ascii_0;
                        if !binds_tighter(table, token_at(toks, j), prec) {
                            let node = AstModel::Binary(op, Box::new(lhs), Box::new(first));
                            lemma_operands_stay_inside(toks, table, min, node, j, depth);
                        } else if depth > 0 {
                            let inner = (depth - 1) as nat;
                            let rhs = binop_rhs(toks, table, prec + 1, first, j, inner);
                            lemma_operands_stay_inside(toks, table, prec + 1, first, j, inner);
                            match rhs.result {
                                Err(_) => {},
                                Ok(right) => {
                                    let node = AstModel::Binary(op, Box::new(lhs), Box::new(right));
                                    lemma_operands_stay_inside(
                                        toks,
                                        table,
                                        min,
                                        node,
                                        j + rhs.len,
                                        depth,
                                    );
                                },
                            }
                        }
                    },
                }
            }
        },
    }
}

/// The parser never passes the end of the input: an expression that starts
/// inside the sequence ends inside it.
pub proof fn lemma_expression_stays_inside(
    toks: Seq<Lexeme>,
    table: Map<u32, i32>,
    i: nat,
    depth: nat,
)
    requires
        ends_with_eof(toks),
        i < toks.len(),
    ensures
        i + expression(toks, table, i, depth).len < toks.len(),
    decreases remaining(toks, i), 2int,
{
    let first = primary(toks, table, i, depth);
    lemma_primary_stays_inside(toks, table, i, depth);
    match first.result {
        Err(_) => {},
        Ok(lhs) => {
            lemma_operands_stay_inside(toks, table, least_precedence(), lhs, i + first.len, depth);
        },
    }
}

/// The parser never passes the end of the input: the arguments of a call
/// that start inside the sequence end inside it.
pub proof fn lemma_arguments_stay_inside(
    toks: Seq<Lexeme>,
    table: Map<u32, i32>,
    i: nat,
    acc: Seq<AstModel>,
    depth: nat,
)
    requires
        ends_with_eof(toks),
        i < toks.len(),
    ensures
        i + arguments(toks, table, i, acc, depth).len < toks.len(),
    decreases remaining(toks, i), 3int,
{
    if token_at(toks, i) != Lexeme::Ascii(')') {
        let arg = expression(toks, table, i, depth);
        lemma_expression_stays_inside(toks, table, i, depth);
        match arg.result {
            Err(_) => {},
            Ok(e) => {
                if token_at(toks, i + arg.len) == Lexeme::Ascii(',') {
                    lemma_arguments_stay_inside(toks, table, i + arg.len + 1, acc.push(e), depth);
                }
            },
        }
    }
}

/// The tree is an expression: numbers, variables, operators and calls, and
/// no signature or function in it.
pub open spec fn is_expression(tree: AstModel) -> bool
    decreases tree,
{
    match tree {
        AstModel::Number(_) => true,
        AstModel::Variable(_) => true,
        AstModel::Binary(_, lhs, rhs) => is_expression(*lhs) && is_expression(*rhs),
        AstModel::Call(_, args) => forall|k: int|
            0 <= k < args.len() ==> is_expression(#[trigger] args[k]),
        AstModel::Prototype(_) => false,
        AstModel::Function(_, _) => false,
    }
}

/// Every tree of the sequence is an expression.
pub open spec fn all_expressions(trees: Seq<AstModel>) -> bool {
    forall|k: int| 0 <= k < trees.len() ==> is_expression(#[trigger] trees[k])
}

/// What a primary expression yields is an expression.
pub proof fn lemma_primary_is_expression(
    toks: Seq<Lexeme>,
    table: Map<u32, i32>,
    i: nat,
    depth: nat,
)
    requires
        primary(toks, table, i, depth).result is Ok,
    ensures
        is_expression(primary(toks, table, i, depth).result->Ok_0),
    decreases remaining(toks, i), 0int,
{
    match token_at(toks, i) {
        Lexeme::Identifier(name) => {
            if token_at(toks, i + 1) == Lexeme::Ascii('(') {
                lemma_arguments_are_expressions(
                    toks,
                    table,
                    i + 2,
                    Seq::empty(),
                    (depth - 1) as nat,
                );
            }
        },
        Lexeme::Ascii(c) => {
            lemma_expression_is_expression(toks, table, i + 1, (depth - 1) as nat);
        },
        _ => {},
    }
}

/// What operators and operands yield behind an expression is an
/// expression.
pub proof fn lemma_operands_are_expression(
    toks: Seq<Lexeme>,
    table: Map<u32, i32>,
    min: int,
    lhs: AstModel,
    i: nat,
    depth: nat,
)
    requires
        is_expression(lhs),
        binop_rhs(toks, table, min, lhs, i, depth).result is Ok,
    ensures
        is_expression(binop_rhs(toks, table, min, lhs, i, depth).result->Ok_0),
    decreases remaining(toks, i), 1int,
{
    let t = token_at(toks, i);
    match precedence_of(table, t) {
        None => {},
        Some(prec) => {
            if prec >= min {
                let operand = primary(toks, table, i + 1, depth);
                let first = operand.result->Ok_0;
                lemma_primary_is_expression(toks, table, i + 1, depth);
                let j = i + 1 + operand.len;
                let nested = binds_tighter(table, token_at(toks, j), prec);
                let rhs = if nested {
                    binop_rhs(toks, table, prec + 1, first, j, (depth - 1) as nat)
                } else {
                    Parsed { result: Ok(first), len: 0 }
                };
                if nested {
                    lemma_operands_are_expression(
                        toks,
                        table,
                        prec + 1,
                        first,
                        j,
                        (depth - 1) as nat,
                    );
                }
                let node = AstModel::Binary(t->Ascii_0, Box::new(lhs), Box::new(rhs.result->Ok_0));
                lemma_operands_are_expression(toks, table, min, node, j + rhs.len, depth);
            }
        },
    }
}

/// What an expression yields is an expression.
pub proof fn lemma_expression_is_expression(
    toks: Seq<Lexeme>,
    table: Map<u32, i32>,
    i: nat,
    depth: nat,
)
    requires
        expression(toks, table, i, depth).result is Ok,
    ensures
        is_expression(expression(toks, table, i, depth).result->Ok_0),
    decreases remaining(toks, i), 2int,
{
    let first = primary(toks, table, i, depth);
    lemma_primary_is_expression(toks, table, i, depth);
    lemma_operands_are_expression(
        toks,
        table,
        least_precedence(),
        first.result->Ok_0,
        i + first.len,
        depth,
    );
}

/// The arguments of a call are expressions.
pub proof fn lemma_arguments_are_expressions(
    toks: Seq<Lexeme>,
    table: Map<u32, i32>,
    i: nat,
    acc: Seq<AstModel>,
    depth: nat,
)
    requires
        all_expressions(acc),
        arguments(toks, table, i, acc, depth).result is Ok,
    ensures
        all_expressions(arguments(toks, table, i, acc, depth).result->Ok_0),
    decreases remaining(toks, i), 3int,
{
    if token_at(toks, i) != Lexeme::Ascii(')') {
        let arg = expression(toks, table, i, depth);
        lemma_expression_is_expression(toks, table, i, depth);
        let e = arg.result->Ok_0;
        if token_at(toks, i + arg.len) == Lexeme::Ascii(',') {
            lemma_arguments_are_expressions(toks, table, i + arg.len + 1, acc.push(e), depth);
        }
    }
}

} // verus!
