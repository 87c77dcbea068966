//! The grammar, as functions on a sequence of lexemes.
//!
//! Each function reads the sequence from an index on and gives the tree, or
//! the failure, that the parser owes there, with the number of lexemes that
//! the parser has passed when it returns.
//!
//! ```text
//! top         ::= definition | declaration | expression
//! definition  ::= Def prototype expression
//! declaration ::= Extern prototype
//! prototype   ::= Identifier '(' Identifier* ')'
//! expression  ::= primary (operator primary)*
//! primary     ::= Number | Identifier | Identifier '(' arguments ')' | '(' expression ')'
//! arguments   ::= (expression (',' expression)* ','?)?
//! ```
//!
//! An operator is a single character that the table of precedences holds.
//! The shape of the tree of an expression follows the precedences: see
//! `binop_rhs`.
use vstd::prelude::*;
use crate::ast::{AstModel, PrototypeModel};
use crate::parser::ParseErrorKind;
use crate::token::Lexeme;

verus! {

/// What a function of the grammar gives: the value or the failure, and the
/// number of lexemes passed.
pub struct Parsed<T> {
    pub result: Result<T, ParseErrorKind>,
    pub len: nat,
}

/// The lexeme at index `i`. Past the end of the sequence the input has ended.
pub open spec fn token_at(toks: Seq<Lexeme>, i: nat) -> Lexeme {
    if i < toks.len() {
        toks[i as int]
    } else {
        Lexeme::Eof
    }
}

/// The number of lexemes from index `i` on.
pub open spec fn remaining(toks: Seq<Lexeme>, i: nat) -> nat {
    if i < toks.len() {
        (toks.len() - i) as nat
    } else {
        0
    }
}

/// The failure to report at a lexeme that cannot stand where it does: what
/// the lexer reported where the lexeme is no token, else `kind`.
pub open spec fn rejection(found: Lexeme, kind: ParseErrorKind) -> ParseErrorKind {
    match found {
        Lexeme::Invalid(e) => ParseErrorKind::Lexical(e),
        _ => kind,
    }
}

/// The precedence of a lexeme as a binary operator: that of its character in
/// the table, where it is a single character that the table holds.
pub open spec fn precedence_of(table: Map<u32, i32>, t: Lexeme) -> Option<int> {
    match t {
        Lexeme::Ascii(c) => if table.contains_key(c as u32) {
            Some(table[c as u32] as int)
        } else {
            None
        },
        _ => None,
    }
}

/// What a lexeme that is no operator of the table means after an operand.
/// A closing parenthesis, a comma and whatever is no single character end
/// the expression. Any other character is an operator that the table lacks.
pub open spec fn after_operand(t: Lexeme) -> Option<ParseErrorKind> {
    match t {
        Lexeme::Ascii(c) => if c == ')' || c == ',' {
            None
        } else {
            Some(ParseErrorKind::UnrecognizedOperator)
        },
        Lexeme::Invalid(e) => Some(ParseErrorKind::Lexical(e)),
        _ => None,
    }
}

/// The least precedence: an expression takes every operator of the table.
pub open spec fn least_precedence() -> int {
    i32::MIN as int
}

/// A primary expression at `i`: a number, a variable, a call or an
/// expression in parentheses.
///
/// The arguments of a call and what stands in parentheses are nested one
/// level deeper, and `depth` is the number of levels that are left: with
/// none left, the opening parenthesis fails.
pub open spec fn primary(toks: Seq<Lexeme>, table: Map<u32, i32>, i: nat, depth: nat) -> Parsed<
    AstModel,
>
    decreases remaining(toks, i), 0int,
{
    match token_at(toks, i) {
        Lexeme::Identifier(name) => if token_at(toks, i + 1) == Lexeme::Ascii('(') {
            if depth == 0 {
                Parsed { result: Err(ParseErrorKind::NestingTooDeep), len: 1 }
            } else {
                let args = arguments(toks, table, i + 2, Seq::empty(), (depth - 1) as nat);
                Parsed {
                    result: match args.result {
                        Ok(a) => Ok(AstModel::Call(name, a)),
                        Err(k) => Err(k),
                    },
                    len: 2 + args.len,
                }
            }
        } else {
            Parsed { result: Ok(AstModel::Variable(name)), len: 1 }
        },
        Lexeme::Number(text) => Parsed { result: Ok(AstModel::Number(text)), len: 1 },
        Lexeme::Ascii(c) => if c == '(' {
            if depth == 0 {
                Parsed { result: Err(ParseErrorKind::NestingTooDeep), len: 0 }
            } else {
                let inner = expression(toks, table, i + 1, (depth - 1) as nat);
                let close = token_at(toks, i + 1 + inner.len);
                match inner.result {
                    Ok(e) => if close == Lexeme::Ascii(')') {
                        Parsed { result: Ok(e), len: inner.len + 2 }
                    } else {
                        Parsed {
                            result: Err(rejection(close, ParseErrorKind::MissingClosingParen)),
                            len: inner.len + 1,
                        }
                    },
                    Err(k) => Parsed { result: Err(k), len: inner.len + 1 },
                }
            }
        } else {
            Parsed { result: Err(ParseErrorKind::FailedPrimary), len: 0 }
        },
        t => Parsed { result: Err(rejection(t, ParseErrorKind::FailedPrimary)), len: 0 },
    }
}

/// The operators and operands that follow the operand `lhs`, from `i` on, as
/// far as the operators have a precedence of `min` or more.
///
/// An operator takes as its right operand the primary expression after it,
/// with all that follows it under operators of a higher precedence. The
/// result then stands as the left operand of what comes next: operators of
/// one precedence group to the left.
///
/// What follows under operators of a higher precedence is nested one level
/// deeper: with no level left, the operator of the higher precedence fails.
pub open spec fn binop_rhs(
    toks: Seq<Lexeme>,
    table: Map<u32, i32>,
    min: int,
    lhs: AstModel,
    i: nat,
    depth: nat,
) -> Parsed<AstModel>
    decreases remaining(toks, i), 1int,
{
    let t = token_at(toks, i);
    match precedence_of(table, t) {
        None => Parsed {
            result: match after_operand(t) {
                None => Ok(lhs),
                Some(k) => Err(k),
            },
            len: 0,
        },
        Some(prec) => if prec < min {
            Parsed { result: Ok(lhs), len: 0 }
        } else {
            let operand = primary(toks, table, i + 1, depth);
            match operand.result {
                Err(k) => Parsed { result: Err(k), len: 1 + operand.len },
                Ok(first) => {
                    let j = i + 1 + operand.len;
                    let rhs = if binds_tighter(table, token_at(toks, j), prec) {
                        if depth == 0 {
                            Parsed { result: Err(ParseErrorKind::NestingTooDeep), len: 0 }
                        } else {
                            binop_rhs(toks, table, prec + 1, first, j, (depth - 1) as nat)
                        }
                    } else {
                        Parsed { result: Ok(first), len: 0 }
                    };
                    match rhs.result {
                        Err(k) => Parsed { result: Err(k), len: 1 + operand.len + rhs.len },
                        Ok(right) => {
                            let node = AstModel::Binary(t->Ascii_0, Box::new(lhs), Box::new(right));
                            let rest = binop_rhs(toks, table, min, node, j + rhs.len, depth);
                            Parsed {
                                result: rest.result,
                                len: 1 + operand.len + rhs.len + rest.len,
                            }
                        },
                    }
                },
            }
        },
    }
}

/// The lexeme is an operator of the table with a precedence above `prec`.
pub open spec fn binds_tighter(table: Map<u32, i32>, t: Lexeme, prec: int) -> bool {
    match precedence_of(table, t) {
        Some(next) => next > prec,
        None => false,
    }
}

/// An expression at `i`: a primary expression and the operators and operands
/// that follow it.
pub open spec fn expression(toks: Seq<Lexeme>, table: Map<u32, i32>, i: nat, depth: nat) -> Parsed<
    AstModel,
>
    decreases remaining(toks, i), 2int,
{
    let first = primary(toks, table, i, depth);
    match first.result {
        Err(k) => Parsed { result: Err(k), len: first.len },
        Ok(lhs) => {
            let rest = binop_rhs(toks, table, least_precedence(), lhs, i + first.len, depth);
            Parsed { result: rest.result, len: first.len + rest.len }
        },
    }
}

/// The arguments of a call from `i` on, after the arguments `acc`, up to and
/// with the closing parenthesis. A comma may stand before the parenthesis.
pub open spec fn arguments(
    toks: Seq<Lexeme>,
    table: Map<u32, i32>,
    i: nat,
    acc: Seq<AstModel>,
    depth: nat,
) -> Parsed<Seq<AstModel>>
    decreases remaining(toks, i), 3int,
{
    if token_at(toks, i) == Lexeme::Ascii(')') {
        Parsed { result: Ok(acc), len: 1 }
    } else {
        let arg = expression(toks, table, i, depth);
        match arg.result {
            Err(k) => Parsed { result: Err(k), len: arg.len },
            Ok(e) => {
                let t = token_at(toks, i + arg.len);
                if t == Lexeme::Ascii(')') {
                    Parsed { result: Ok(acc.push(e)), len: arg.len + 1 }
                } else if t == Lexeme::Ascii(',') {
                    let rest = arguments(toks, table, i + arg.len + 1, acc.push(e), depth);
                    Parsed { result: rest.result, len: arg.len + 1 + rest.len }
                } else {
                    Parsed {
                        result: Err(rejection(t, ParseErrorKind::MalformedArgumentList)),
                        len: arg.len,
                    }
                }
            },
        }
    }
}

/// The names of the parameters of a signature from `i` on, after the names
/// `acc`, up to and with the closing parenthesis.
pub open spec fn parameters(toks: Seq<Lexeme>, i: nat, acc: Seq<Seq<char>>) -> Parsed<
    Seq<Seq<char>>,
>
    decreases remaining(toks, i),
{
    match token_at(toks, i) {
        Lexeme::Identifier(name) => {
            let rest = parameters(toks, i + 1, acc.push(name));
            Parsed { result: rest.result, len: 1 + rest.len }
        },
        t => if t == Lexeme::Ascii(')') {
            Parsed { result: Ok(acc), len: 1 }
        } else {
            Parsed { result: Err(rejection(t, ParseErrorKind::UnclosedParameterList)), len: 0 }
        },
    }
}

/// A signature at `i`: a name, then the names of the parameters in
/// parentheses.
pub open spec fn prototype(toks: Seq<Lexeme>, i: nat) -> Parsed<PrototypeModel> {
    match token_at(toks, i) {
        Lexeme::Identifier(name) => {
            let open = token_at(toks, i + 1);
            if open == Lexeme::Ascii('(') {
                let params = parameters(toks, i + 2, Seq::empty());
                Parsed {
                    result: match params.result {
                        Ok(args) => Ok(PrototypeModel { name, args }),
                        Err(k) => Err(k),
                    },
                    len: 2 + params.len,
                }
            } else {
                Parsed {
                    result: Err(rejection(open, ParseErrorKind::ExpectedParameterList)),
                    len: 1,
                }
            }
        },
        t => Parsed { result: Err(rejection(t, ParseErrorKind::ExpectedFunctionName)), len: 0 },
    }
}

/// A function definition whose keyword stands at `i`: a signature and the
/// expression that is the body.
pub open spec fn definition(toks: Seq<Lexeme>, table: Map<u32, i32>, i: nat, depth: nat) -> Parsed<
    AstModel,
> {
    let proto = prototype(toks, i + 1);
    match proto.result {
        Err(k) => Parsed { result: Err(k), len: 1 + proto.len },
        Ok(p) => {
            let body = expression(toks, table, i + 1 + proto.len, depth);
            Parsed {
                result: match body.result {
                    Ok(e) => Ok(AstModel::Function(p, Box::new(e))),
                    Err(k) => Err(k),
                },
                len: 1 + proto.len + body.len,
            }
        },
    }
}

/// The declaration of an outside function whose keyword stands at `i`: a
/// signature.
pub open spec fn declaration(toks: Seq<Lexeme>, i: nat) -> Parsed<AstModel> {
    let proto = prototype(toks, i + 1);
    Parsed {
        result: match proto.result {
            Ok(p) => Ok(AstModel::Prototype(p)),
            Err(k) => Err(k),
        },
        len: 1 + proto.len,
    }
}

/// The signature of the function that stands for an expression at top level:
/// no name and no parameters.
pub open spec fn anonymous_prototype() -> PrototypeModel {
    PrototypeModel { name: Seq::empty(), args: Seq::empty() }
}

/// An expression at top level, as the body of a function without a name.
pub open spec fn top_level_expression(
    toks: Seq<Lexeme>,
    table: Map<u32, i32>,
    i: nat,
    depth: nat,
) -> Parsed<AstModel> {
    let body = expression(toks, table, i, depth);
    Parsed {
        result: match body.result {
            Ok(e) => Ok(AstModel::Function(anonymous_prototype(), Box::new(e))),
            Err(k) => Err(k),
        },
        len: body.len,
    }
}

/// The form at top level that starts at `i`, or nothing where the input has
/// ended: a definition, a declaration, or an expression.
pub open spec fn top_level(
    toks: Seq<Lexeme>,
    table: Map<u32, i32>,
    i: nat,
    depth: nat,
) -> Option<
    Parsed<AstModel>,
> {
    match token_at(toks, i) {
        Lexeme::Eof => None,
        Lexeme::Def => Some(definition(toks, table, i, depth)),
        Lexeme::Extern => Some(declaration(toks, i)),
        _ => Some(top_level_expression(toks, table, i, depth)),
    }
}

/// Where the parser takes up its work after a failure at `i`: at the next
/// keyword that opens a form at top level, or at the end of the input.
pub open spec fn resume_at(toks: Seq<Lexeme>, i: nat) -> nat
    decreases remaining(toks, i),
{
    match token_at(toks, i) {
        Lexeme::Eof => i,
        Lexeme::Def => i,
        Lexeme::Extern => i,
        _ => resume_at(toks, i + 1),
    }
}

/// The forms at top level from `i` on, each with its tree or its failure.
/// After a failure the parser goes on at the next keyword that opens a form.
pub open spec fn program(
    toks: Seq<Lexeme>,
    table: Map<u32, i32>,
    i: nat,
    depth: nat,
) -> Seq<
    Result<AstModel, ParseErrorKind>,
>
    decreases remaining(toks, i),
    via program_decreases
{
    match top_level(toks, table, i, depth) {
        None => Seq::empty(),
        Some(form) => {
            let next = if form.result is Ok {
                i + form.len
            } else {
                resume_at(toks, i + form.len)
            };
            seq![form.result] + program(toks, table, next, depth)
        },
    }
}

#[via_fn]
proof fn program_decreases(toks: Seq<Lexeme>, table: Map<u32, i32>, i: nat, depth: nat) {
    match top_level(toks, table, i, depth) {
        None => {},
        Some(form) => {
            lemma_top_level_progress(toks, table, i, depth);
        },
    }
}

/// The place where the parser resumes is not before `i`, and no form can
/// start between the two.
pub proof fn lemma_resume_at_bounds(toks: Seq<Lexeme>, i: nat)
    ensures
        i <= resume_at(toks, i),
        i < toks.len() ==> resume_at(toks, i) < toks.len() || token_at(toks, resume_at(toks, i))
            is Eof,
        token_at(toks, resume_at(toks, i)) is Eof || token_at(toks, resume_at(toks, i)) is Def
            || token_at(toks, resume_at(toks, i)) is Extern,
    decreases remaining(toks, i),
{
    match token_at(toks, i) {
        Lexeme::Eof => {},
        Lexeme::Def => {},
        Lexeme::Extern => {},
        _ => {
            lemma_resume_at_bounds(toks, i + 1);
        },
    }
}

/// A form at top level that succeeds passes a lexeme at least, and after one
/// that fails the parser resumes behind where the form started.
pub proof fn lemma_top_level_progress(
    toks: Seq<Lexeme>,
    table: Map<u32, i32>,
    i: nat,
    depth: nat,
)
    requires
        top_level(toks, table, i, depth) is Some,
    ensures
        i < toks.len(),
        ({
            let form = top_level(toks, table, i, depth)->Some_0;
            if form.result is Ok {
                form.len >= 1
            } else {
                i < resume_at(toks, i + form.len)
            }
        }),
{
    let form = top_level(toks, table, i, depth)->Some_0;
    lemma_resume_at_bounds(toks, i + form.len);
    if form.len == 0 {
        lemma_resume_at_bounds(toks, i + 1);
    }
}

} // verus!
