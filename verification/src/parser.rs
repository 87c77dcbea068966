//! The parser: from tokens to syntax trees, by recursive descent with one
//! token of look-ahead and precedence climbing for binary operators.
use vstd::prelude::*;
use std::collections::HashMap;
use crate::ast::{
    lemma_models_push, lemma_texts_push, models, texts, AstModel, AstNode, BinaryExprAST,
    CallExprAST, FunctionAST, NumberExprAST, PrototypeAST, PrototypeModel, VariableExprAST,
};
use crate::grammar::{
    after_operand, arguments, binds_tighter, binop_rhs, declaration, definition, expression,
    lemma_top_level_progress, parameters, precedence_of, primary,
    program, prototype, rejection, remaining, resume_at, token_at, top_level,
    top_level_expression, Parsed,
};
use crate::lexer::{lexemes, scan, Lexer};
use crate::token::{lexeme_of, LexError, Lexeme, Token};

verus! {

/// What the parser found wrong.
#[derive(Clone, Copy, Debug, PartialEq, Eq, Structural)]
pub enum ParseErrorKind {
    /// A character in the place of a binary operator is not in the table
    /// of precedences.
    UnrecognizedOperator,
    /// An argument of a call is followed neither by a comma nor by the
    /// closing parenthesis.
    MalformedArgumentList,
    /// The closing parenthesis of a parenthesised expression is missing.
    MissingClosingParen,
    /// No expression starts at the token.
    FailedPrimary,
    /// A signature does not start with the name of the function.
    ExpectedFunctionName,
    /// The name of a signature is not followed by an opening parenthesis.
    ExpectedParameterList,
    /// The parameters of a signature are followed by something else than a
    /// closing parenthesis.
    UnclosedParameterList,
    /// The expression is nested deeper than the parser allows.
    NestingTooDeep,
    /// The lexer reported a malformed token.
    Lexical(LexError),
}

/// A failure of the parser.
#[derive(Clone, Copy, Debug, PartialEq, Eq, Structural)]
pub struct ParseError {
    pub kind: ParseErrorKind,
}

impl ParseErrorKind {
    /// The fixed text of the failure.
    pub open spec fn text(self) -> Seq<char> {
        match self {
            ParseErrorKind::UnrecognizedOperator => "Unrecognized binary operator!"@,
            ParseErrorKind::MalformedArgumentList => "Expected ')' or ',' in argument list"@,
            ParseErrorKind::MissingClosingParen => "Expected ')'"@,
            ParseErrorKind::FailedPrimary => "Failed at primary expression!"@,
            ParseErrorKind::ExpectedFunctionName => "Expected function name in prototype"@,
            ParseErrorKind::ExpectedParameterList => "Expected '(' in prototype"@,
            ParseErrorKind::UnclosedParameterList => "Expected ')' in prototype"@,
            ParseErrorKind::NestingTooDeep => "Expression nested too deeply"@,
            ParseErrorKind::Lexical(e) => e.text(),
        }
    }
}

impl ParseError {
    /// The fixed text of the failure.
    pub fn message(&self) -> (r: &'static str)
        ensures
            r@ == self.kind.text(),
    {
        match self.kind {
            ParseErrorKind::UnrecognizedOperator => "Unrecognized binary operator!",
            ParseErrorKind::MalformedArgumentList => "Expected ')' or ',' in argument list",
            ParseErrorKind::MissingClosingParen => "Expected ')'",
            ParseErrorKind::FailedPrimary => "Failed at primary expression!",
            ParseErrorKind::ExpectedFunctionName => "Expected function name in prototype",
            ParseErrorKind::ExpectedParameterList => "Expected '(' in prototype",
            ParseErrorKind::UnclosedParameterList => "Expected ')' in prototype",
            ParseErrorKind::NestingTooDeep => "Expression nested too deeply",
            ParseErrorKind::Lexical(e) => e.message(),
        }
    }

    /// The failure as a line for the user.
    pub fn to_text(&self) -> (r: String)
        ensures
            r@ == "Parse error: "@ + self.kind.text(),
    {
        let mut r = String::from_str("Parse error: ");
        r.append(self.message());
        r
    }
}

/// The mathematical value of what a parsing function returns.
pub open spec fn outcome(r: Result<AstNode, ParseError>) -> Result<AstModel, ParseErrorKind> {
    match r {
        Ok(node) => Ok(node@),
        Err(e) => Err(e.kind),
    }
}

/// The mathematical value of what the parsing of a signature returns.
pub open spec fn prototype_outcome(r: Result<PrototypeAST, ParseError>) -> Result<
    PrototypeModel,
    ParseErrorKind,
> {
    match r {
        Ok(proto) => Ok(proto@),
        Err(e) => Err(e.kind),
    }
}

/// The mathematical values of what the parsing of a sequence of forms
/// returns.
pub open spec fn outcomes(forms: Seq<Result<AstNode, ParseError>>) -> Seq<
    Result<AstModel, ParseErrorKind>,
> {
    Seq::new(forms.len(), |i: int| outcome(forms[i]))
}

/// The number of lexemes that a form at top level takes: none where there is
/// no form.
pub open spec fn forms_len(form: Option<Parsed<AstModel>>) -> nat {
    match form {
        Some(found) => found.len,
        None => 0,
    }
}

/// Where the lexemes behind index `i` are those that the lexer yields from
/// `pos` on, the lexeme behind `i` is the one of the lexer's next step, and
/// the lexemes behind that one are those that the lexer yields after it.
proof fn lemma_next_lexeme(tokens: Seq<Lexeme>, i: nat, source: Seq<u8>, pos: int)
    requires
        i < tokens.len(),
        tokens.skip(i as int + 1) =~= lexemes(source, pos),
    ensures
        i + 1 < tokens.len(),
        tokens[i as int + 1] == scan(source, pos).lexeme,
        if scan(source, pos).lexeme is Eof {
            i + 2 == tokens.len()
        } else {
            tokens.skip(i as int + 2) =~= lexemes(source, scan(source, pos).next)
        },
{
    let step = scan(source, pos);
    let rest = tokens.skip(i as int + 1);
    assert(rest.len() >= 1);
    assert(rest[0] == tokens[i as int + 1]);
    if !(step.lexeme is Eof) {
        let tail = lexemes(source, step.next);
        assert(rest =~= seq![step.lexeme] + tail);
        assert forall|k: int| 0 <= k < tail.len() implies tokens.skip(i as int + 2)[k]
            == tail[k] by {
            assert(rest[k + 1] == tail[k]);
        }
        assert(tokens.skip(i as int + 2).len() == tail.len());
    }
}

/// The depth to which expressions may nest, unless the parser is told
/// otherwise.
pub const DEFAULT_NESTING_LIMIT: usize = 256;

/// A parser over the tokens of a lexer, with a table of the precedences of
/// the binary operators. The table is keyed by the code point of the
/// operator's character.
///
/// The parser holds one token of look-ahead, the current token: the first
/// token that it has not passed yet.
///
/// Parentheses, the arguments of calls and operators of rising precedence
/// are parsed by recursion. The parser bounds how deep they nest and fails
/// beyond that depth, so that no input makes it recurse without bound.
pub struct Parser {
    binop_precedence: HashMap<u32, i32>,
    lexer: Lexer,
    curr_token: Result<Token, LexError>,
    nesting_left: usize,
    tokens: Ghost<Seq<Lexeme>>,
    index: Ghost<nat>,
}

impl Parser {
    /// The current token is the lexeme at `index()`, and the lexer stands
    /// behind it.
    pub closed spec fn well_formed(&self) -> bool {
        &&& self.index@ < self.tokens@.len()
        &&& self.tokens@[self.index@ as int] == lexeme_of(self.curr_token)
        &&& if lexeme_of(self.curr_token) is Eof {
            self.index@ + 1 == self.tokens@.len()
        } else {
            self.tokens@.skip(self.index@ as int + 1) =~= self.lexer.pending()
        }
    }

    /// The lexemes of the source from where the parser started, up to and
    /// with the end of the input. They never change.
    pub closed spec fn tokens(&self) -> Seq<Lexeme> {
        self.tokens@
    }

    /// The number of lexemes that the parser has passed: the index of the
    /// current token among `tokens()`.
    pub closed spec fn index(&self) -> nat {
        self.index@
    }

    /// The table of precedences, by the code point of the operator.
    pub closed spec fn table(&self) -> Map<u32, i32> {
        self.binop_precedence@
    }

    /// The number of levels by which expressions may nest from here on.
    pub closed spec fn depth(&self) -> nat {
        self.nesting_left as nat
    }

    /// The current token.
    pub open spec fn current(&self) -> Lexeme {
        token_at(self.tokens(), self.index())
    }

    /// A parser over what `lexer` has yet to yield, with the usual bound on
    /// nesting. It takes the first token from the lexer as its current
    /// token.
    pub fn new(binop_precedence: HashMap<u32, i32>, lexer: Lexer) -> (parser: Self)
        ensures
            parser.well_formed(),
            parser.tokens() == lexer.pending(),
            parser.index() == 0,
            parser.table() == binop_precedence@,
            parser.depth() == DEFAULT_NESTING_LIMIT,
    {
        Self::with_nesting_limit(binop_precedence, lexer, DEFAULT_NESTING_LIMIT)
    }

    /// A parser over what `lexer` has yet to yield, in which expressions
    /// may nest `limit` levels deep.
    pub fn with_nesting_limit(
        binop_precedence: HashMap<u32, i32>,
        lexer: Lexer,
        limit: usize,
    ) -> (parser: Self)
        ensures
            parser.well_formed(),
            parser.tokens() == lexer.pending(),
            parser.index() == 0,
            parser.table() == binop_precedence@,
            parser.depth() == limit,
    {
        let ghost tokens = lexer.pending();
        let mut lexer = lexer;
        let first = lexer.gettok();
        Parser {
            binop_precedence,
            lexer,
            curr_token: first,
            nesting_left: limit,
            tokens: Ghost(tokens),
            index: Ghost(0),
        }
    }

    /// The current token, or what the lexer reported in its place.
    pub fn current_token(&self) -> (step: &Result<Token, LexError>)
        requires
            self.well_formed(),
        ensures
            lexeme_of(*step) == self.current(),
    {
        &self.curr_token
    }

    /// Passes the current token and takes the next one from the lexer. At
    /// the end of the input nothing changes.
    pub fn get_next_token(&mut self)
        requires
            old(self).well_formed(),
        ensures
            final(self).well_formed(),
            final(self).tokens() == old(self).tokens(),
            final(self).table() == old(self).table(),
            final(self).depth() == old(self).depth(),
            final(self).index() == if old(self).current() is Eof {
                old(self).index()
            } else {
                old(self).index() + 1
            },
            final(self).index() < final(self).tokens().len(),
    {
        if let Ok(Token::TokEof) = &self.curr_token {
            return ;
        }
        proof {
            lemma_next_lexeme(
                self.tokens@,
                self.index@,
                self.lexer.source(),
                self.lexer.position(),
            );
        }
        let next = self.lexer.gettok();
        self.curr_token = next;
        proof {
            self.index@ = self.index@ + 1;
        }
    }

    /// The precedence of `op` in the table.
    pub fn get_operator_precedence(&self, op: char) -> (r: Result<i32, ParseError>)
        ensures
            r == if self.table().contains_key(op as u32) {
                Ok::<i32, ParseError>(self.table()[op as u32])
            } else {
                Err(ParseError { kind: ParseErrorKind::UnrecognizedOperator })
            },
    {
        match self.binop_precedence.get(&(op as u32)) {
            Some(prec) => Ok(*prec),
            None => Err(ParseError { kind: ParseErrorKind::UnrecognizedOperator }),
        }
    }

    /// The primary expression that the grammar gives at the current token.
    pub open spec fn next_primary(&self) -> Parsed<AstModel> {
        primary(self.tokens(), self.table(), self.index(), self.depth())
    }

    /// What the grammar gives for the operators and operands at the current
    /// token, behind the operand `lhs`.
    pub open spec fn next_operands(&self, min: int, lhs: AstModel) -> Parsed<AstModel> {
        binop_rhs(self.tokens(), self.table(), min, lhs, self.index(), self.depth())
    }

    /// The expression that the grammar gives at the current token.
    pub open spec fn next_expression(&self) -> Parsed<AstModel> {
        expression(self.tokens(), self.table(), self.index(), self.depth())
    }

    /// The signature that the grammar gives at the current token.
    pub open spec fn next_prototype(&self) -> Parsed<PrototypeModel> {
        prototype(self.tokens(), self.index())
    }

    /// The definition that the grammar gives at the current token.
    pub open spec fn next_definition(&self) -> Parsed<AstModel> {
        definition(self.tokens(), self.table(), self.index(), self.depth())
    }

    /// The declaration that the grammar gives at the current token.
    pub open spec fn next_declaration(&self) -> Parsed<AstModel> {
        declaration(self.tokens(), self.index())
    }

    /// The function without a name that the grammar gives for the
    /// expression at the current token.
    pub open spec fn next_top_level_expression(&self) -> Parsed<AstModel> {
        top_level_expression(self.tokens(), self.table(), self.index(), self.depth())
    }

    /// The form at top level that the grammar gives at the current token.
    pub open spec fn next_top_level(&self) -> Option<Parsed<AstModel>> {
        top_level(self.tokens(), self.table(), self.index(), self.depth())
    }

    /// The forms at top level that the grammar gives from the current token
    /// on.
    pub open spec fn rest_of_program(&self) -> Seq<Result<AstModel, ParseErrorKind>> {
        program(self.tokens(), self.table(), self.index(), self.depth())
    }

    /// The parser has passed `len` more lexemes than `before`, and nothing
    /// else has changed.
    pub open spec fn follows(&self, before: Parser, len: nat) -> bool {
        &&& self.well_formed()
        &&& self.tokens() == before.tokens()
        &&& self.table() == before.table()
        &&& self.depth() == before.depth()
        &&& self.index() == before.index() + len
    }

    /// The failure to report at the current token where it cannot stand.
    fn reject(&self, kind: ParseErrorKind) -> (e: ParseError)
        requires
            self.well_formed(),
        ensures
            e.kind == rejection(self.current(), kind),
    {
        match &self.curr_token {
            Err(e) => ParseError { kind: ParseErrorKind::Lexical(*e) },
            Ok(_) => ParseError { kind },
        }
    }

    /// Tells whether the current token is the single character `c`.
    fn current_is(&self, c: char) -> (r: bool)
        requires
            self.well_formed(),
        ensures
            r == (self.current() == Lexeme::Ascii(c)),
    {
        match &self.curr_token {
            Ok(Token::TokAscii(found)) => *found == c,
            _ => false,
        }
    }

    /// The current token as a binary operator: its character and its
    /// precedence, where it is a character that the table holds.
    fn current_operator(&self) -> (r: Option<(char, i32)>)
        requires
            self.well_formed(),
        ensures
            match r {
                Some((op, prec)) => self.current() == Lexeme::Ascii(op) && precedence_of(
                    self.table(),
                    self.current(),
                ) == Some(prec as int),
                None => precedence_of(self.table(), self.current()) is None,
            },
    {
        match &self.curr_token {
            Ok(Token::TokAscii(c)) => match self.get_operator_precedence(*c) {
                Ok(prec) => Some((*c, prec)),
                Err(_) => None,
            },
            _ => None,
        }
    }

    /// Tells whether the current token is an operator of the table with a
    /// precedence above `prec`.
    fn current_binds_tighter(&self, prec: i32) -> (r: bool)
        requires
            self.well_formed(),
        ensures
            r == binds_tighter(self.table(), self.current(), prec as int),
    {
        match self.current_operator() {
            Some((_, next)) => next > prec,
            None => false,
        }
    }

    /// The node of the number that is the current token.
    fn parse_num_expr(&mut self, num: String) -> (node: AstNode)
        requires
            old(self).well_formed(),
            old(self).current() == Lexeme::Number(num@),
        ensures
            final(self).follows(*old(self), 1),
            node@ == AstModel::Number(num@),
    {
        self.get_next_token();
        AstNode::Number(NumberExprAST::new(num))
    }

    /// A variable or a call, at the name that is the current token.
    fn parse_identifier_expr(&mut self, id: String) -> (r: Result<AstNode, ParseError>)
        requires
            old(self).well_formed(),
            old(self).current() == Lexeme::Identifier(id@),
        ensures
            outcome(r) == old(self).next_primary().result,
            final(self).follows(*old(self), old(self).next_primary().len),
        decreases remaining(old(self).tokens(), old(self).index()), 0int,
    {
        let ghost toks = self.tokens();
        let ghost table = self.table();
        let ghost start = self.index();
        self.get_next_token();
        if !self.current_is('(') {
            return Ok(AstNode::Variable(VariableExprAST::new(id)));
        }
        if self.nesting_left == 0 {
            return Err(ParseError { kind: ParseErrorKind::NestingTooDeep });
        }
        self.get_next_token();
        self.nesting_left = self.nesting_left - 1;
        let ghost depth = self.depth();
        let ghost whole = arguments(toks, table, start + 2, Seq::empty(), depth);
        let mut args: Vec<AstNode> = Vec::new();
        assert(models(args@) =~= Seq::empty());
        loop
            invariant
                self.well_formed(),
                self.tokens() == toks,
                self.table() == table,
                self.depth() == depth,
                depth + 1 == old(self).depth(),
                start < toks.len(),
                start + 2 <= self.index(),
                whole == arguments(toks, table, start + 2, Seq::empty(), depth),
                whole.result == arguments(toks, table, self.index(), models(args@), depth).result,
                whole.len == (self.index() - (start + 2)) + arguments(
                    toks,
                    table,
                    self.index(),
                    models(args@),
                    depth,
                ).len,
                toks == old(self).tokens(),
                table == old(self).table(),
                start == old(self).index(),
                token_at(toks, start) == Lexeme::Identifier(id@),
                token_at(toks, start + 1) == Lexeme::Ascii('('),
            decreases remaining(toks, self.index()),
        {
            if self.current_is(')') {
                self.get_next_token();
                self.nesting_left = self.nesting_left + 1;
                return Ok(AstNode::Call(CallExprAST::new(id, args)));
            }
            let arg = match self.parse_expression() {
                Ok(arg) => arg,
                Err(e) => {
                    self.nesting_left = self.nesting_left + 1;
                    return Err(e);
                },
            };
            proof {
                lemma_models_push(args@, arg);
            }
            args.push(arg);
            if self.current_is(')') {
                self.get_next_token();
                self.nesting_left = self.nesting_left + 1;
                return Ok(AstNode::Call(CallExprAST::new(id, args)));
            } else if self.current_is(',') {
                self.get_next_token();
            } else {
                self.nesting_left = self.nesting_left + 1;
                return Err(self.reject(ParseErrorKind::MalformedArgumentList));
            }
        }
    }

    /// An expression in parentheses, at the opening parenthesis that is the
    /// current token.
    fn parse_paren_expr(&mut self) -> (r: Result<AstNode, ParseError>)
        requires
            old(self).well_formed(),
            old(self).current() == Lexeme::Ascii('('),
        ensures
            outcome(r) == old(self).next_primary().result,
            final(self).follows(*old(self), old(self).next_primary().len),
        decreases remaining(old(self).tokens(), old(self).index()), 0int,
    {
        if self.nesting_left == 0 {
            return Err(ParseError { kind: ParseErrorKind::NestingTooDeep });
        }
        self.get_next_token();
        self.nesting_left = self.nesting_left - 1;
        let inner = self.parse_expression();
        self.nesting_left = self.nesting_left + 1;
        let inner = match inner {
            Ok(inner) => inner,
            Err(e) => {
                return Err(e);
            },
        };
        if self.current_is(')') {
            self.get_next_token();
            Ok(inner)
        } else {
            Err(self.reject(ParseErrorKind::MissingClosingParen))
        }
    }

    /// Parses a primary expression at the current token: a number, a
    /// variable, a call or an expression in parentheses.
    pub fn parse_primary(&mut self) -> (r: Result<AstNode, ParseError>)
        requires
            old(self).well_formed(),
        ensures
            outcome(r) == old(self).next_primary().result,
            final(self).follows(*old(self), old(self).next_primary().len),
        decreases remaining(old(self).tokens(), old(self).index()), 1int,
    {
        match &self.curr_token {
            Ok(Token::TokIdentifier(id)) => {
                let id = id.clone();
                self.parse_identifier_expr(id)
            },
            Ok(Token::TokNumber(num)) => {
                let num = num.clone();
                Ok(self.parse_num_expr(num))
            },
            Ok(Token::TokAscii(c)) => {
                if *c == '(' {
                    self.parse_paren_expr()
                } else {
                    Err(ParseError { kind: ParseErrorKind::FailedPrimary })
                }
            },
            Ok(_) => Err(ParseError { kind: ParseErrorKind::FailedPrimary }),
            Err(e) => Err(ParseError { kind: ParseErrorKind::Lexical(*e) }),
        }
    }

    /// Parses the operators and operands that follow the operand `lhs`, as
    /// far as the operators have a precedence of `min_precedence` or more.
    pub fn parse_binop_rhs(&mut self, min_precedence: i32, lhs: AstNode) -> (r: Result<
        AstNode,
        ParseError,
    >)
        requires
            old(self).well_formed(),
        ensures
            outcome(r) == old(self).next_operands(min_precedence as int, lhs@).result,
            final(self).follows(
                *old(self),
                old(self).next_operands(min_precedence as int, lhs@).len,
            ),
        decreases remaining(old(self).tokens(), old(self).index()), 2int,
    {
        let ghost toks = self.tokens();
        let ghost table = self.table();
        let ghost start = self.index();
        let ghost depth = self.depth();
        let ghost whole = binop_rhs(toks, table, min_precedence as int, lhs@, start, depth);
        let mut left = lhs;
        loop
            invariant
                self.well_formed(),
                self.tokens() == toks,
                self.table() == table,
                self.depth() == depth,
                depth == old(self).depth(),
                start <= self.index(),
                whole == binop_rhs(toks, table, min_precedence as int, lhs@, start, depth),
                whole.result == binop_rhs(
                    toks,
                    table,
                    min_precedence as int,
                    left@,
                    self.index(),
                    depth,
                ).result,
                whole.len == (self.index() - start) + binop_rhs(
                    toks,
                    table,
                    min_precedence as int,
                    left@,
                    self.index(),
                    depth,
                ).len,
                toks == old(self).tokens(),
                table == old(self).table(),
                start == old(self).index(),
            decreases remaining(toks, self.index()),
        {
            let (op, prec) = match self.current_operator() {
                Some(found) => found,
                None => {
                    return match self.after_operand() {
                        None => Ok(left),
                        Some(e) => Err(e),
                    };
                },
            };
            if prec < min_precedence {
                return Ok(left);
            }
            self.get_next_token();
            let first = match self.parse_primary() {
                Ok(first) => first,
                Err(e) => {
                    return Err(e);
                },
            };
            let rhs = if self.current_binds_tighter(prec) {
                if self.nesting_left == 0 {
                    return Err(ParseError { kind: ParseErrorKind::NestingTooDeep });
                }
                self.nesting_left = self.nesting_left - 1;
                let nested = self.parse_binop_rhs(prec + 1, first);
                self.nesting_left = self.nesting_left + 1;
                match nested {
                    Ok(rhs) => rhs,
                    Err(e) => {
                        return Err(e);
                    },
                }
            } else {
                first
            };
            left = AstNode::Binary(BinaryExprAST::new(op, Box::new(left), Box::new(rhs)));
        }
    }

    /// What the current token, which is no operator of the table, means
    /// after an operand: nothing where it ends the expression, else the
    /// failure.
    fn after_operand(&self) -> (r: Option<ParseError>)
        requires
            self.well_formed(),
        ensures
            match r {
                Some(e) => after_operand(self.current()) == Some(e.kind),
                None => after_operand(self.current()) is None,
            },
    {
        match &self.curr_token {
            Ok(Token::TokAscii(c)) => {
                if *c == ')' || *c == ',' {
                    None
                } else {
                    Some(ParseError { kind: ParseErrorKind::UnrecognizedOperator })
                }
            },
            Ok(_) => None,
            Err(e) => Some(ParseError { kind: ParseErrorKind::Lexical(*e) }),
        }
    }

    /// Parses an expression at the current token: a primary expression and
    /// the operators and operands that follow it.
    pub fn parse_expression(&mut self) -> (r: Result<AstNode, ParseError>)
        requires
            old(self).well_formed(),
        ensures
            outcome(r) == old(self).next_expression().result,
            final(self).follows(*old(self), old(self).next_expression().len),
        decreases remaining(old(self).tokens(), old(self).index()), 3int,
    {
        let lhs = match self.parse_primary() {
            Ok(lhs) => lhs,
            Err(e) => {
                return Err(e);
            },
        };
        self.parse_binop_rhs(i32::MIN, lhs)
    }

    /// Parses a signature at the current token: a name, then the names of
    /// the parameters in parentheses.
    pub fn parse_prototype(&mut self) -> (r: Result<PrototypeAST, ParseError>)
        requires
            old(self).well_formed(),
        ensures
            prototype_outcome(r) == old(self).next_prototype().result,
            final(self).follows(*old(self), old(self).next_prototype().len),
    {
        let ghost toks = self.tokens();
        let ghost start = self.index();
        let name = match &self.curr_token {
            Ok(Token::TokIdentifier(name)) => name.clone(),
            _ => {
                return Err(self.reject(ParseErrorKind::ExpectedFunctionName));
            },
        };
        self.get_next_token();
        if !self.current_is('(') {
            return Err(self.reject(ParseErrorKind::ExpectedParameterList));
        }
        self.get_next_token();
        let ghost whole = parameters(toks, start + 2, Seq::empty());
        let mut params: Vec<String> = Vec::new();
        assert(texts(params@) =~= Seq::empty());
        loop
            invariant
                self.well_formed(),
                self.tokens() == toks,
                self.table() == old(self).table(),
                self.depth() == old(self).depth(),
                start + 2 <= self.index(),
                whole == parameters(toks, start + 2, Seq::empty()),
                whole.result == parameters(toks, self.index(), texts(params@)).result,
                whole.len == (self.index() - (start + 2)) + parameters(
                    toks,
                    self.index(),
                    texts(params@),
                ).len,
                toks == old(self).tokens(),
                start == old(self).index(),
                token_at(toks, start) == Lexeme::Identifier(name@),
                token_at(toks, start + 1) == Lexeme::Ascii('('),
            decreases remaining(toks, self.index()),
        {
            let param = match &self.curr_token {
                Ok(Token::TokIdentifier(param)) => param.clone(),
                _ => {
                    if self.current_is(')') {
                        self.get_next_token();
                        return Ok(PrototypeAST::new(name, params));
                    } else {
                        return Err(self.reject(ParseErrorKind::UnclosedParameterList));
                    }
                },
            };
            proof {
                lemma_texts_push(params@, param);
            }
            params.push(param);
            self.get_next_token();
        }
    }

    /// A function definition, at the keyword that is the current token.
    fn parse_definition(&mut self) -> (r: Result<AstNode, ParseError>)
        requires
            old(self).well_formed(),
            old(self).current() is Def,
        ensures
            outcome(r) == old(self).next_definition().result,
            final(self).follows(*old(self), old(self).next_definition().len),
    {
        self.get_next_token();
        let proto = match self.parse_prototype() {
            Ok(proto) => proto,
            Err(e) => {
                return Err(e);
            },
        };
        match self.parse_expression() {
            Ok(body) => Ok(AstNode::Function(FunctionAST::new(Box::new(proto), Box::new(body)))),
            Err(e) => Err(e),
        }
    }

    /// The declaration of an outside function, at the keyword that is the
    /// current token.
    fn parse_extern(&mut self) -> (r: Result<AstNode, ParseError>)
        requires
            old(self).well_formed(),
            old(self).current() is Extern,
        ensures
            outcome(r) == old(self).next_declaration().result,
            final(self).follows(*old(self), old(self).next_declaration().len),
    {
        self.get_next_token();
        match self.parse_prototype() {
            Ok(proto) => Ok(AstNode::Prototype(proto)),
            Err(e) => Err(e),
        }
    }

    /// Parses an expression at top level, as the body of a function without
    /// a name and without parameters.
    pub fn parse_top_level_expr(&mut self) -> (r: Result<AstNode, ParseError>)
        requires
            old(self).well_formed(),
        ensures
            outcome(r) == old(self).next_top_level_expression().result,
            final(self).follows(*old(self), old(self).next_top_level_expression().len),
    {
        match self.parse_expression() {
            Ok(body) => {
                let params: Vec<String> = Vec::new();
                assert(texts(params@) =~= Seq::empty());
                let proto = PrototypeAST::new(String::new(), params);
                Ok(AstNode::Function(FunctionAST::new(Box::new(proto), Box::new(body))))
            },
            Err(e) => Err(e),
        }
    }

    /// Parses the form at top level that starts at the current token: a
    /// definition, a declaration or an expression. At the end of the input
    /// there is none.
    pub fn parse_top_level(&mut self) -> (r: Option<Result<AstNode, ParseError>>)
        requires
            old(self).well_formed(),
        ensures
            final(self).follows(*old(self), forms_len(old(self).next_top_level())),
            match old(self).next_top_level() {
                Some(form) => r is Some && outcome(r->Some_0) == form.result,
                None => r is None,
            },
    {
        match &self.curr_token {
            Ok(Token::TokEof) => None,
            Ok(Token::TokDef) => Some(self.parse_definition()),
            Ok(Token::TokExtern) => Some(self.parse_extern()),
            _ => Some(self.parse_top_level_expr()),
        }
    }

    /// Passes the tokens up to the next keyword that opens a form at top
    /// level, or up to the end of the input.
    pub fn resynchronize(&mut self)
        requires
            old(self).well_formed(),
        ensures
            final(self).well_formed(),
            final(self).tokens() == old(self).tokens(),
            final(self).table() == old(self).table(),
            final(self).depth() == old(self).depth(),
            final(self).index() == resume_at(old(self).tokens(), old(self).index()),
    {
        loop
            invariant
                self.well_formed(),
                self.tokens() == old(self).tokens(),
                self.table() == old(self).table(),
                self.depth() == old(self).depth(),
                resume_at(self.tokens(), self.index()) == resume_at(
                    old(self).tokens(),
                    old(self).index(),
                ),
            decreases remaining(self.tokens(), self.index()),
        {
            match &self.curr_token {
                Ok(Token::TokEof) | Ok(Token::TokDef) | Ok(Token::TokExtern) => {
                    return ;
                },
                _ => {},
            }
            self.get_next_token();
        }
    }
}

/// Parses every form at top level up to the end of the input, and returns
/// the tree or the failure of each, in order. After a failure the work is
/// taken up at the next keyword that opens a form.
pub fn main_loop(parser: &mut Parser) -> (forms: Vec<Result<AstNode, ParseError>>)
    requires
        old(parser).well_formed(),
    ensures
        final(parser).well_formed(),
        final(parser).tokens() == old(parser).tokens(),
        final(parser).table() == old(parser).table(),
        final(parser).depth() == old(parser).depth(),
        final(parser).current() is Eof,
        outcomes(forms@) == old(parser).rest_of_program(),
{
    let ghost toks = parser.tokens();
    let ghost table = parser.table();
    let ghost depth = parser.depth();
    let ghost whole = program(toks, table, parser.index(), depth);
    let mut forms: Vec<Result<AstNode, ParseError>> = Vec::new();
    assert(outcomes(forms@) + whole =~= whole);
    loop
        invariant
            parser.well_formed(),
            parser.tokens() == toks,
            parser.table() == table,
            parser.depth() == depth,
            depth == old(parser).depth(),
            toks == old(parser).tokens(),
            table == old(parser).table(),
            whole == program(toks, table, old(parser).index(), old(parser).depth()),
            whole == outcomes(forms@) + program(toks, table, parser.index(), depth),
        decreases remaining(toks, parser.index()),
    {
        let ghost before = parser.index();
        let ghost done = outcomes(forms@);
        match parser.parse_top_level() {
            None => {
                assert(done + Seq::empty() =~= done);
                return forms;
            },
            Some(form) => {
                proof {
                    lemma_top_level_progress(toks, table, before, depth);
                }
                if form.is_err() {
                    parser.resynchronize();
                }
                forms.push(form);
                proof {
                    let rest = program(toks, table, parser.index(), depth);
                    assert(outcomes(forms@) =~= done.push(outcome(form)));
                    assert(done + (seq![outcome(form)] + rest) =~= done.push(outcome(form)) + rest);
                }
            },
        }
    }
}

} // verus!
