use kaleidoscope::ast::{
    AstNode, BinaryExprAST, CallExprAST, FunctionAST, NumberExprAST, PrototypeAST, VariableExprAST,
};
use kaleidoscope::lexer::Lexer;
use kaleidoscope::parser::{
    main_loop, ParseError, ParseErrorKind, Parser, DEFAULT_NESTING_LIMIT,
};
use kaleidoscope::token::{LexError, Token};
use std::collections::HashMap;

fn table_of(entries: &[(char, i32)]) -> HashMap<u32, i32> {
    let mut table = HashMap::new();
    for (op, prec) in entries {
        table.insert(*op as u32, *prec);
    }
    table
}

fn usual_table() -> HashMap<u32, i32> {
    table_of(&[('<', 10), ('+', 20), ('-', 20), ('*', 40), ('/', 40)])
}

fn parser_with(text: &str, table: HashMap<u32, i32>) -> Parser {
    Parser::new(table, Lexer::new(text.as_bytes().to_vec()))
}

fn parser_over(text: &str) -> Parser {
    parser_with(text, usual_table())
}

fn num(text: &str) -> AstNode {
    AstNode::Number(NumberExprAST::new(text.to_string()))
}

fn var(name: &str) -> AstNode {
    AstNode::Variable(VariableExprAST::new(name.to_string()))
}

fn bin(op: char, lhs: AstNode, rhs: AstNode) -> AstNode {
    AstNode::Binary(BinaryExprAST::new(op, Box::new(lhs), Box::new(rhs)))
}

fn call(callee: &str, args: Vec<AstNode>) -> AstNode {
    AstNode::Call(CallExprAST::new(callee.to_string(), args))
}

fn proto(name: &str, params: &[&str]) -> PrototypeAST {
    PrototypeAST::new(name.to_string(), params.iter().map(|p| p.to_string()).collect())
}

fn function(name: &str, params: &[&str], body: AstNode) -> AstNode {
    AstNode::Function(FunctionAST::new(Box::new(proto(name, params)), Box::new(body)))
}

fn failure(kind: ParseErrorKind) -> ParseError {
    ParseError { kind }
}

fn declared() -> String {
    String::from_utf8(vec![b'e', b'x', b't', b'e', b'r', b'n']).unwrap()
}

#[test]
fn higher_precedence_binds_tighter() {
    let mut parser = parser_with("1 + 2 * 3", table_of(&[('+', 20), ('*', 40)]));
    assert_eq!(
        parser.parse_expression(),
        Ok(bin('+', num("1"), bin('*', num("2"), num("3"))))
    );
    assert_eq!(parser.current_token(), &Ok(Token::TokEof));
}

#[test]
fn precedence_is_taken_from_the_table() {
    // with the precedences exchanged the tree groups the other way
    let mut parser = parser_with("1 + 2 * 3", table_of(&[('+', 40), ('*', 20)]));
    assert_eq!(
        parser.parse_expression(),
        Ok(bin('*', bin('+', num("1"), num("2")), num("3")))
    );
}

#[test]
fn lower_precedence_behind_higher_groups_left() {
    let mut parser = parser_over("1 * 2 + 3");
    assert_eq!(
        parser.parse_expression(),
        Ok(bin('+', bin('*', num("1"), num("2")), num("3")))
    );
}

#[test]
fn equal_precedence_groups_left() {
    let mut parser = parser_with("1 - 2 - 3", table_of(&[('-', 20)]));
    assert_eq!(
        parser.parse_expression(),
        Ok(bin('-', bin('-', num("1"), num("2")), num("3")))
    );
}

#[test]
fn different_operators_of_equal_precedence_group_left() {
    let mut parser = parser_over("a - b + c - d");
    assert_eq!(
        parser.parse_expression(),
        Ok(bin('-', bin('+', bin('-', var("a"), var("b")), var("c")), var("d")))
    );
}

#[test]
fn mixed_precedences() {
    let mut parser = parser_over("a + b * c * d - e < f");
    assert_eq!(
        parser.parse_expression(),
        Ok(bin(
            '<',
            bin(
                '-',
                bin('+', var("a"), bin('*', bin('*', var("b"), var("c")), var("d"))),
                var("e")
            ),
            var("f")
        ))
    );
}

#[test]
fn rising_precedences_nest_to_the_right() {
    let mut parser = parser_over("a < b + c * d");
    assert_eq!(
        parser.parse_expression(),
        Ok(bin('<', var("a"), bin('+', var("b"), bin('*', var("c"), var("d")))))
    );
}

#[test]
fn highest_precedence_groups_left() {
    let mut parser = parser_with("1 ^ 2 ^ 3", table_of(&[('^', i32::MAX)]));
    assert_eq!(
        parser.parse_expression(),
        Ok(bin('^', bin('^', num("1"), num("2")), num("3")))
    );
}

#[test]
fn negative_precedences_are_precedences() {
    let mut parser = parser_with("1 + 2 * 3", table_of(&[('+', i32::MIN), ('*', -5)]));
    assert_eq!(
        parser.parse_expression(),
        Ok(bin('+', num("1"), bin('*', num("2"), num("3"))))
    );
}

#[test]
fn call_with_two_arguments() {
    let mut parser = parser_over("foo(1, 2)");
    assert_eq!(parser.parse_expression(), Ok(call("foo", vec![num("1"), num("2")])));
    assert_eq!(parser.current_token(), &Ok(Token::TokEof));
}

#[test]
fn name_alone_is_a_variable() {
    let mut parser = parser_over("foo");
    assert_eq!(parser.parse_expression(), Ok(var("foo")));
    assert_eq!(parser.current_token(), &Ok(Token::TokEof));
}

#[test]
fn call_without_arguments() {
    let mut parser = parser_over("foo()");
    assert_eq!(parser.parse_expression(), Ok(call("foo", vec![])));
    assert_eq!(parser.current_token(), &Ok(Token::TokEof));
}

#[test]
fn arguments_are_full_expressions() {
    let mut parser = parser_over("f(a + 1, g(b) * 2, (c))");
    assert_eq!(
        parser.parse_expression(),
        Ok(call(
            "f",
            vec![
                bin('+', var("a"), num("1")),
                bin('*', call("g", vec![var("b")]), num("2")),
                var("c")
            ]
        ))
    );
}

#[test]
fn comma_may_stand_before_the_closing_parenthesis() {
    let mut parser = parser_over("f(1, 2,)");
    assert_eq!(parser.parse_expression(), Ok(call("f", vec![num("1"), num("2")])));
}

#[test]
fn call_is_an_operand() {
    let mut parser = parser_over("f(1) + g(2) * 3");
    assert_eq!(
        parser.parse_expression(),
        Ok(bin('+', call("f", vec![num("1")]), bin('*', call("g", vec![num("2")]), num("3"))))
    );
}

#[test]
fn malformed_argument_list() {
    let mut parser = parser_over("foo(1 2)");
    let r = parser.parse_expression();
    assert_eq!(r, Err(failure(ParseErrorKind::MalformedArgumentList)));
    assert_eq!(r.unwrap_err().message(), "Expected ')' or ',' in argument list");
    assert_eq!(parser.current_token(), &Ok(Token::TokNumber("2".to_string())));
}

#[test]
fn argument_list_cut_short() {
    let mut parser = parser_over("foo(1");
    assert_eq!(parser.parse_expression(), Err(failure(ParseErrorKind::MalformedArgumentList)));
    let mut parser = parser_over("foo(");
    assert_eq!(parser.parse_expression(), Err(failure(ParseErrorKind::FailedPrimary)));
}

#[test]
fn parentheses_group() {
    let mut parser = parser_over("(1 + 2) * 3");
    assert_eq!(
        parser.parse_expression(),
        Ok(bin('*', bin('+', num("1"), num("2")), num("3")))
    );
    let mut parser = parser_over("1 - (2 - 3)");
    assert_eq!(
        parser.parse_expression(),
        Ok(bin('-', num("1"), bin('-', num("2"), num("3"))))
    );
    let mut parser = parser_over("((x))");
    assert_eq!(parser.parse_expression(), Ok(var("x")));
}

#[test]
fn missing_closing_parenthesis() {
    let mut parser = parser_over("(1 + 2");
    let r = parser.parse_expression();
    assert_eq!(r, Err(failure(ParseErrorKind::MissingClosingParen)));
    assert_eq!(r.unwrap_err().message(), "Expected ')'");
    // the parser stands at the end of the input and stays there
    assert_eq!(parser.current_token(), &Ok(Token::TokEof));
    assert_eq!(parser.parse_top_level(), None);
}

#[test]
fn missing_closing_parenthesis_before_another_token() {
    let mut parser = parser_over("(1 + 2 x");
    assert_eq!(parser.parse_expression(), Err(failure(ParseErrorKind::MissingClosingParen)));
    // the token that stands in the place of the parenthesis is not passed
    assert_eq!(parser.current_token(), &Ok(Token::TokIdentifier("x".to_string())));
}

#[test]
fn operator_outside_the_table() {
    let mut parser = parser_over("1 ^ 2");
    let r = parser.parse_expression();
    assert_eq!(r, Err(failure(ParseErrorKind::UnrecognizedOperator)));
    assert_eq!(r.unwrap_err().message(), "Unrecognized binary operator!");
    assert_eq!(parser.current_token(), &Ok(Token::TokAscii('^')));
}

#[test]
fn every_operator_is_outside_an_empty_table() {
    let mut parser = parser_with("1 + 2", HashMap::new());
    assert_eq!(parser.parse_expression(), Err(failure(ParseErrorKind::UnrecognizedOperator)));
    let mut parser = parser_with("f(1, (2))", HashMap::new());
    assert_eq!(parser.parse_expression(), Ok(call("f", vec![num("1"), num("2")])));
}

#[test]
fn operator_precedence_lookup() {
    let parser = parser_over("");
    assert_eq!(parser.get_operator_precedence('+'), Ok(20));
    assert_eq!(parser.get_operator_precedence('*'), Ok(40));
    assert_eq!(
        parser.get_operator_precedence('^'),
        Err(failure(ParseErrorKind::UnrecognizedOperator))
    );
}

#[test]
fn failed_primary() {
    for text in ["", ")", "+ 1", "def", ","] {
        let mut parser = parser_over(text);
        let r = parser.parse_primary();
        assert_eq!(r, Err(failure(ParseErrorKind::FailedPrimary)), "{:?}", text);
        assert_eq!(r.unwrap_err().message(), "Failed at primary expression!");
    }
    let mut parser = parser_over("1 + *");
    assert_eq!(parser.parse_expression(), Err(failure(ParseErrorKind::FailedPrimary)));
    assert_eq!(parser.current_token(), &Ok(Token::TokAscii('*')));
}

#[test]
fn primary_takes_one_operand() {
    let mut parser = parser_over("1 + 2");
    assert_eq!(parser.parse_primary(), Ok(num("1")));
    assert_eq!(parser.current_token(), &Ok(Token::TokAscii('+')));
    assert_eq!(parser.parse_binop_rhs(0, num("0")), Ok(bin('+', num("0"), num("2"))));
}

#[test]
fn operands_below_the_least_precedence_stay() {
    let mut parser = parser_over("+ 2 * 3 + 4");
    // only operators of a precedence of 30 or more are taken: none here
    assert_eq!(parser.parse_binop_rhs(30, num("1")), Ok(num("1")));
    assert_eq!(parser.current_token(), &Ok(Token::TokAscii('+')));
    let mut parser = parser_over("* 2 + 3");
    assert_eq!(parser.parse_binop_rhs(30, num("1")), Ok(bin('*', num("1"), num("2"))));
    assert_eq!(parser.current_token(), &Ok(Token::TokAscii('+')));
}

#[test]
fn number_is_kept_as_its_numeral() {
    let mut parser = parser_over("12.50");
    match parser.parse_expression() {
        Ok(AstNode::Number(n)) => {
            assert_eq!(n.0, "12.50");
            assert_eq!(n.0.parse::<f64>().unwrap(), 12.5);
        }
        other => panic!("no number: {:?}", other),
    }
}

#[test]
fn malformed_number_fails_the_expression() {
    let mut parser = parser_over("1.2.3 + 4");
    let r = parser.parse_expression();
    assert_eq!(r, Err(failure(ParseErrorKind::Lexical(LexError::MalformedNumber))));
    assert_eq!(r.unwrap_err().message(), "Malformed numeric literal");
    let mut parser = parser_over("4 + 1x");
    assert_eq!(
        parser.parse_expression(),
        Err(failure(ParseErrorKind::Lexical(LexError::UnexpectedCharacter)))
    );
    let mut parser = parser_over("4 1.2.3");
    assert_eq!(
        parser.parse_expression(),
        Err(failure(ParseErrorKind::Lexical(LexError::MalformedNumber)))
    );
    assert_eq!(parser.current_token(), &Err(LexError::MalformedNumber));
}

#[test]
fn expression_ends_before_what_is_no_operator() {
    let mut parser = parser_over("1 + 2 def");
    assert_eq!(parser.parse_expression(), Ok(bin('+', num("1"), num("2"))));
    assert_eq!(parser.current_token(), &Ok(Token::TokDef));
    let mut parser = parser_over("a b");
    assert_eq!(parser.parse_expression(), Ok(var("a")));
    assert_eq!(parser.current_token(), &Ok(Token::TokIdentifier("b".to_string())));
    let mut parser = parser_over("a)");
    assert_eq!(parser.parse_expression(), Ok(var("a")));
    assert_eq!(parser.current_token(), &Ok(Token::TokAscii(')')));
}

#[test]
fn get_next_token_passes_one_token() {
    let mut parser = parser_over("a 1");
    assert_eq!(parser.current_token(), &Ok(Token::TokIdentifier("a".to_string())));
    parser.get_next_token();
    assert_eq!(parser.current_token(), &Ok(Token::TokNumber("1".to_string())));
    parser.get_next_token();
    assert_eq!(parser.current_token(), &Ok(Token::TokEof));
    parser.get_next_token();
    assert_eq!(parser.current_token(), &Ok(Token::TokEof));
}

#[test]
fn parser_starts_where_the_lexer_stands() {
    let mut lexer = Lexer::new(b"skipped 1 + 2".to_vec());
    lexer.gettok().unwrap();
    let mut parser = Parser::new(usual_table(), lexer);
    assert_eq!(parser.parse_expression(), Ok(bin('+', num("1"), num("2"))));
}

#[test]
fn prototype_with_parameters() {
    let mut parser = parser_over("foo(x y z) rest");
    assert_eq!(parser.parse_prototype(), Ok(proto("foo", &["x", "y", "z"])));
    assert_eq!(parser.current_token(), &Ok(Token::TokIdentifier("rest".to_string())));
    let mut parser = parser_over("bar()");
    assert_eq!(parser.parse_prototype(), Ok(proto("bar", &[])));
}

#[test]
fn malformed_prototypes() {
    let mut parser = parser_over("(x)");
    let r = parser.parse_prototype();
    assert_eq!(r, Err(failure(ParseErrorKind::ExpectedFunctionName)));
    assert_eq!(r.unwrap_err().message(), "Expected function name in prototype");
    let mut parser = parser_over("foo x");
    let r = parser.parse_prototype();
    assert_eq!(r, Err(failure(ParseErrorKind::ExpectedParameterList)));
    assert_eq!(r.unwrap_err().message(), "Expected '(' in prototype");
    let mut parser = parser_over("foo(x, y)");
    let r = parser.parse_prototype();
    assert_eq!(r, Err(failure(ParseErrorKind::UnclosedParameterList)));
    assert_eq!(r.unwrap_err().message(), "Expected ')' in prototype");
    assert_eq!(parser.current_token(), &Ok(Token::TokAscii(',')));
    let mut parser = parser_over("foo(x");
    assert_eq!(parser.parse_prototype(), Err(failure(ParseErrorKind::UnclosedParameterList)));
    let mut parser = parser_over("foo(1.2.3)");
    assert_eq!(
        parser.parse_prototype(),
        Err(failure(ParseErrorKind::Lexical(LexError::MalformedNumber)))
    );
}

#[test]
fn definition() {
    let mut parser = parser_over("def add(a b) a + b * 2");
    assert_eq!(
        parser.parse_top_level(),
        Some(Ok(function("add", &["a", "b"], bin('+', var("a"), bin('*', var("b"), num("2"))))))
    );
    assert_eq!(parser.parse_top_level(), None);
}

#[test]
fn definition_without_body() {
    let mut parser = parser_over("def f(x)");
    assert_eq!(parser.parse_top_level(), Some(Err(failure(ParseErrorKind::FailedPrimary))));
    let mut parser = parser_over("def 1");
    assert_eq!(parser.parse_top_level(), Some(Err(failure(ParseErrorKind::ExpectedFunctionName))));
    assert_eq!(parser.current_token(), &Ok(Token::TokNumber("1".to_string())));
}

#[test]
fn declaration() {
    let text = format!("{} sin(x)", declared());
    let mut parser = parser_over(&text);
    assert_eq!(parser.parse_top_level(), Some(Ok(AstNode::Prototype(proto("sin", &["x"])))));
    assert_eq!(parser.parse_top_level(), None);
    let text = format!("{} sin x", declared());
    let mut parser = parser_over(&text);
    assert_eq!(parser.parse_top_level(), Some(Err(failure(ParseErrorKind::ExpectedParameterList))));
}

#[test]
fn expression_at_top_level_is_a_function_without_name() {
    let mut parser = parser_over("1 + x");
    assert_eq!(
        parser.parse_top_level(),
        Some(Ok(function("", &[], bin('+', num("1"), var("x")))))
    );
    assert_eq!(parser.parse_top_level(), None);
    let mut parser = parser_over("y");
    assert_eq!(parser.parse_top_level_expr(), Ok(function("", &[], var("y"))));
}

#[test]
fn nothing_at_top_level_of_an_empty_source() {
    for text in ["", "   ", "# comment\n", "# comment"] {
        let mut parser = parser_over(text);
        assert_eq!(parser.parse_top_level(), None, "{:?}", text);
        assert_eq!(parser.parse_top_level(), None, "{:?}", text);
    }
}

#[test]
fn resynchronize_stops_at_keywords() {
    let mut parser = parser_over(") ) 1 + def f() 1");
    parser.resynchronize();
    assert_eq!(parser.current_token(), &Ok(Token::TokDef));
    parser.resynchronize();
    assert_eq!(parser.current_token(), &Ok(Token::TokDef));
    let mut parser = parser_over("a b c");
    parser.resynchronize();
    assert_eq!(parser.current_token(), &Ok(Token::TokEof));
    let text = format!("x {} y", declared());
    let mut parser = parser_over(&text);
    parser.resynchronize();
    assert_eq!(parser.current_token(), &Ok(Token::TokExtern));
}

#[test]
fn main_loop_parses_every_form() {
    let text = format!(
        "# a small program\n{} sin(x)\ndef twice(x) x * 2\ntwice(sin(1)) + 3\n",
        declared()
    );
    let mut parser = parser_over(&text);
    assert_eq!(
        main_loop(&mut parser),
        vec![
            Ok(AstNode::Prototype(proto("sin", &["x"]))),
            Ok(function("twice", &["x"], bin('*', var("x"), num("2")))),
            Ok(function(
                "",
                &[],
                bin('+', call("twice", vec![call("sin", vec![num("1")])]), num("3"))
            )),
        ]
    );
    assert_eq!(parser.current_token(), &Ok(Token::TokEof));
    assert_eq!(main_loop(&mut parser), vec![]);
}

#[test]
fn main_loop_splits_expressions_that_follow_each_other() {
    let mut parser = parser_over("1 2 x");
    assert_eq!(
        main_loop(&mut parser),
        vec![
            Ok(function("", &[], num("1"))),
            Ok(function("", &[], num("2"))),
            Ok(function("", &[], var("x")))
        ]
    );
}

#[test]
fn main_loop_goes_on_behind_a_failure() {
    let mut parser = parser_over("1 + * 5 6 def f(x) x\n) ) )\ndef g( 1\n1.2.3\ndef h() 7 ^ 8");
    assert_eq!(
        main_loop(&mut parser),
        vec![
            Err(failure(ParseErrorKind::FailedPrimary)),
            Ok(function("f", &["x"], var("x"))),
            Err(failure(ParseErrorKind::FailedPrimary)),
            Err(failure(ParseErrorKind::UnclosedParameterList)),
            Err(failure(ParseErrorKind::UnrecognizedOperator)),
        ]
    );
    assert_eq!(parser.current_token(), &Ok(Token::TokEof));
}

#[test]
fn main_loop_reports_a_malformed_number_once() {
    let mut parser = parser_over("1.2.3");
    assert_eq!(
        main_loop(&mut parser),
        vec![Err(failure(ParseErrorKind::Lexical(LexError::MalformedNumber)))]
    );
}

#[test]
fn main_loop_over_an_empty_source() {
    let mut parser = parser_over("  # nothing here\n");
    assert_eq!(main_loop(&mut parser), vec![]);
}

fn parser_with_limit(text: &str, limit: usize) -> Parser {
    Parser::with_nesting_limit(usual_table(), Lexer::new(text.as_bytes().to_vec()), limit)
}

#[test]
fn nesting_up_to_the_limit_is_parsed() {
    assert_eq!(DEFAULT_NESTING_LIMIT, 256);
    let depth = DEFAULT_NESTING_LIMIT;
    let text = format!("{}x{}", "(".repeat(depth), ")".repeat(depth));
    let mut parser = parser_over(&text);
    assert_eq!(parser.parse_expression(), Ok(var("x")));
    assert_eq!(parser.current_token(), &Ok(Token::TokEof));
}

#[test]
fn nesting_beyond_the_limit_fails() {
    let depth = DEFAULT_NESTING_LIMIT + 1;
    let text = format!("{}x{}", "(".repeat(depth), ")".repeat(depth));
    let mut parser = parser_over(&text);
    let r = parser.parse_expression();
    assert_eq!(r, Err(failure(ParseErrorKind::NestingTooDeep)));
    assert_eq!(r.unwrap_err().message(), "Expression nested too deeply");
    // the parser stands at the parenthesis that is one too many
    assert_eq!(parser.current_token(), &Ok(Token::TokAscii('(')));
}

#[test]
fn very_deep_nesting_fails_without_harm() {
    let text = "(".repeat(1_000_000);
    let mut parser = parser_over(&text);
    assert_eq!(parser.parse_expression(), Err(failure(ParseErrorKind::NestingTooDeep)));
    let text = "f(".repeat(1_000_000);
    let mut parser = parser_over(&text);
    assert_eq!(parser.parse_expression(), Err(failure(ParseErrorKind::NestingTooDeep)));
}

#[test]
fn nesting_limit_counts_parentheses_and_calls() {
    let mut parser = parser_with_limit("(1)", 0);
    assert_eq!(parser.parse_expression(), Err(failure(ParseErrorKind::NestingTooDeep)));
    assert_eq!(parser.current_token(), &Ok(Token::TokAscii('(')));
    let mut parser = parser_with_limit("f(1)", 0);
    assert_eq!(parser.parse_expression(), Err(failure(ParseErrorKind::NestingTooDeep)));
    assert_eq!(parser.current_token(), &Ok(Token::TokAscii('(')));
    let mut parser = parser_with_limit("f()", 0);
    assert_eq!(parser.parse_expression(), Err(failure(ParseErrorKind::NestingTooDeep)));
    let mut parser = parser_with_limit("f", 0);
    assert_eq!(parser.parse_expression(), Ok(var("f")));
    let mut parser = parser_with_limit("(1) + f(2) - (3)", 1);
    assert_eq!(
        parser.parse_expression(),
        Ok(bin('-', bin('+', num("1"), call("f", vec![num("2")])), num("3")))
    );
    let mut parser = parser_with_limit("((1))", 1);
    assert_eq!(parser.parse_expression(), Err(failure(ParseErrorKind::NestingTooDeep)));
    let mut parser = parser_with_limit("f((1))", 1);
    assert_eq!(parser.parse_expression(), Err(failure(ParseErrorKind::NestingTooDeep)));
    let mut parser = parser_with_limit("(f(1))", 1);
    assert_eq!(parser.parse_expression(), Err(failure(ParseErrorKind::NestingTooDeep)));
    let mut parser = parser_with_limit("(f(1))", 2);
    assert_eq!(parser.parse_expression(), Ok(call("f", vec![num("1")])));
}

#[test]
fn nesting_limit_counts_rising_precedences() {
    let mut parser = parser_with_limit("x + 1 - y", 0);
    assert_eq!(parser.parse_expression(), Ok(bin('-', bin('+', var("x"), num("1")), var("y"))));
    let mut parser = parser_with_limit("x * 1 + y", 0);
    assert_eq!(parser.parse_expression(), Ok(bin('+', bin('*', var("x"), num("1")), var("y"))));
    let mut parser = parser_with_limit("x + 1 * y", 0);
    assert_eq!(parser.parse_expression(), Err(failure(ParseErrorKind::NestingTooDeep)));
    assert_eq!(parser.current_token(), &Ok(Token::TokAscii('*')));
    let mut parser = parser_with_limit("x + 1 * y", 1);
    assert_eq!(parser.parse_expression(), Ok(bin('+', var("x"), bin('*', num("1"), var("y")))));
    let mut parser = parser_with_limit("a < b + c * d", 1);
    assert_eq!(parser.parse_expression(), Err(failure(ParseErrorKind::NestingTooDeep)));
    let mut parser = parser_with_limit("a < b + c * d", 2);
    assert_eq!(
        parser.parse_expression(),
        Ok(bin('<', var("a"), bin('+', var("b"), bin('*', var("c"), var("d")))))
    );
    // the operand of the operator of the higher precedence lies one level deeper
    let mut parser = parser_with_limit("1 + 2 * (3)", 1);
    assert_eq!(parser.parse_expression(), Err(failure(ParseErrorKind::NestingTooDeep)));
    let mut parser = parser_with_limit("1 + 2 * (3)", 2);
    assert_eq!(parser.parse_expression(), Ok(bin('+', num("1"), bin('*', num("2"), num("3")))));
}

#[test]
fn nesting_limit_holds_again_behind_a_failure() {
    let text = "((1)) def f() (2 def g() (3) def h() k(4 5) def i() (6)";
    let mut parser = parser_with_limit(text, 1);
    assert_eq!(
        main_loop(&mut parser),
        vec![
            Err(failure(ParseErrorKind::NestingTooDeep)),
            Err(failure(ParseErrorKind::MissingClosingParen)),
            Ok(function("g", &[], num("3"))),
            Err(failure(ParseErrorKind::MalformedArgumentList)),
            Ok(function("i", &[], num("6"))),
        ]
    );
}

#[test]
fn parse_error_messages() {
    for (kind, message) in [
        (ParseErrorKind::UnrecognizedOperator, "Unrecognized binary operator!"),
        (ParseErrorKind::MalformedArgumentList, "Expected ')' or ',' in argument list"),
        (ParseErrorKind::MissingClosingParen, "Expected ')'"),
        (ParseErrorKind::FailedPrimary, "Failed at primary expression!"),
        (ParseErrorKind::ExpectedFunctionName, "Expected function name in prototype"),
        (ParseErrorKind::ExpectedParameterList, "Expected '(' in prototype"),
        (ParseErrorKind::UnclosedParameterList, "Expected ')' in prototype"),
        (ParseErrorKind::NestingTooDeep, "Expression nested too deeply"),
        (ParseErrorKind::Lexical(LexError::MalformedNumber), "Malformed numeric literal"),
        (
            ParseErrorKind::Lexical(LexError::UnexpectedCharacter),
            "Unexpected character in numeric literal",
        ),
    ] {
        assert_eq!(failure(kind).message(), message);
        assert_eq!(failure(kind).to_text(), format!("Parse error: {}", message));
    }
}

#[test]
fn constructors_keep_their_arguments() {
    assert_eq!(NumberExprAST::new("1.5".to_string()).0, "1.5");
    assert_eq!(VariableExprAST::new("x".to_string()).0, "x");
    let b = BinaryExprAST::new('+', Box::new(num("1")), Box::new(var("x")));
    assert_eq!(b.operator, '+');
    assert_eq!(*b.lhs_operand, num("1"));
    assert_eq!(*b.rhs_operand, var("x"));
    let c = CallExprAST::new("f".to_string(), vec![num("1"), var("y")]);
    assert_eq!(c.callee, "f");
    assert_eq!(c.args, vec![num("1"), var("y")]);
    let p = PrototypeAST::new("g".to_string(), vec!["a".to_string(), "b".to_string()]);
    assert_eq!(p.name, "g");
    assert_eq!(p.args, vec!["a".to_string(), "b".to_string()]);
    let f = FunctionAST::new(Box::new(proto("h", &["x"])), Box::new(var("x")));
    assert_eq!(*f.proto, proto("h", &["x"]));
    assert_eq!(*f.body, var("x"));
}
