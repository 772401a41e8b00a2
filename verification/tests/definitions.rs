use compiler_front::ast::{generate_ast, OpenFunction, SourceFile};
use compiler_front::ast_node::{
    BinaryOperator, Function, Literal, Namespace, Node, Operator, VarNode,
};
use compiler_front::compiler_error::CompilerError;
use compiler_front::data_type::{compile_native_types, LiteralKind, Type};
use compiler_front::function_node::{
    assert_correct_delimiter, assert_has_min_tokens, assert_unique_var, assert_valid_type,
    MIN_DEF_TOKENS, PARAM_START_INDEX,
};
use compiler_front::line::Line;
use compiler_front::tokenizer::tokenize;

fn stream(tokens: &[&str]) -> Vec<String> {
    tokens.iter().map(|t| t.to_string()).collect()
}

fn i64_type() -> Type {
    Type::new("i64".to_string(), 8, LiteralKind::Integer)
}

fn str_type() -> Type {
    Type::new("str".to_string(), 8, LiteralKind::Quoted)
}

fn binding(name: &str) -> VarNode {
    VarNode::new(i64_type(), name.to_string())
}

fn text_binding(name: &str) -> VarNode {
    VarNode::new(str_type(), name.to_string())
}

fn var(name: &str) -> Node {
    Node::Var(binding(name))
}

fn number(text: &str) -> Node {
    Node::Literal(Literal::new(i64_type(), text.to_string()))
}

fn quoted(text: &str) -> Node {
    Node::Literal(Literal::new(str_type(), text.to_string()))
}

fn op(operator: Operator, left: Node, right: Node) -> Node {
    Node::Binary(BinaryOperator::new(operator, left, right))
}

fn define(name: &str, value: Node) -> Node {
    op(Operator::Assign, var(name), value)
}

fn function(name: &str, params: &[&str], locals: &[&str], body: Vec<Node>) -> Node {
    let mut f = Function::new(i64_type(), name.to_string());
    for p in params {
        f.add_param(binding(p), 0).unwrap();
    }
    for l in locals {
        f.add_var(binding(l), 0).unwrap();
    }
    f.body = body;
    Node::Function(f)
}

fn parse(source: &str) -> Result<SourceFile, CompilerError> {
    let tokens = tokenize(source).unwrap();
    generate_ast(&"test".to_string(), &tokens, &compile_native_types())
}

fn header(tokens: &[&str]) -> Result<Option<Function>, CompilerError> {
    let name = "test".to_string();
    let tokens = stream(tokens);
    let line = Line { line_num: 3, start: 0, end: tokens.len(), indent: 0, file_name: &name, tokens: &tokens };
    Function::from(&line, &compile_native_types())
}

#[test]
fn an_empty_file_is_an_empty_tree() {
    let file = parse("").unwrap();
    assert!(file.body.is_empty());
    assert!(file.open.is_empty());
    assert!(file.namespace.vars.is_empty());
    assert!(file.namespace.parent.is_none());
    assert_eq!(file, SourceFile::new());
    assert_eq!(parse("\n\n\n").unwrap(), SourceFile::new());
}

#[test]
fn two_definitions_yield_two_bindings() {
    let file = parse("i64 x = 1\ni64 y = x + 2\n").unwrap();
    assert_eq!(file.namespace.vars, vec![binding("x"), binding("y")]);
    assert_eq!(file.body.len(), 2);
    assert_eq!(file.body[0], define("x", number("1")));
    assert_eq!(file.body[1], define("y", op(Operator::Add, var("x"), number("2"))));
    match &file.body[1] {
        Node::Binary(definition) => {
            assert_eq!(definition.op, Operator::Assign);
            assert_eq!(definition.data_type.name, "i64");
            match &*definition.right {
                Node::Binary(initializer) => {
                    assert_eq!(initializer.op, Operator::Add);
                    assert_eq!(initializer.data_type.name, "i64");
                    assert_eq!(*initializer.left, var("x"));
                    assert_eq!(*initializer.right, number("2"));
                },
                other => panic!("no operation: {:?}", other),
            }
        },
        other => panic!("no definition: {:?}", other),
    }
}

#[test]
fn a_function_with_a_body_resolves_its_parameters() {
    let file = parse("i64 f ( i64 a , i64 b )\n    i64 c = a + b\n").unwrap();
    assert!(file.open.is_empty());
    assert!(file.namespace.vars.is_empty());
    assert_eq!(file.body.len(), 1);
    match &file.body[0] {
        Node::Function(f) => {
            assert_eq!(f.name, "f");
            assert_eq!(f.ret_type.name, "i64");
            assert_eq!(f.param_count, 2);
            assert_eq!(f.namespace.vars, vec![binding("a"), binding("b"), binding("c")]);
            assert!(f.namespace.parent.is_none());
            assert_eq!(f.body, vec![define("c", op(Operator::Add, var("a"), var("b")))]);
        },
        other => panic!("no function: {:?}", other),
    }
}

#[test]
fn expressions_follow_precedence_in_a_file() {
    let file = parse("i64 a = 1\ni64 b = 2\ni64 c = 3\na + b * c\na - b - c\n").unwrap();
    assert_eq!(
        file.body[3],
        op(Operator::Add, var("a"), op(Operator::Mul, var("b"), var("c")))
    );
    assert_eq!(
        file.body[4],
        op(Operator::Sub, op(Operator::Sub, var("a"), var("b")), var("c"))
    );
}

#[test]
fn adding_a_string_to_an_integer_is_a_type_error() {
    assert_eq!(
        parse("i64 a = 1\na + \"x\"\n"),
        Err(CompilerError::BinaryOperatorTypeError(
            2,
            "+".to_string(),
            "i64".to_string(),
            "str".to_string()
        ))
    );
}

#[test]
fn a_line_two_levels_deeper_is_an_indent_error() {
    assert_eq!(parse("i64 a = 1\n        a\n"), Err(CompilerError::IndentError(2)));
    assert_eq!(parse("i64 a = 1\n        ) ) )\n"), Err(CompilerError::IndentError(2)));
    assert_eq!(parse("i64 a = 1\n\t\ti64 a = 1\n"), Err(CompilerError::IndentError(2)));
    assert_eq!(
        parse("i64 f ( )\n    i64 a = 1\n            zz\n"),
        Err(CompilerError::IndentError(3))
    );
    assert_eq!(parse("\n        i64 a = 1\n"), Err(CompilerError::IndentError(2)));
}

#[test]
fn a_width_that_is_no_whole_level_is_an_indent_error() {
    assert_eq!(parse("i64 a = 1\n  a\n"), Err(CompilerError::IndentError(2)));
    assert_eq!(parse("i64 a = 1\na\n   \n"), Err(CompilerError::IndentError(3)));
}

#[test]
fn the_first_error_in_line_order_wins() {
    assert_eq!(
        parse("zz\n  a\n"),
        Err(CompilerError::InvalidSymbol(1, "zz".to_string()))
    );
}

#[test]
fn blank_lines_count_but_change_nothing() {
    let file = parse("i64 f ( )\n\n    i64 a = 1\n\n\n    a\n").unwrap();
    assert_eq!(file.body, vec![function("f", &[], &["a"], vec![define("a", number("1")), var("a")])]);
    assert_eq!(
        parse("\n\ni64 a = zz\n"),
        Err(CompilerError::InvalidSymbol(3, "zz".to_string()))
    );
}

#[test]
fn a_dedent_returns_to_the_enclosing_scope() {
    let file = parse("i64 x = 1\ni64 f ( i64 a )\n    i64 y = a + x\ni64 z = x\n").unwrap();
    assert_eq!(file.namespace.vars, vec![binding("x"), binding("z")]);
    assert_eq!(
        file.body,
        vec![
            define("x", number("1")),
            function("f", &["a"], &["y"], vec![define("y", op(Operator::Add, var("a"), var("x")))]),
            define("z", var("x")),
        ]
    );
}

#[test]
fn names_of_a_function_are_gone_after_it() {
    assert_eq!(
        parse("i64 f ( i64 a )\n    i64 y = a\ny\n"),
        Err(CompilerError::InvalidSymbol(3, "y".to_string()))
    );
    assert_eq!(
        parse("i64 f ( i64 a )\n    i64 y = a\na\n"),
        Err(CompilerError::InvalidSymbol(3, "a".to_string()))
    );
}

#[test]
fn a_nested_name_may_shadow_an_outer_one() {
    let file = parse("i64 x = 1\ni64 f ( str x )\n    x + \"a\"\nx + 1\n").unwrap();
    assert_eq!(file.body.len(), 3);
    match &file.body[1] {
        Node::Function(f) => {
            assert_eq!(f.namespace.vars, vec![text_binding("x")]);
            assert_eq!(
                f.body,
                vec![op(Operator::Add, Node::Var(text_binding("x")), quoted("\"a\""))]
            );
        },
        other => panic!("no function: {:?}", other),
    }
    assert_eq!(file.body[2], op(Operator::Add, var("x"), number("1")));
}

#[test]
fn defining_a_name_twice_at_one_level_fails() {
    assert_eq!(
        parse("i64 x = 1\ni64 x = 2\n"),
        Err(CompilerError::SymbolAlreadyDefined(2, "x".to_string()))
    );
    assert_eq!(
        parse("i64 f ( i64 a )\n    i64 a = 2\n"),
        Err(CompilerError::SymbolAlreadyDefined(2, "a".to_string()))
    );
    assert!(parse("i64 x = 1\ni64 f ( )\n    i64 x = 2\n").is_ok());
}

#[test]
fn functions_nest() {
    let file = parse(
        "i64 f ( i64 a )\n    i64 g ( i64 b )\n        i64 c = a + b\n    i64 d = a\ni64 e = 1\n",
    )
    .unwrap();
    assert_eq!(
        file.body,
        vec![
            function(
                "f",
                &["a"],
                &["d"],
                vec![
                    function(
                        "g",
                        &["b"],
                        &["c"],
                        vec![define("c", op(Operator::Add, var("a"), var("b")))]
                    ),
                    define("d", var("a")),
                ]
            ),
            define("e", number("1")),
        ]
    );
}

#[test]
fn a_dedent_of_two_levels_closes_two_functions() {
    let file = parse("i64 f ( )\n    i64 g ( )\n        i64 c = 1\ni64 e = 1\n").unwrap();
    assert_eq!(
        file.body,
        vec![
            function("f", &[], &[], vec![function("g", &[], &["c"], vec![define("c", number("1"))])]),
            define("e", number("1")),
        ]
    );
    assert_eq!(file.namespace.vars, vec![binding("e")]);
}

#[test]
fn functions_left_open_are_closed_at_the_end() {
    let file = parse("i64 f ( )\n    i64 g ( )\n        1\n").unwrap();
    assert!(file.open.is_empty());
    assert_eq!(
        file.body,
        vec![function("f", &[], &[], vec![function("g", &[], &[], vec![number("1")])])]
    );
}

#[test]
fn a_line_as_deep_as_a_header_keeps_the_scope_of_the_function() {
    let file = parse("i64 f ( i64 a )\ni64 x = a\n").unwrap();
    assert_eq!(file.body, vec![function("f", &["a"], &["x"], vec![define("x", var("a"))])]);
    assert!(file.namespace.vars.is_empty());
    let file = parse("i64 f ( )\ni64 g ( )\n").unwrap();
    assert_eq!(
        file.body,
        vec![function("f", &[], &[], vec![function("g", &[], &[], vec![])])]
    );
}

#[test]
fn a_header_with_empty_parentheses_has_no_parameters() {
    let file = parse("i64 f ( )\n    1\n").unwrap();
    assert_eq!(file.body, vec![function("f", &[], &[], vec![number("1")])]);
}

#[test]
fn a_deeper_line_without_a_header_keeps_its_scope() {
    let file = parse("i64 x = 1\n    i64 y = x\n    x + y\n").unwrap();
    assert_eq!(file.namespace.vars, vec![binding("x"), binding("y")]);
    assert_eq!(file.body.len(), 3);
}

#[test]
fn giving_up_more_levels_than_scopes_were_entered_is_an_indent_error() {
    assert_eq!(
        parse("i64 x = 1\n    i64 y = x\nx + y\n"),
        Err(CompilerError::IndentError(3))
    );
    assert_eq!(
        parse("i64 f ( )\n    1\n        2\n3\n"),
        Err(CompilerError::IndentError(4))
    );
}

#[test]
fn one_scope_is_left_for_each_level_given_up() {
    let file = parse("i64 f ( )\n    i64 g ( )\n        1\n    2\n3\n").unwrap();
    assert_eq!(
        file.body,
        vec![
            function("f", &[], &[], vec![function("g", &[], &[], vec![number("1")]), number("2")]),
            number("3"),
        ]
    );
    let file = parse("i64 f ( )\n    i64 g ( )\n    1\n2\n").unwrap();
    assert_eq!(
        file.body,
        vec![function(
            "f",
            &[],
            &[],
            vec![function("g", &[], &[], vec![number("1")]), number("2")]
        )]
    );
}

#[test]
fn the_value_of_a_definition_may_be_of_any_type() {
    let file = parse("str s = \"a\"\ni64 n = \"b\"\n").unwrap();
    assert_eq!(file.namespace.vars[0], text_binding("s"));
    assert_eq!(file.namespace.vars[1], binding("n"));
    assert_eq!(file.body[1], define("n", quoted("\"b\"")));
}

#[test]
fn a_definition_sees_its_own_name() {
    let file = parse("i64 x = x + 1\n").unwrap();
    assert_eq!(file.body, vec![define("x", op(Operator::Add, var("x"), number("1")))]);
}

#[test]
fn a_truncated_definition_is_invalid() {
    assert_eq!(parse("i64\n"), Err(CompilerError::InvalidDefinition(1)));
    assert_eq!(parse("i64 x\n"), Err(CompilerError::InvalidDefinition(1)));
    assert_eq!(parse("i64 x =\n"), Err(CompilerError::InvalidDefinition(1)));
    assert_eq!(parse("1\nstr f (\n"), Err(CompilerError::InvalidDefinition(2)));
}

#[test]
fn a_definition_needs_an_equals_sign_or_a_parenthesis() {
    assert_eq!(parse("i64 x + 1\n"), Err(CompilerError::InvalidDefinition(1)));
    assert_eq!(parse("i64 x , y z\n"), Err(CompilerError::InvalidDefinition(1)));
}

#[test]
fn the_name_of_a_definition_must_be_a_symbol() {
    assert_eq!(parse("i64 + = 1\n"), Err(CompilerError::InvalidSymbol(1, "+".to_string())));
    assert_eq!(
        parse("i64 \"x\" = 1\n"),
        Err(CompilerError::InvalidSymbol(1, "\"x\"".to_string()))
    );
    assert_eq!(parse("i64 ( ) )\n"), Err(CompilerError::InvalidSymbol(1, "(".to_string())));
}

#[test]
fn the_value_of_a_definition_must_be_an_expression() {
    assert_eq!(parse("i64 x = +\n"), Err(CompilerError::InvalidSymbol(1, "+".to_string())));
    assert_eq!(parse("i64 x = 1 +\n"), Err(CompilerError::InvalidExpression(1)));
    assert_eq!(parse("i64 x = ( 1\n"), Err(CompilerError::MismatchedParentheses(1)));
    assert_eq!(
        parse("i64 x = zz\n"),
        Err(CompilerError::InvalidSymbol(1, "zz".to_string()))
    );
}

#[test]
fn assignments_are_statements() {
    let file = parse("i64 x = 1\nx = x + 1\n").unwrap();
    assert_eq!(file.body[1], define("x", op(Operator::Add, var("x"), number("1"))));
    assert_eq!(parse("i64 x = 1\nx + 1 = 2\n"), Err(CompilerError::InvalidAssignment(2)));
    assert_eq!(parse("y = 2\n"), Err(CompilerError::InvalidSymbol(1, "y".to_string())));
}

#[test]
fn a_header_declares_its_parameters() {
    let f = header(&["i64", "f", "(", "i64", "a", ",", "str", "b", ")"]).unwrap().unwrap();
    assert_eq!(f.name, "f");
    assert_eq!(f.ret_type.name, "i64");
    assert_eq!(f.param_count, 2);
    assert_eq!(f.namespace.vars, vec![binding("a"), text_binding("b")]);
    assert!(f.body.is_empty());
    let g = header(&["str", "g", "(", ")"]).unwrap().unwrap();
    assert_eq!(g.ret_type.name, "str");
    assert_eq!(g.param_count, 0);
    assert!(g.namespace.vars.is_empty());
    let h = header(&["str", "h", "(", "i64", "only", ")"]).unwrap().unwrap();
    assert_eq!(h.param_count, 1);
    assert_eq!(h.namespace.vars, vec![binding("only")]);
}

#[test]
fn a_line_that_starts_with_no_type_is_no_header() {
    assert_eq!(header(&["a", "+", "b", "+", "c"]), Ok(None));
    assert_eq!(header(&["f", "g", "(", ")"]), Ok(None));
}

#[test]
fn a_header_has_at_least_four_tokens() {
    assert_eq!(header(&["i64", "f", "("]), Err(CompilerError::InvalidDefinition(3)));
    assert_eq!(header(&["a"]), Err(CompilerError::InvalidDefinition(3)));
    assert_eq!(header(&[]), Err(CompilerError::InvalidDefinition(3)));
}

#[test]
fn a_header_needs_a_name_and_a_parenthesis() {
    assert_eq!(
        header(&["i64", "-", "(", ")"]),
        Err(CompilerError::InvalidSymbol(3, "-".to_string()))
    );
    assert_eq!(header(&["i64", "f", "=", "1"]), Err(CompilerError::InvalidDefinition(3)));
}

#[test]
fn a_parameter_list_that_breaks_off_is_invalid() {
    assert_eq!(header(&["i64", "f", "(", "i64"]), Err(CompilerError::InvalidDefinition(3)));
    assert_eq!(header(&["i64", "f", "(", "i64", "a"]), Err(CompilerError::InvalidDefinition(3)));
    assert_eq!(
        header(&["i64", "f", "(", "i64", "a", ",", "i64"]),
        Err(CompilerError::InvalidDefinition(3))
    );
    assert_eq!(header(&["i64", "f", "(", ")", "a"]), Err(CompilerError::InvalidDefinition(3)));
    assert_eq!(header(&["i64", "f", "(", "i64", "a", ",", ")"]), Err(CompilerError::InvalidDefinition(3)));
    assert_eq!(parse("i64 f ( i64 a , str\n"), Err(CompilerError::InvalidDefinition(1)));
}

#[test]
fn a_parameter_of_an_unregistered_type_is_an_undefined_type() {
    assert_eq!(
        header(&["i64", "f", "(", "u8", "a", ")"]),
        Err(CompilerError::UndefinedType(3, "u8".to_string()))
    );
    assert_eq!(
        header(&["i64", "f", "(", "i64", "a", ",", "a", "b", ")"]),
        Err(CompilerError::UndefinedType(3, "a".to_string()))
    );
    assert_eq!(
        parse("i64 f ( foo a )\n"),
        Err(CompilerError::UndefinedType(1, "foo".to_string()))
    );
}

#[test]
fn a_parameter_name_must_be_a_symbol() {
    assert_eq!(
        header(&["i64", "f", "(", "i64", "+", ")"]),
        Err(CompilerError::InvalidSymbol(3, "+".to_string()))
    );
    assert_eq!(
        header(&["i64", "f", "(", "i64", ",", ")"]),
        Err(CompilerError::InvalidSymbol(3, ",".to_string()))
    );
}

#[test]
fn a_wrong_delimiter_is_an_unexpected_token() {
    assert_eq!(
        header(&["i64", "f", "(", "i64", "a", "i64", "b", ")", ")"]),
        Err(CompilerError::UnexpectedToken(3, "i64".to_string()))
    );
    assert_eq!(
        header(&["i64", "f", "(", "i64", "a", ","]),
        Err(CompilerError::UnexpectedToken(3, ",".to_string()))
    );
    assert_eq!(
        header(&["i64", "f", "(", "i64", "a", ")", "i64", "b", ")"]),
        Err(CompilerError::UnexpectedToken(3, ")".to_string()))
    );
    assert_eq!(
        parse("i64 f ( i64 a = i64 b )\n"),
        Err(CompilerError::UnexpectedToken(1, "=".to_string()))
    );
}

#[test]
fn two_parameters_of_one_name_fail() {
    assert_eq!(
        header(&["i64", "f", "(", "i64", "a", ",", "str", "a", ")"]),
        Err(CompilerError::SymbolAlreadyDefined(3, "a".to_string()))
    );
}

#[test]
fn the_checks_of_a_header_one_by_one() {
    assert_eq!(MIN_DEF_TOKENS, 4);
    assert_eq!(PARAM_START_INDEX, 3);
    let name = "test".to_string();
    let tokens = stream(&["i64", "a", ",", "i64", "b", ")"]);
    let line = Line { line_num: 6, start: 0, end: 6, indent: 0, file_name: &name, tokens: &tokens };
    assert_eq!(assert_has_min_tokens(6, &line), Ok(()));
    assert_eq!(assert_has_min_tokens(7, &line), Err(CompilerError::InvalidDefinition(6)));
    assert_eq!(assert_correct_delimiter(2, &line), Ok(()));
    assert_eq!(assert_correct_delimiter(5, &line), Ok(()));
    assert_eq!(
        assert_correct_delimiter(1, &line),
        Err(CompilerError::UnexpectedToken(6, "a".to_string()))
    );
    let wrong_end = stream(&["i64", "a", ","]);
    let short = Line { line_num: 6, start: 0, end: 3, indent: 0, file_name: &name, tokens: &wrong_end };
    assert_eq!(
        assert_correct_delimiter(2, &short),
        Err(CompilerError::UnexpectedToken(6, ",".to_string()))
    );
    let wanted = "u8".to_string();
    let int = i64_type();
    assert_eq!(assert_valid_type(&wanted, Some(&int), &line), Ok(&int));
    assert_eq!(
        assert_valid_type(&wanted, None, &line),
        Err(CompilerError::UndefinedType(6, "u8".to_string()))
    );
    let mut ns = Namespace::new();
    ns.add_var(binding("a"), 1).unwrap();
    assert_eq!(assert_unique_var(&"b".to_string(), &line, &ns), Ok(()));
    assert_eq!(
        assert_unique_var(&"a".to_string(), &line, &ns),
        Err(CompilerError::SymbolAlreadyDefined(6, "a".to_string()))
    );
}

#[test]
fn a_file_is_built_line_by_line() {
    let name = "test".to_string();
    let types = compile_native_types();
    let mut file = SourceFile::new();
    let header = stream(&["i64", "f", "(", "i64", "a", ")"]);
    let line = Line { line_num: 1, start: 1, end: 7, indent: 0, file_name: &name, tokens: &header };
    assert_eq!(file.add_line(&line, &types), Ok(()));
    assert_eq!(file.open.len(), 1);
    assert_eq!(
        file.open[0],
        OpenFunction {
            ret_type: i64_type(),
            name: "f".to_string(),
            param_count: 1,
            body: vec![],
        }
    );
    assert_eq!(file.namespace.vars, vec![binding("a")]);
    assert!(file.namespace.parent.is_some());
    assert_eq!(file.prev_indent, 0);

    let body = stream(&["a", "*", "2"]);
    let line = Line { line_num: 2, start: 8, end: 11, indent: 1, file_name: &name, tokens: &body };
    assert_eq!(file.add_line(&line, &types), Ok(()));
    assert_eq!(file.open[0].body, vec![op(Operator::Mul, var("a"), number("2"))]);
    assert_eq!(file.prev_indent, 1);
    assert!(file.body.is_empty());

    file.finish();
    assert!(file.open.is_empty());
    assert!(file.namespace.parent.is_none());
    assert_eq!(
        file.body,
        vec![function("f", &["a"], &[], vec![op(Operator::Mul, var("a"), number("2"))])]
    );
}
