use compiler_front::ast::{OpenFunction, SourceFile};
use compiler_front::ast_node::{
    BinaryOperator, Function, Literal, Namespace, Node, Operator, VarNode,
};
use compiler_front::compiler_error::CompilerError;
use compiler_front::data_type::{compile_native_types, LiteralKind, Type};
use compiler_front::line::Line;

fn stream(tokens: &[&str]) -> Vec<String> {
    tokens.iter().map(|t| t.to_string()).collect()
}

fn i64_type() -> Type {
    Type::new("i64".to_string(), 8, LiteralKind::Integer)
}

fn str_type() -> Type {
    Type::new("str".to_string(), 8, LiteralKind::Quoted)
}

fn binding(name: &str) -> VarNode {
    VarNode::new(i64_type(), name.to_string())
}

fn var(name: &str) -> Node {
    Node::Var(binding(name))
}

fn number(text: &str) -> Node {
    Node::Literal(Literal::new(i64_type(), text.to_string()))
}

fn op(operator: Operator, left: Node, right: Node) -> Node {
    Node::Binary(BinaryOperator::new(operator, left, right))
}

fn header(name: &str, params: &[&str]) -> Function {
    let mut f = Function::new(i64_type(), name.to_string());
    for p in params {
        f.add_param(binding(p), 0).unwrap();
    }
    f
}

/// A file that binds `x` at the top level, with `f ( a )` open and
/// `g ( b )` open inside it, as after a line at level 2.
fn two_open() -> SourceFile {
    let mut file = SourceFile::new();
    file.namespace.add_var(binding("x"), 1).unwrap();
    file.add_function(header("f", &["a"]));
    file.add_function(header("g", &["b"]));
    file.prev_indent = 2;
    file
}

#[test]
fn a_node_joins_the_innermost_open_body() {
    let mut file = SourceFile::new();
    file.add_node(number("1"));
    assert_eq!(file.body, vec![number("1")]);
    file.add_function(header("f", &[]));
    file.add_node(number("2"));
    file.add_node(number("3"));
    assert_eq!(file.body, vec![number("1")]);
    assert_eq!(file.open[0].body, vec![number("2"), number("3")]);
}

#[test]
fn opening_a_function_nests_its_scope() {
    let file = two_open();
    assert_eq!(file.open.len(), 2);
    assert_eq!(file.open[0].name, "f");
    assert_eq!(file.open[0].param_count, 1);
    assert_eq!(file.open[1].name, "g");
    assert_eq!(file.namespace.vars, vec![binding("b")]);
    let around = file.namespace.parent.as_ref().unwrap();
    assert_eq!(around.vars, vec![binding("a")]);
    let root = around.parent.as_ref().unwrap();
    assert_eq!(root.vars, vec![binding("x")]);
    assert!(root.parent.is_none());
    assert_eq!(file.namespace.get_var(&"x".to_string()), Some(binding("x")));
}

#[test]
fn opening_a_function_drops_what_enclosed_its_scope_before() {
    let mut stray = header("f", &["a"]);
    let mut elsewhere = Namespace::new();
    elsewhere.add_var(binding("zz"), 1).unwrap();
    stray.namespace.parent = Some(Box::new(elsewhere));
    let mut file = SourceFile::new();
    file.add_function(stray);
    assert_eq!(file.namespace.get_var(&"zz".to_string()), None);
    assert_eq!(file.namespace.get_var(&"a".to_string()), Some(binding("a")));
}

#[test]
fn closing_a_function_hands_it_to_the_body_around_it() {
    let mut file = two_open();
    file.namespace.add_var(binding("local"), 3).unwrap();
    file.add_node(var("b"));
    file.close_function();
    assert_eq!(file.open.len(), 1);
    assert_eq!(file.namespace.vars, vec![binding("a")]);
    assert_eq!(file.open[0].body.len(), 1);
    match &file.open[0].body[0] {
        Node::Function(g) => {
            assert_eq!(g.name, "g");
            assert_eq!(g.param_count, 1);
            assert_eq!(g.namespace.vars, vec![binding("b"), binding("local")]);
            assert!(g.namespace.parent.is_none());
            assert_eq!(g.body, vec![var("b")]);
        },
        other => panic!("no function: {:?}", other),
    }
    file.close_function();
    assert!(file.open.is_empty());
    assert_eq!(file.namespace.vars, vec![binding("x")]);
    assert!(file.namespace.parent.is_none());
    assert_eq!(file.body.len(), 1);
}

#[test]
fn a_line_leaves_one_scope_for_each_level_it_gives_up() {
    let name = "test".to_string();
    let tokens = stream(&["1"]);
    let at = |line_num: usize, indent: usize| Line {
        line_num,
        start: 0,
        end: 1,
        indent,
        file_name: &name,
        tokens: &tokens,
    };

    let mut file = two_open();
    assert_eq!(file.update_namespace(&at(5, 1)), Ok(()));
    assert_eq!(file.open.len(), 1);
    assert_eq!(file.prev_indent, 1);
    assert_eq!(file.namespace.vars, vec![binding("a")]);
    assert_eq!(file.open[0].body.len(), 1);

    assert_eq!(file.update_namespace(&at(6, 0)), Ok(()));
    assert!(file.open.is_empty());
    assert_eq!(file.prev_indent, 0);
    assert_eq!(file.namespace.vars, vec![binding("x")]);
    assert!(file.namespace.parent.is_none());
    assert_eq!(file.body.len(), 1);

    let mut file = two_open();
    assert_eq!(file.update_namespace(&at(7, 0)), Ok(()));
    assert!(file.open.is_empty());
    assert_eq!(file.namespace.vars, vec![binding("x")]);
    assert_eq!(file.body.len(), 1);
}

#[test]
fn a_line_as_deep_or_one_level_deeper_keeps_the_scope() {
    let name = "test".to_string();
    let tokens = stream(&["1"]);
    let at = |line_num: usize, indent: usize| Line {
        line_num,
        start: 0,
        end: 1,
        indent,
        file_name: &name,
        tokens: &tokens,
    };

    let mut file = two_open();
    assert_eq!(file.update_namespace(&at(5, 2)), Ok(()));
    assert_eq!(file.prev_indent, 2);
    let mut expected = two_open();
    assert_eq!(file, expected);

    assert_eq!(file.update_namespace(&at(6, 3)), Ok(()));
    expected.prev_indent = 3;
    assert_eq!(file, expected);

    let mut file = SourceFile::new();
    file.add_function(header("f", &["a"]));
    assert_eq!(file.update_namespace(&at(2, 0)), Ok(()));
    assert_eq!(file.open.len(), 1);
    assert_eq!(file.namespace.vars, vec![binding("a")]);
}

#[test]
fn a_line_that_gives_up_more_levels_than_scopes_are_open_is_refused() {
    let name = "test".to_string();
    let tokens = stream(&["1"]);
    let line = Line { line_num: 8, start: 0, end: 1, indent: 0, file_name: &name, tokens: &tokens };
    let mut file = two_open();
    file.prev_indent = 3;
    assert_eq!(file.update_namespace(&line), Err(CompilerError::IndentError(8)));
    let mut expected = two_open();
    expected.prev_indent = 3;
    assert_eq!(file, expected);
}

#[test]
fn a_line_more_than_one_level_deeper_is_refused() {
    let name = "test".to_string();
    let tokens = stream(&["zz", ")", "="]);
    let mut file = two_open();
    file.prev_indent = 1;
    let mut expected = two_open();
    expected.prev_indent = 1;
    let line = Line { line_num: 9, start: 0, end: 3, indent: 3, file_name: &name, tokens: &tokens };
    assert_eq!(file.update_namespace(&line), Err(CompilerError::IndentError(9)));
    assert_eq!(file, expected);
    assert_eq!(file.add_line(&line, &compile_native_types()), Err(CompilerError::IndentError(9)));
    assert_eq!(file, expected);
    let far = Line { line_num: 9, start: 0, end: 3, indent: usize::MAX, file_name: &name, tokens: &tokens };
    assert_eq!(file.update_namespace(&far), Err(CompilerError::IndentError(9)));
    assert_eq!(file, expected);
    file.prev_indent = usize::MAX;
    assert_eq!(file.update_namespace(&far), Ok(()));
}

#[test]
fn a_refused_statement_leaves_the_file_as_it_is() {
    let name = "test".to_string();
    let types = compile_native_types();
    let mut file = SourceFile::new();
    let tokens = stream(&["i64", "a", "=", "1"]);
    let line = Line { line_num: 1, start: 0, end: 4, indent: 0, file_name: &name, tokens: &tokens };
    assert_eq!(file.create_ast_node(&line, &types), Ok(()));
    let tokens = stream(&["a", "+", "\"x\""]);
    let line = Line { line_num: 2, start: 0, end: 3, indent: 0, file_name: &name, tokens: &tokens };
    assert_eq!(
        file.create_ast_node(&line, &types),
        Err(CompilerError::BinaryOperatorTypeError(
            2,
            "+".to_string(),
            "i64".to_string(),
            "str".to_string()
        ))
    );
    assert_eq!(file.namespace.vars, vec![binding("a")]);
    assert_eq!(file.body.len(), 1);
}

#[test]
fn a_refused_definition_leaves_the_file_as_it_is() {
    let name = "test".to_string();
    let types = compile_native_types();
    let mut file = SourceFile::new();
    let tokens = stream(&["i64", "x", "=", "1"]);
    let line = Line { line_num: 1, start: 0, end: 4, indent: 0, file_name: &name, tokens: &tokens };
    assert_eq!(file.create_ast_node(&line, &types), Ok(()));
    let before = vec![op(Operator::Assign, var("x"), number("1"))];

    let tokens = stream(&["i64", "x", "=", "2"]);
    let line = Line { line_num: 2, start: 0, end: 4, indent: 0, file_name: &name, tokens: &tokens };
    assert_eq!(
        file.create_ast_node(&line, &types),
        Err(CompilerError::SymbolAlreadyDefined(2, "x".to_string()))
    );
    assert_eq!(file.namespace.vars, vec![binding("x")]);
    assert_eq!(file.body, before);

    for refused in [
        vec!["i64", "y"],
        vec!["i64", "+", "=", "1"],
        vec!["i64", "y", ",", "1"],
        vec!["i64", "f", "(", "foo", "a", ")"],
        vec!["i64", "f", "(", "i64", "a", ",", "i64", "a", ")"],
    ] {
        let tokens = stream(&refused);
        let line = Line { line_num: 3, start: 0, end: tokens.len(), indent: 0, file_name: &name, tokens: &tokens };
        assert!(file.create_ast_node(&line, &types).is_err());
        assert_eq!(file.namespace.vars, vec![binding("x")]);
        assert!(file.namespace.parent.is_none());
        assert!(file.open.is_empty());
        assert_eq!(file.body, before);
    }
}

#[test]
fn a_value_that_fails_to_parse_leaves_the_name_bound() {
    let name = "test".to_string();
    let types = compile_native_types();
    let mut file = SourceFile::new();
    let tokens = stream(&["i64", "y", "=", "zz"]);
    let line = Line { line_num: 1, start: 0, end: 4, indent: 0, file_name: &name, tokens: &tokens };
    assert_eq!(
        file.create_ast_node(&line, &types),
        Err(CompilerError::InvalidSymbol(1, "zz".to_string()))
    );
    assert_eq!(file.namespace.vars, vec![binding("y")]);
    assert!(file.body.is_empty());
}

#[test]
fn a_variable_definition_binds_and_adds_a_node() {
    let name = "test".to_string();
    let types = compile_native_types();
    let tokens = stream(&["i64", "y", "=", "a", "+", "1"]);
    let line = Line { line_num: 4, start: 0, end: 6, indent: 1, file_name: &name, tokens: &tokens };
    let mut file = SourceFile::new();
    file.add_function(header("f", &["a"]));
    assert_eq!(file.var_def_node(&i64_type(), &line, &types), Ok(()));
    assert_eq!(file.namespace.vars, vec![binding("a"), binding("y")]);
    assert_eq!(
        file.open[0].body,
        vec![op(Operator::Assign, var("y"), op(Operator::Add, var("a"), number("1")))]
    );
    assert_eq!(
        file.var_def_node(&str_type(), &line, &types),
        Err(CompilerError::SymbolAlreadyDefined(4, "y".to_string()))
    );
}

#[test]
fn a_definition_is_a_variable_or_a_function() {
    let name = "test".to_string();
    let types = compile_native_types();
    let mut file = SourceFile::new();

    let tokens = stream(&["str", "s", "=", "\"a\""]);
    let line = Line { line_num: 1, start: 0, end: 4, indent: 0, file_name: &name, tokens: &tokens };
    assert_eq!(file.symbol_definition(&str_type(), &line, &types), Ok(()));
    assert_eq!(file.namespace.vars.len(), 1);
    assert_eq!(file.namespace.vars[0].data_type.name, "str");
    assert_eq!(file.body.len(), 1);

    let tokens = stream(&["str", "f", "(", "str", "p", ")"]);
    let line = Line { line_num: 2, start: 0, end: 6, indent: 0, file_name: &name, tokens: &tokens };
    assert_eq!(file.symbol_definition(&str_type(), &line, &types), Ok(()));
    assert_eq!(
        file.open,
        vec![OpenFunction {
            ret_type: str_type(),
            name: "f".to_string(),
            param_count: 1,
            body: vec![],
        }]
    );
    assert_eq!(file.namespace.vars.len(), 1);
    assert_eq!(file.namespace.vars[0].name, "p");

    let tokens = stream(&["str", "f", ",", "x"]);
    let line = Line { line_num: 3, start: 0, end: 4, indent: 0, file_name: &name, tokens: &tokens };
    assert_eq!(
        file.symbol_definition(&str_type(), &line, &types),
        Err(CompilerError::InvalidDefinition(3))
    );
}

#[test]
fn a_line_is_a_definition_only_if_it_starts_with_a_type() {
    let name = "test".to_string();
    let types = compile_native_types();
    let mut file = SourceFile::new();
    file.namespace.add_var(binding("i65"), 1).unwrap();
    let tokens = stream(&["i65", "+", "1"]);
    let line = Line { line_num: 2, start: 0, end: 3, indent: 0, file_name: &name, tokens: &tokens };
    assert_eq!(file.create_ast_node(&line, &types), Ok(()));
    assert_eq!(file.body, vec![op(Operator::Add, var("i65"), number("1"))]);
    let tokens = stream(&["i64", "+", "1"]);
    let line = Line { line_num: 3, start: 0, end: 3, indent: 0, file_name: &name, tokens: &tokens };
    assert_eq!(file.create_ast_node(&line, &types), Err(CompilerError::InvalidDefinition(3)));
}

#[test]
fn empty_parentheses_leave_the_function_as_it_is() {
    let name = "test".to_string();
    let types = compile_native_types();
    let tokens = stream(&["i64", "f", "(", ")"]);
    let line = Line { line_num: 2, start: 0, end: 4, indent: 0, file_name: &name, tokens: &tokens };
    let mut fresh = Function::new(i64_type(), "f".to_string());
    assert_eq!(fresh.parse_func_params(&line, &types), Ok(()));
    assert_eq!(fresh, Function::new(i64_type(), "f".to_string()));
    let mut f = header("f", &["first"]);
    assert_eq!(f.parse_func_params(&line, &types), Ok(()));
    assert_eq!(f, header("f", &["first"]));
}

#[test]
fn a_refused_parameter_adds_nothing() {
    let name = "test".to_string();
    let types = compile_native_types();
    let tokens = stream(&["i64", "f", "(", "foo", "a", ")"]);
    let line = Line { line_num: 4, start: 0, end: 6, indent: 0, file_name: &name, tokens: &tokens };
    let mut f = Function::new(i64_type(), "f".to_string());
    assert_eq!(
        f.parse_func_params(&line, &types),
        Err(CompilerError::UndefinedType(4, "foo".to_string()))
    );
    assert_eq!(f, Function::new(i64_type(), "f".to_string()));

    let tokens = stream(&["i64", "f", "(", "i64", "a", ",", "foo", "b", ")"]);
    let line = Line { line_num: 4, start: 0, end: 9, indent: 0, file_name: &name, tokens: &tokens };
    assert_eq!(
        f.parse_func_params(&line, &types),
        Err(CompilerError::UndefinedType(4, "foo".to_string()))
    );
    assert_eq!(f, header("f", &["a"]));
}

#[test]
fn parameters_are_read_after_what_is_bound_already() {
    let name = "test".to_string();
    let types = compile_native_types();
    let tokens = stream(&["i64", "f", "(", "i64", "a", ",", "str", "b", ")"]);
    let line = Line { line_num: 2, start: 0, end: 9, indent: 0, file_name: &name, tokens: &tokens };
    let mut f = header("f", &["first"]);
    assert_eq!(f.parse_func_params(&line, &types), Ok(()));
    assert_eq!(f.param_count, 3);
    assert_eq!(f.namespace.vars.len(), 3);
    assert_eq!(f.namespace.vars[2].data_type.name, "str");
    let mut g = header("g", &["b"]);
    assert_eq!(
        g.parse_func_params(&line, &types),
        Err(CompilerError::SymbolAlreadyDefined(2, "b".to_string()))
    );
    let made = Function::create_func_def_node(str_type(), &line, &types).unwrap();
    assert_eq!(made.ret_type.name, "str");
    assert_eq!(made.name, "f");
    assert_eq!(made.param_count, 2);
}
