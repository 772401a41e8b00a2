//! The driver: reads a token stream line by line, opens and closes scopes
//! as the indentation asks, and builds the tree of definitions and statements.

use vstd::prelude::*;
use crate::ast_node::{
    all_well_formed, binding_from, lemma_binding_from_exists, lemma_lookup_is_resolve,
    lemma_tree_of_well_typed, names_unique, trees, BinaryOperator, Function, Namespace, Node,
    Operator, Tree, VarNode,
};
use crate::compiler_error::CompilerError;
use crate::data_type::{find_type, type_named, Type};
use crate::expression::{
    expression_node, expression_of, is_char_token, lemma_statement_well_typed, statement_node,
    statement_of, token_is,
};
use crate::function_node::{assert_has_min_tokens, lemma_params_unique, params_of, MIN_DEF_TOKENS};
use crate::line::{cut_after, lemma_next_newline_bounds, Cut, Line, LineIterator};
use crate::tokenizer::{assert_valid_symbol, is_valid_symbol};

verus! {

/// A function whose body is still being read.
#[derive(Debug, PartialEq)]
pub struct OpenFunction {
    pub ret_type: Type,
    pub name: String,
    pub param_count: usize,
    pub body: Vec<Node>,
}

/// A source file on its way to a tree: the scope that is active with the
/// scopes around it, the functions that are open, outermost first, and the
/// nodes of the top level.
#[derive(Debug, PartialEq)]
pub struct SourceFile {
    pub namespace: Namespace,
    pub open: Vec<OpenFunction>,
    pub body: Vec<Node>,
    pub prev_indent: usize,
}

/// An open function as a mathematical value.
pub struct Frame {
    pub ret_type: Type,
    pub name: String,
    pub param_count: nat,
    pub body: Seq<Tree>,
}

/// A file being read as a mathematical value: the chain of scopes,
/// innermost first, the open functions, outermost first, the trees of the
/// top level and the indentation of the last line read.
pub struct Progress {
    pub scopes: Seq<Seq<VarNode>>,
    pub frames: Seq<Frame>,
    pub body: Seq<Tree>,
    pub prev_indent: nat,
}

/// What a step of the reading comes to: the file after it, and the error
/// that ended it, if one did.
pub struct Outcome {
    pub after: Progress,
    pub error: Option<CompilerError>,
}

impl Outcome {
    /// What the step reports to its caller.
    pub open spec fn reported(self) -> Result<(), CompilerError> {
        match self.error {
            None => Ok(()),
            Some(e) => Err(e),
        }
    }
}

/// A step that went through and left the file as `after`.
pub open spec fn passed(after: Progress) -> Outcome {
    Outcome { after, error: None }
}

/// A step that `error` ended, leaving the file as `after`.
pub open spec fn failed(after: Progress, error: CompilerError) -> Outcome {
    Outcome { after, error: Some(error) }
}

impl OpenFunction {
    /// The open function as a mathematical value.
    pub open spec fn frame(&self) -> Frame {
        Frame {
            ret_type: self.ret_type,
            name: self.name,
            param_count: self.param_count as nat,
            body: trees(self.body@),
        }
    }
}

/// The open functions as mathematical values.
pub open spec fn frames_of(open: Seq<OpenFunction>) -> Seq<Frame> {
    Seq::new(open.len(), |i: int| open[i].frame())
}

/// Nothing read yet: the scope of the file, empty, and no line before.
pub open spec fn start_of_file() -> Progress {
    Progress {
        scopes: seq![Seq::<VarNode>::empty()],
        frames: Seq::empty(),
        body: Seq::empty(),
        prev_indent: 0,
    }
}

/// The progress with `tree` added at the end of the innermost open body.
pub open spec fn append(p: Progress, tree: Tree) -> Progress {
    if p.frames.len() > 0 {
        let last = p.frames.last();
        Progress {
            frames: p.frames.drop_last().push(Frame { body: last.body.push(tree), ..last }),
            ..p
        }
    } else {
        Progress { body: p.body.push(tree), ..p }
    }
}

/// The progress with the innermost open function closed: the function,
/// with the bindings of the innermost scope as a scope of its own, joins
/// the body around it, and the scope around it becomes the innermost.
pub open spec fn close_one(p: Progress) -> Progress {
    let last = p.frames.last();
    append(
        Progress { scopes: p.scopes.drop_first(), frames: p.frames.drop_last(), ..p },
        Tree::Function {
            ret_type: last.ret_type,
            name: last.name,
            param_count: last.param_count,
            vars: p.scopes[0],
            enclosing: None,
            body: last.body,
        },
    )
}

/// The progress with the `count` innermost open functions closed.
pub open spec fn close_times(p: Progress, count: nat) -> Progress
    decreases count,
{
    if count == 0 || p.frames.len() == 0 {
        p
    } else {
        close_times(close_one(p), (count - 1) as nat)
    }
}

/// How many levels of indentation a line gives up against the line before it.
pub open spec fn levels_up(prev_indent: nat, indent: nat) -> nat {
    if indent < prev_indent {
        (prev_indent - indent) as nat
    } else {
        0
    }
}

/// The step that takes in the indentation of a line. A line may lie at
/// most one level deeper than the line before it. For every level that it
/// gives up, the scope around the active one becomes the active one; a
/// line as deep as the line before it, or one level deeper, keeps the
/// active scope. A line that gives up more levels than there are scopes
/// to leave is refused like one that lies too deep. A refused line leaves
/// the file as it is.
pub open spec fn indent_step(p: Progress, line_num: usize, indent: nat) -> Outcome {
    if indent > p.prev_indent + 1 || levels_up(p.prev_indent, indent) > p.frames.len() {
        failed(p, CompilerError::IndentError(line_num))
    } else {
        passed(
            Progress { prev_indent: indent, ..close_times(p, levels_up(p.prev_indent, indent)) },
        )
    }
}

/// The step of a variable definition `<type> <name> = <expr>`: the name
/// is bound in the innermost scope, unless it is bound there already, and
/// the value is parsed with the new binding in scope. If the value fails
/// to parse, the name stays bound and no node is added.
pub open spec fn var_def_step(
    p: Progress,
    toks: Seq<String>,
    line_num: usize,
    types: Seq<Type>,
    data_type: Type,
) -> Outcome {
    if binding_from(p.scopes[0], toks[1]@, 0).is_some() {
        failed(p, CompilerError::SymbolAlreadyDefined(line_num, toks[1]))
    } else {
        let var = VarNode { data_type, name: toks[1] };
        let bound = Progress { scopes: p.scopes.update(0, p.scopes[0].push(var)), ..p };
        match expression_of(toks, line_num, types, bound.scopes, 3, toks.len() as int) {
            Err(e) => failed(bound, e),
            Ok(value) => passed(
                append(
                    bound,
                    Tree::Binary {
                        data_type,
                        op: Operator::Assign,
                        left: Box::new(Tree::Var(var)),
                        right: Box::new(value.tree()),
                    },
                ),
            ),
        }
    }
}

/// The step of a function header: the function is open, and its
/// parameters are the innermost scope. A header that is refused leaves
/// the file as it is.
pub open spec fn fn_def_step(
    p: Progress,
    toks: Seq<String>,
    line_num: usize,
    types: Seq<Type>,
    ret_type: Type,
) -> Outcome {
    match params_of(toks, line_num, types) {
        Err(e) => failed(p, e),
        Ok(params) => passed(
            Progress {
                scopes: seq![params] + p.scopes,
                frames: p.frames.push(
                    Frame {
                        ret_type,
                        name: toks[1],
                        param_count: params.len(),
                        body: Seq::empty(),
                    },
                ),
                ..p
            },
        ),
    }
}

/// The step of a line that starts with the registered type `data_type`:
/// a variable if `=` follows the name, a function if `(` does.
pub open spec fn definition_step(
    p: Progress,
    toks: Seq<String>,
    line_num: usize,
    types: Seq<Type>,
    data_type: Type,
) -> Outcome {
    if toks.len() < 4 {
        failed(p, CompilerError::InvalidDefinition(line_num))
    } else if !is_valid_symbol(toks[1]@) {
        failed(p, CompilerError::InvalidSymbol(line_num, toks[1]))
    } else if is_char_token(toks[2]@, '=') {
        var_def_step(p, toks, line_num, types, data_type)
    } else if is_char_token(toks[2]@, '(') {
        fn_def_step(p, toks, line_num, types, data_type)
    } else {
        failed(p, CompilerError::InvalidDefinition(line_num))
    }
}

/// The step of a line in the scope that is active: a definition if the
/// line starts with a registered type, else a statement. A statement that
/// is refused leaves the file as it is.
pub open spec fn node_step(
    p: Progress,
    toks: Seq<String>,
    line_num: usize,
    types: Seq<Type>,
) -> Outcome {
    match type_named(types, toks[0]@) {
        Some(data_type) => definition_step(p, toks, line_num, types, data_type),
        None => match statement_of(toks, line_num, types, p.scopes) {
            Ok(node) => passed(append(p, node.tree())),
            Err(e) => failed(p, e),
        },
    }
}

/// The step of one line that is not blank: its indentation, then what it holds.
pub open spec fn line_step(
    p: Progress,
    toks: Seq<String>,
    line_num: usize,
    indent: nat,
    types: Seq<Type>,
) -> Outcome {
    let entered = indent_step(p, line_num, indent);
    if entered.error.is_some() {
        entered
    } else {
        node_step(entered.after, toks, line_num, types)
    }
}

/// The progress at the end of the file: every open function is closed.
pub open spec fn end_of_file(p: Progress) -> Progress {
    close_times(p, p.frames.len())
}

/// The progress after the lines that follow the newline marker at index
/// `at` of the token stream, of which `line_num` lines lie before it.
/// Blank lines leave the progress as it is; the first error ends the reading.
pub open spec fn run_from(
    p: Progress,
    tokens: Seq<String>,
    at: int,
    line_num: int,
    types: Seq<Type>,
) -> Result<Progress, CompilerError>
    decreases tokens.len() - at,
    via run_from_decreases
{
    match cut_after(tokens, at) {
        Cut::Exhausted => Ok(p),
        Cut::BadIndent => Err(CompilerError::IndentError((line_num + 1) as usize)),
        Cut::Line { start, end, indent } => if start == end {
            run_from(p, tokens, end, line_num + 1, types)
        } else {
            let step = line_step(
                p,
                tokens.subrange(start, end),
                (line_num + 1) as usize,
                indent,
                types,
            );
            match step.error {
                None => run_from(step.after, tokens, end, line_num + 1, types),
                Some(e) => Err(e),
            }
        },
    }
}

#[via_fn]
proof fn run_from_decreases(
    p: Progress,
    tokens: Seq<String>,
    at: int,
    line_num: int,
    types: Seq<Type>,
) {
    if at >= 0 {
        lemma_next_newline_bounds(tokens, at + 1);
    }
}

/// What a whole token stream comes to: the progress at the end of the file.
pub open spec fn parse_of(tokens: Seq<String>, types: Seq<Type>) -> Result<Progress, CompilerError> {
    match run_from(start_of_file(), tokens, 0, 0, types) {
        Ok(p) => Ok(end_of_file(p)),
        Err(e) => Err(e),
    }
}

/// A line more than one level deeper than the line before it is an
/// indentation error, whatever it holds, and leaves the file as it is.
pub proof fn lemma_deep_line_refused(
    p: Progress,
    toks: Seq<String>,
    line_num: usize,
    indent: nat,
    types: Seq<Type>,
)
    requires
        indent > p.prev_indent + 1,
    ensures
        line_step(p, toks, line_num, indent, types) == failed(
            p,
            CompilerError::IndentError(line_num),
        ),
{
}

/// Closing functions leaves as many scopes as it closes functions,
/// innermost first, and touches no other scope.
pub proof fn lemma_close_times_scopes(p: Progress, count: nat)
    requires
        count <= p.frames.len(),
        p.scopes.len() == p.frames.len() + 1,
    ensures
        close_times(p, count).scopes == p.scopes.subrange(count as int, p.scopes.len() as int),
        close_times(p, count).frames.len() == p.frames.len() - count,
        close_times(p, count).prev_indent == p.prev_indent,
    decreases count,
{
    if count == 0 || p.frames.len() == 0 {
        assert(p.scopes.subrange(0, p.scopes.len() as int) =~= p.scopes);
    } else {
        let q = close_one(p);
        lemma_close_times_scopes(q, (count - 1) as nat);
        assert(q.scopes.subrange(count - 1, q.scopes.len() as int) =~= p.scopes.subrange(
            count as int,
            p.scopes.len() as int,
        ));
    }
}

/// A line that is accepted leaves one scope for every level of
/// indentation that it gives up: the active scope afterwards is the
/// scope that many levels out. A line as deep as the line before it, or
/// one level deeper, keeps the active scope, and no scope gains or loses
/// a binding.
pub proof fn lemma_indent_step_scopes(p: Progress, line_num: usize, indent: nat)
    requires
        p.scopes.len() == p.frames.len() + 1,
        indent_step(p, line_num, indent).error.is_none(),
    ensures
        indent_step(p, line_num, indent).after.scopes == p.scopes.subrange(
            levels_up(p.prev_indent, indent) as int,
            p.scopes.len() as int,
        ),
        indent >= p.prev_indent ==> indent_step(p, line_num, indent).after == (Progress {
            prev_indent: indent,
            ..p
        }),
{
    lemma_close_times_scopes(p, levels_up(p.prev_indent, indent));
}

impl Progress {
    /// What holds of a file at every point of the reading: each open
    /// function has its scope in the chain, no scope binds a name twice,
    /// the parameters of an open function are among the bindings of its
    /// scope, and every tree built so far is well formed.
    pub open spec fn consistent(self) -> bool {
        &&& self.scopes.len() == self.frames.len() + 1
        &&& forall|i: int| 0 <= i < self.scopes.len() ==> names_unique(#[trigger] self.scopes[i])
        &&& all_well_formed(self.body)
        &&& forall|i: int|
            0 <= i < self.frames.len() ==> all_well_formed((#[trigger] self.frames[i]).body)
        &&& forall|i: int|
            0 <= i < self.frames.len() ==> (#[trigger] self.frames[i]).param_count
                <= self.scopes[self.frames.len() - 1 - i].len()
    }
}

/// Adding a well-formed tree keeps a file consistent.
pub proof fn lemma_append_consistent(p: Progress, tree: Tree)
    requires
        p.consistent(),
        tree.well_formed(),
    ensures
        append(p, tree).consistent(),
        append(p, tree).frames.len() == p.frames.len(),
{
    let q = append(p, tree);
    if p.frames.len() > 0 {
        let n = p.frames.len() - 1;
        assert forall|i: int| 0 <= i < q.frames.len() implies all_well_formed(
            (#[trigger] q.frames[i]).body,
        ) && q.frames[i].param_count <= q.scopes[q.frames.len() - 1 - i].len() by {
            if i < n {
                assert(q.frames[i] == p.frames[i]);
            } else {
                assert(q.frames[i].body == p.frames[n].body.push(tree));
                assert(q.frames[i].param_count == p.frames[n].param_count);
            }
        }
    }
}

/// Closing the innermost open function keeps a file consistent.
pub proof fn lemma_close_one_consistent(p: Progress)
    requires
        p.consistent(),
        p.frames.len() > 0,
    ensures
        close_one(p).consistent(),
        close_one(p).frames.len() == p.frames.len() - 1,
{
    let last = p.frames.last();
    let inner = Progress { scopes: p.scopes.drop_first(), frames: p.frames.drop_last(), ..p };
    let tree = Tree::Function {
        ret_type: last.ret_type,
        name: last.name,
        param_count: last.param_count,
        vars: p.scopes[0],
        enclosing: None,
        body: last.body,
    };
    assert(inner.consistent()) by {
        assert forall|i: int| 0 <= i < inner.scopes.len() implies names_unique(
            #[trigger] inner.scopes[i],
        ) by {
            assert(inner.scopes[i] == p.scopes[i + 1]);
        }
        assert forall|i: int| 0 <= i < inner.frames.len() implies all_well_formed(
            (#[trigger] inner.frames[i]).body,
        ) && inner.frames[i].param_count <= inner.scopes[inner.frames.len() - 1 - i].len() by {
            assert(inner.frames[i] == p.frames[i]);
            assert(inner.scopes[inner.frames.len() - 1 - i] == p.scopes[p.frames.len() - 1 - i]);
        }
    }
    assert(tree.well_formed()) by {
        assert(p.frames[p.frames.len() - 1] == last);
    }
    lemma_append_consistent(inner, tree);
}

/// Closing open functions keeps a file consistent.
pub proof fn lemma_close_times_consistent(p: Progress, count: nat)
    requires
        p.consistent(),
    ensures
        close_times(p, count).consistent(),
        count >= p.frames.len() ==> close_times(p, count).frames.len() == 0,
    decreases count,
{
    if count > 0 && p.frames.len() > 0 {
        lemma_close_one_consistent(p);
        lemma_close_times_consistent(close_one(p), (count - 1) as nat);
    }
}

/// A line keeps a file consistent, whether it is accepted or refused.
pub proof fn lemma_line_step_consistent(
    p: Progress,
    toks: Seq<String>,
    line_num: usize,
    indent: nat,
    types: Seq<Type>,
)
    requires
        p.consistent(),
    ensures
        line_step(p, toks, line_num, indent, types).after.consistent(),
{
    let entered = indent_step(p, line_num, indent);
    if entered.error.is_none() {
        lemma_close_times_consistent(p, levels_up(p.prev_indent, indent));
        let q = entered.after;
        assert(q.consistent());
        match type_named(types, toks[0]@) {
            Some(data_type) => {
                if toks.len() >= 4 && is_valid_symbol(toks[1]@) {
                    if is_char_token(toks[2]@, '=') {
                        lemma_var_def_consistent(q, toks, line_num, types, data_type);
                    } else if is_char_token(toks[2]@, '(') {
                        lemma_fn_def_consistent(q, toks, line_num, types, data_type);
                    }
                }
            },
            None => {
                lemma_statement_well_typed(toks, line_num, types, q.scopes, 0, 0);
                match statement_of(toks, line_num, types, q.scopes) {
                    Ok(node) => {
                        lemma_tree_of_well_typed(node);
                        lemma_append_consistent(q, node.tree());
                    },
                    Err(_) => {},
                }
            },
        }
    }
}

proof fn lemma_var_def_consistent(
    p: Progress,
    toks: Seq<String>,
    line_num: usize,
    types: Seq<Type>,
    data_type: Type,
)
    requires
        p.consistent(),
    ensures
        var_def_step(p, toks, line_num, types, data_type).after.consistent(),
{
    if binding_from(p.scopes[0], toks[1]@, 0).is_none() {
        let var = VarNode { data_type, name: toks[1] };
        let scopes = p.scopes.update(0, p.scopes[0].push(var));
        let bound = Progress { scopes, ..p };
        lemma_binding_from_exists(p.scopes[0], toks[1]@, 0);
        assert(names_unique(p.scopes[0]));
        assert(names_unique(p.scopes[0].push(var)));
        assert(bound.consistent()) by {
            assert forall|i: int| 0 <= i < bound.scopes.len() implies names_unique(
                #[trigger] bound.scopes[i],
            ) by {
                if i > 0 {
                    assert(bound.scopes[i] == p.scopes[i]);
                }
            }
            assert forall|i: int| 0 <= i < bound.frames.len() implies (
            #[trigger] bound.frames[i]).param_count <= bound.scopes[bound.frames.len() - 1
                - i].len() by {
                assert(p.frames[i].param_count <= p.scopes[p.frames.len() - 1 - i].len());
            }
        }
        lemma_statement_well_typed(toks, line_num, types, scopes, 3, toks.len() as int);
        match expression_of(toks, line_num, types, scopes, 3, toks.len() as int) {
            Ok(value) => {
                lemma_tree_of_well_typed(value);
                let tree = Tree::Binary {
                    data_type,
                    op: Operator::Assign,
                    left: Box::new(Tree::Var(var)),
                    right: Box::new(value.tree()),
                };
                assert(Tree::Var(var).well_formed());
                assert(tree.well_formed());
                lemma_append_consistent(bound, tree);
            },
            Err(_) => {},
        }
    }
}

proof fn lemma_fn_def_consistent(
    p: Progress,
    toks: Seq<String>,
    line_num: usize,
    types: Seq<Type>,
    ret_type: Type,
)
    requires
        p.consistent(),
    ensures
        fn_def_step(p, toks, line_num, types, ret_type).after.consistent(),
{
    lemma_params_unique(toks, line_num, types);
    match params_of(toks, line_num, types) {
        Ok(params) => {
            let q = fn_def_step(p, toks, line_num, types, ret_type).after;
            assert forall|i: int| 0 <= i < q.scopes.len() implies names_unique(
                #[trigger] q.scopes[i],
            ) by {
                if i > 0 {
                    assert(q.scopes[i] == p.scopes[i - 1]);
                }
            }
            assert forall|i: int| 0 <= i < q.frames.len() implies all_well_formed(
                (#[trigger] q.frames[i]).body,
            ) && q.frames[i].param_count <= q.scopes[q.frames.len() - 1 - i].len() by {
                if i < p.frames.len() {
                    assert(q.frames[i] == p.frames[i]);
                    assert(q.scopes[q.frames.len() - 1 - i] == p.scopes[p.frames.len() - 1 - i]);
                } else {
                    assert(q.scopes[0] == params);
                }
            }
        },
        Err(_) => {},
    }
}

/// Reading the rest of a stream keeps a file consistent.
pub proof fn lemma_run_from_consistent(
    p: Progress,
    tokens: Seq<String>,
    at: int,
    line_num: int,
    types: Seq<Type>,
)
    requires
        p.consistent(),
    ensures
        run_from(p, tokens, at, line_num, types) matches Ok(q) ==> q.consistent(),
    decreases tokens.len() - at,
{
    if at >= 0 {
        lemma_next_newline_bounds(tokens, at + 1);
    }
    match cut_after(tokens, at) {
        Cut::Line { start, end, indent } => {
            if start == end {
                lemma_run_from_consistent(p, tokens, end, line_num + 1, types);
            } else {
                let toks = tokens.subrange(start, end);
                lemma_line_step_consistent(p, toks, (line_num + 1) as usize, indent, types);
                let step = line_step(p, toks, (line_num + 1) as usize, indent, types);
                if step.error.is_none() {
                    lemma_run_from_consistent(step.after, tokens, end, line_num + 1, types);
                }
            }
        },
        _ => {},
    }
}

/// What a whole token stream comes to is consistent, with no function
/// left open: every tree is well formed, every function in it owns a
/// scope of one level, and no scope binds a name twice.
pub proof fn lemma_parse_of_consistent(tokens: Seq<String>, types: Seq<Type>)
    ensures
        parse_of(tokens, types) matches Ok(p) ==> p.consistent() && p.frames.len() == 0
            && p.scopes.len() == 1,
{
    assert(start_of_file().consistent());
    lemma_run_from_consistent(start_of_file(), tokens, 0, 0, types);
    match run_from(start_of_file(), tokens, 0, 0, types) {
        Ok(p) => {
            lemma_close_times_consistent(p, p.frames.len());
        },
        Err(_) => {},
    }
}

impl View for SourceFile {
    type V = Progress;

    open spec fn view(&self) -> Progress {
        Progress {
            scopes: self.namespace.chain(),
            frames: frames_of(self.open@),
            body: trees(self.body@),
            prev_indent: self.prev_indent as nat,
        }
    }
}

proof fn lemma_trees_push(nodes: Seq<Node>, node: Node)
    ensures
        trees(nodes.push(node)) == trees(nodes).push(node.tree()),
{
    assert(trees(nodes.push(node)) =~= trees(nodes).push(node.tree()));
}

proof fn lemma_chain_after_bind(before: Namespace, after: Namespace, var: VarNode)
    requires
        after.vars@ == before.vars@.push(var),
        after.parent == before.parent,
    ensures
        after.chain() == before.chain().update(0, before.chain()[0].push(var)),
        before.chain()[0] == before.vars@,
{
    assert(after.chain() =~= before.chain().update(0, before.chain()[0].push(var)));
}

proof fn lemma_function_tree(f: Function)
    ensures
        Node::Function(f).tree() == (Tree::Function {
            ret_type: f.ret_type,
            name: f.name,
            param_count: f.param_count as nat,
            vars: f.namespace.vars@,
            enclosing: match f.namespace.parent {
                Some(p) => Some(p.chain()),
                None => None,
            },
            body: trees(f.body@),
        }),
{
    assert(Node::Function(f).tree()->Function_body =~= trees(f.body@));
}

impl SourceFile {
    /// Every open function has its scope in the chain, inside the scope of the file.
    pub open spec fn wf(&self) -> bool {
        self.namespace.depth() == self.open@.len()
    }

    /// The start of a file.
    pub fn new() -> (file: Self)
        ensures
            file.wf(),
            file@ == start_of_file(),
    {
        let file = SourceFile {
            namespace: Namespace::new(),
            open: Vec::new(),
            body: Vec::new(),
            prev_indent: 0,
        };
        proof {
            assert(file.namespace.chain() =~= seq![Seq::<VarNode>::empty()]);
            assert(frames_of(file.open@) =~= Seq::<Frame>::empty());
            assert(trees(file.body@) =~= Seq::<Tree>::empty());
        }
        file
    }

    /// Adds `node` at the end of the innermost open body.
    pub fn add_node(&mut self, node: Node)
        requires
            old(self).wf(),
        ensures
            final(self).wf(),
            final(self)@ == append(old(self)@, node.tree()),
            final(self).open@.len() == old(self).open@.len(),
    {
        match self.open.pop() {
            Some(innermost) => {
                let ghost before = innermost;
                let mut innermost = innermost;
                innermost.body.push(node);
                proof {
                    lemma_trees_push(before.body@, node);
                }
                self.open.push(innermost);
                proof {
                    assert(frames_of(self.open@) =~= frames_of(old(self).open@).drop_last().push(
                        Frame {
                            body: before.frame().body.push(node.tree()),
                            ..before.frame()
                        },
                    ));
                }
            },
            None => {
                proof {
                    lemma_trees_push(self.body@, node);
                    assert(frames_of(self.open@) =~= frames_of(old(self).open@));
                }
                self.body.push(node);
            },
        }
    }

    /// Closes the innermost open function: it joins the body around it
    /// with the active scope, cut off from the scopes around it, as its
    /// own, and the scope around the active one becomes the active one.
    pub fn close_function(&mut self)
        requires
            old(self).wf(),
            old(self).open@.len() > 0,
        ensures
            final(self).wf(),
            final(self)@ == close_one(old(self)@),
            final(self).open@.len() == old(self).open@.len() - 1,
    {
        let ghost before = self@;
        match self.open.pop() {
            Some(innermost) => {
                let mut finished = Namespace::new();
                std::mem::swap(&mut self.namespace, &mut finished);
                let Namespace { vars, parent } = finished;
                let ghost inner_vars = vars@;
                match parent {
                    Some(outer) => {
                        self.namespace = *outer;
                    },
                    None => {},
                }
                let function = Function {
                    ret_type: innermost.ret_type,
                    name: innermost.name,
                    param_count: innermost.param_count,
                    namespace: Namespace { vars, parent: None },
                    body: innermost.body,
                };
                proof {
                    lemma_function_tree(function);
                    assert(self.namespace.chain() =~= before.scopes.drop_first());
                    assert(frames_of(self.open@) =~= before.frames.drop_last());
                    assert(before.scopes[0] == inner_vars);
                    assert(before.frames.last() == innermost.frame());
                }
                self.add_node(Node::Function(function));
            },
            None => {},
        }
    }

    /// Opens `function`: its scope, cut off from whatever enclosed it,
    /// becomes the active one, inside the scope that was active.
    pub fn add_function(&mut self, function: Function)
        requires
            old(self).wf(),
        ensures
            final(self).wf(),
            final(self)@ == (Progress {
                scopes: seq![function.namespace.vars@] + old(self)@.scopes,
                frames: old(self)@.frames.push(
                    Frame {
                        ret_type: function.ret_type,
                        name: function.name,
                        param_count: function.param_count as nat,
                        body: trees(function.body@),
                    },
                ),
                ..old(self)@
            }),
    {
        let Function { ret_type, name, param_count, namespace, body } = function;
        let Namespace { vars, parent } = namespace;
        let mut inner = Namespace { vars, parent: None };
        std::mem::swap(&mut self.namespace, &mut inner);
        self.namespace.parent = Some(Box::new(inner));
        let opened = OpenFunction { ret_type, name, param_count, body };
        self.open.push(opened);
        proof {
            assert(frames_of(self.open@) =~= frames_of(old(self).open@).push(opened.frame()));
        }
    }

    /// Takes in the indentation of `line`. A line more than one level
    /// deeper than the line before it is refused, and so is one that gives
    /// up more levels than functions are open; either leaves the file as
    /// it is. Else the innermost function is closed once for every level
    /// that `line` gives up, so that the active scope is the scope that
    /// many levels out; a line as deep as the line before it, or one level
    /// deeper, keeps the active scope.
    pub fn update_namespace(&mut self, line: &Line) -> (done: Result<(), CompilerError>)
        requires
            old(self).wf(),
        ensures
            done == indent_step(old(self)@, line.line_num, line.indent as nat).reported(),
            final(self)@ == indent_step(old(self)@, line.line_num, line.indent as nat).after,
            final(self).wf(),
            done.is_err() ==> *final(self) == *old(self),
            done.is_ok() ==> final(self).namespace.chain() == old(self).namespace.chain().subrange(
                levels_up(old(self).prev_indent as nat, line.indent as nat) as int,
                old(self).namespace.chain().len() as int,
            ),
            done.is_ok() && line.indent >= old(self).prev_indent ==> final(self).namespace == old(self).namespace && final(self).open == old(self).open && final(self).body == old(self).body,
    {
        if line.indent > self.prev_indent && line.indent - self.prev_indent > 1 {
            return Err(CompilerError::IndentError(line.line_num));
        }
        let levels: usize = if line.indent < self.prev_indent {
            self.prev_indent - line.indent
        } else {
            0
        };
        if levels > self.open.len() {
            return Err(CompilerError::IndentError(line.line_num));
        }
        proof {
            lemma_lookup_is_resolve(self.namespace, Seq::empty());
            lemma_close_times_scopes(self@, levels as nat);
        }
        let mut left: usize = levels;
        while left > 0
            invariant
                self.wf(),
                left <= self.open@.len(),
                self.prev_indent == old(self).prev_indent,
                close_times(self@, left as nat) == close_times(old(self)@, levels as nat),
                levels == 0 ==> *self == *old(self),
                left <= levels,
            decreases left,
        {
            self.close_function();
            left = left - 1;
        }
        self.prev_indent = line.indent;
        Ok(())
    }

    /// Reads `line` as the definition of a variable of type `data_type`:
    /// binds the name, then parses the value and adds the node. A name
    /// that is bound already leaves the file as it is; a value that fails
    /// to parse leaves the name bound and adds no node.
    pub fn var_def_node(&mut self, data_type: &Type, line: &Line, types: &Vec<Type>) -> (done: Result<
        (),
        CompilerError,
    >)
        requires
            old(self).wf(),
            line.tokens@.len() >= 3,
        ensures
            done == var_def_step(
                old(self)@,
                line.tokens@,
                line.line_num,
                types@,
                *data_type,
            ).reported(),
            final(self)@ == var_def_step(
                old(self)@,
                line.tokens@,
                line.line_num,
                types@,
                *data_type,
            ).after,
            final(self).wf(),
            done.is_err() && final(self)@ == old(self)@ ==> *final(self) == *old(self),
    {
        let var_node = VarNode::new(data_type.clone(), line.get_token(1).clone());
        let ghost before = self@;
        proof {
            lemma_lookup_is_resolve(self.namespace, var_node.name@);
        }
        match self.namespace.add_var(var_node.clone(), line.line_num) {
            Ok(()) => {},
            Err(e) => {
                return Err(e);
            },
        }
        proof {
            lemma_chain_after_bind(old(self).namespace, self.namespace, var_node);
            assert(self@.scopes[0].len() == before.scopes[0].len() + 1);
            assert(frames_of(self.open@) == before.frames);
        }
        let ghost bound = self@;
        let value: Node = match expression_node(line, 3, line.len(), types, &self.namespace) {
            Ok(node) => node,
            Err(e) => {
                return Err(e);
            },
        };
        let node = Node::Binary(BinaryOperator::new(Operator::Assign, Node::Var(var_node), value));
        proof {
            assert(Node::Var(var_node).tree() == Tree::Var(var_node));
            assert(node.tree() == (Tree::Binary {
                data_type: *data_type,
                op: Operator::Assign,
                left: Box::new(Tree::Var(var_node)),
                right: Box::new(value.tree()),
            }));
            assert(bound == (Progress { scopes: bound.scopes, ..before }));
        }
        self.add_node(node);
        Ok(())
    }

    /// Reads `line`, which starts with the registered type `data_type`, as
    /// a definition. Whatever is refused before a name is bound leaves the
    /// file as it is.
    pub fn symbol_definition(&mut self, data_type: &Type, line: &Line, types: &Vec<Type>) -> (done:
        Result<(), CompilerError>)
        requires
            old(self).wf(),
        ensures
            done == definition_step(
                old(self)@,
                line.tokens@,
                line.line_num,
                types@,
                *data_type,
            ).reported(),
            final(self)@ == definition_step(
                old(self)@,
                line.tokens@,
                line.line_num,
                types@,
                *data_type,
            ).after,
            final(self).wf(),
            done.is_err() && final(self)@ == old(self)@ ==> *final(self) == *old(self),
    {
        match assert_has_min_tokens(MIN_DEF_TOKENS, line) {
            Ok(()) => {},
            Err(e) => {
                return Err(e);
            },
        }
        match assert_valid_symbol(line.get_token(1), line.line_num) {
            Ok(()) => {},
            Err(e) => {
                return Err(e);
            },
        }
        let token: &String = line.get_token(2);
        if token_is(token, '=') {
            self.var_def_node(data_type, line, types)
        } else if token_is(token, '(') {
            match Function::create_func_def_node(data_type.clone(), line, types) {
                Ok(function) => {
                    proof {
                        assert(trees(function.body@) =~= Seq::<Tree>::empty());
                    }
                    self.add_function(function);
                    Ok(())
                },
                Err(e) => Err(e),
            }
        } else {
            Err(CompilerError::InvalidDefinition(line.line_num))
        }
    }

    /// Reads `line`, which is not blank, in the scope that is active: as a
    /// definition if it starts with a registered type, else as a statement.
    /// Whatever is refused before a name is bound leaves the file as it is.
    pub fn create_ast_node(&mut self, line: &Line, types: &Vec<Type>) -> (done: Result<
        (),
        CompilerError,
    >)
        requires
            old(self).wf(),
            line.tokens@.len() > 0,
        ensures
            done == node_step(old(self)@, line.tokens@, line.line_num, types@).reported(),
            final(self)@ == node_step(old(self)@, line.tokens@, line.line_num, types@).after,
            final(self).wf(),
            done.is_err() && final(self)@ == old(self)@ ==> *final(self) == *old(self),
    {
        match find_type(types, line.get_token(0)) {
            Some(data_type) => self.symbol_definition(data_type, line, types),
            None => match statement_node(line, types, &self.namespace) {
                Ok(node) => {
                    self.add_node(node);
                    Ok(())
                },
                Err(e) => Err(e),
            },
        }
    }

    /// Reads one line that is not blank: its indentation, then what it
    /// holds. A line whose indentation is refused leaves the file as it is.
    pub fn add_line(&mut self, line: &Line, types: &Vec<Type>) -> (done: Result<(), CompilerError>)
        requires
            old(self).wf(),
            line.tokens@.len() > 0,
        ensures
            done == line_step(
                old(self)@,
                line.tokens@,
                line.line_num,
                line.indent as nat,
                types@,
            ).reported(),
            final(self)@ == line_step(
                old(self)@,
                line.tokens@,
                line.line_num,
                line.indent as nat,
                types@,
            ).after,
            final(self).wf(),
            indent_step(old(self)@, line.line_num, line.indent as nat).error.is_some() ==> *final(self) == *old(self),
    {
        match self.update_namespace(line) {
            Ok(()) => {},
            Err(e) => {
                return Err(e);
            },
        }
        self.create_ast_node(line, types)
    }

    /// Closes every function that is still open.
    pub fn finish(&mut self)
        requires
            old(self).wf(),
        ensures
            final(self).wf(),
            final(self)@ == end_of_file(old(self)@),
            final(self).open@.len() == 0,
    {
        while self.open.len() > 0
            invariant
                self.wf(),
                close_times(self@, self.open@.len() as nat) == close_times(
                    old(self)@,
                    old(self).open@.len() as nat,
                ),
            decreases self.open@.len(),
        {
            self.close_function();
        }
    }
}

/// Reads the token stream of a source file into its tree. The first
/// error, in the order of the lines, ends the reading.
pub fn generate_ast(file_name: &String, tokens: &Vec<String>, types: &Vec<Type>) -> (parsed: Result<
    SourceFile,
    CompilerError,
>)
    ensures
        match parse_of(tokens@, types@) {
            Ok(p) => parsed matches Ok(file) && file@ == p && file.wf() && file.open@.len() == 0,
            Err(e) => parsed == Err::<SourceFile, CompilerError>(e),
        },
        parsed matches Ok(file) ==> file@.consistent(),
{
    let mut file = SourceFile::new();
    let mut lines = LineIterator::new(file_name, tokens);
    loop
        invariant
            file.wf(),
            lines.wf(),
            lines.tokens == tokens,
            run_from(
                file@,
                tokens@,
                lines.curr_line.end as int,
                lines.curr_line.line_num as int,
                types@,
            ) == run_from(start_of_file(), tokens@, 0, 0, types@),
        decreases tokens@.len() - lines.curr_line.end,
    {
        match lines.next_line() {
            Err(e) => {
                return Err(e);
            },
            Ok(None) => {
                file.finish();
                proof {
                    lemma_parse_of_consistent(tokens@, types@);
                }
                return Ok(file);
            },
            Ok(Some(line)) => {
                if line.start < line.end {
                    match file.add_line(&line, types) {
                        Ok(()) => {},
                        Err(e) => {
                            return Err(e);
                        },
                    }
                }
            },
        }
    }
}

} // verus!
