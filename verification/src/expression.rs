//! The expression parser: a parenthesis pre-pass, then precedence climbing
//! over one line's tokens.

use vstd::prelude::*;
use vstd::string::*;
use crate::ast_node::{
    lemma_lookup_is_resolve, resolve, ASTNode, BinaryOperator, Literal, Namespace, Node, Operator,
    VarNode,
};
use crate::compiler_error::CompilerError;
use crate::data_type::{get_literal_type, literal_type, Type};
use crate::line::Line;

verus! {

/// The number of precedence groups: additive operators, then multiplicative ones.
pub const OPERATOR_GROUPS: usize = 2;

/// A token that consists of the character `c` alone.
pub open spec fn is_char_token(t: Seq<char>, c: char) -> bool {
    t.len() == 1 && t[0] == c
}

/// An opening parenthesis.
pub open spec fn is_open(t: Seq<char>) -> bool {
    is_char_token(t, '(')
}

/// A closing parenthesis.
pub open spec fn is_close(t: Seq<char>) -> bool {
    is_char_token(t, ')')
}

/// The arithmetic operator that a token spells.
pub open spec fn operator_of(t: Seq<char>) -> Option<Operator> {
    if is_char_token(t, '+') {
        Some(Operator::Add)
    } else if is_char_token(t, '-') {
        Some(Operator::Sub)
    } else if is_char_token(t, '*') {
        Some(Operator::Mul)
    } else if is_char_token(t, '/') {
        Some(Operator::Div)
    } else if is_char_token(t, '%') {
        Some(Operator::Mod)
    } else {
        None
    }
}

/// The precedence group of an operator; a lower group binds less tightly.
/// Assignment belongs to no group of the expression parser.
pub open spec fn group_of(op: Operator) -> nat {
    match op {
        Operator::Add | Operator::Sub => 0,
        Operator::Mul | Operator::Div | Operator::Mod => 1,
        Operator::Assign => 2,
    }
}

/// The operator that a token spells, if it belongs to `group`.
pub open spec fn operator_in_group(t: Seq<char>, group: nat) -> Option<Operator> {
    match operator_of(t) {
        Some(op) => if group_of(op) == group {
            Some(op)
        } else {
            None
        },
        None => None,
    }
}

/// What a token adds to the nesting depth.
pub open spec fn paren_step(t: Seq<char>) -> int {
    if is_open(t) {
        1
    } else if is_close(t) {
        -1
    } else {
        0
    }
}

/// The nesting depth in front of token `i`: the opening parentheses before
/// it less the closing ones.
pub open spec fn paren_depth(toks: Seq<String>, i: int) -> int
    decreases i,
{
    if i <= 0 || i > toks.len() {
        0
    } else {
        paren_depth(toks, i - 1) + paren_step(toks[i - 1]@)
    }
}

/// The tokens from `a` up to `b` close every parenthesis they open and
/// close none that they did not open.
pub open spec fn balanced(toks: Seq<String>, a: int, b: int) -> bool {
    &&& 0 <= a <= b <= toks.len()
    &&& paren_depth(toks, b) == paren_depth(toks, a)
    &&& forall|q: int| a <= q <= b ==> #[trigger] paren_depth(toks, q) >= paren_depth(toks, a)
}

/// The `(` at `p` and the `)` at `j` belong together: what lies between
/// them is balanced, so `p` is the nearest `(` before `j` still open there.
pub open spec fn paired(toks: Seq<String>, p: int, j: int) -> bool {
    &&& 0 <= p < j < toks.len()
    &&& is_open(toks[p]@)
    &&& is_close(toks[j]@)
    &&& balanced(toks, p + 1, j)
}

/// The table gives, for every `)` from `a` up to `b`, the index of its `(`.
pub open spec fn table_ok(toks: Seq<String>, table: Seq<usize>, a: int, b: int) -> bool {
    &&& table.len() == toks.len()
    &&& forall|j: int|
        a <= j < b && is_close(#[trigger] toks[j]@) ==> paired(toks, table[j] as int, j)
}

/// The `(` at `q` is still open in front of token `j`: nothing from `q`
/// to `j` has closed it.
pub open spec fn open_at(toks: Seq<String>, q: int, j: int) -> bool {
    &&& 0 <= q < j <= toks.len()
    &&& is_open(toks[q]@)
    &&& forall|r: int| q < r <= j ==> #[trigger] paren_depth(toks, r) > paren_depth(toks, q)
}

/// The partner of a `)` is the nearest `(` before it that is still open:
/// it is open there, and no `(` between the two is.
pub proof fn lemma_paired_is_nearest_open(toks: Seq<String>, p: int, j: int)
    requires
        paired(toks, p, j),
    ensures
        open_at(toks, p, j),
        forall|q: int| p < q < j ==> !open_at(toks, q, j),
{
    assert(paren_depth(toks, p + 1) == paren_depth(toks, p) + 1);
    assert forall|q: int| p < q < j implies !open_at(toks, q, j) by {
        if is_open(toks[q]@) {
            assert(paren_depth(toks, q) >= paren_depth(toks, p + 1));
            assert(paren_depth(toks, j) == paren_depth(toks, p + 1));
        }
    }
}

/// A closing parenthesis has at most one partner.
pub proof fn lemma_paired_unique(toks: Seq<String>, p: int, q: int, j: int)
    requires
        paired(toks, p, j),
        paired(toks, q, j),
    ensures
        p == q,
{
    if p < q {
        assert(paren_depth(toks, q) >= paren_depth(toks, p + 1));
        assert(paren_depth(toks, q + 1) == paren_depth(toks, q) + 1);
        assert(paren_depth(toks, p + 1) == paren_depth(toks, p) + 1);
    } else if q < p {
        assert(paren_depth(toks, p) >= paren_depth(toks, q + 1));
        assert(paren_depth(toks, q + 1) == paren_depth(toks, q) + 1);
        assert(paren_depth(toks, p + 1) == paren_depth(toks, p) + 1);
    }
}

/// Inside a balanced range the partner of a `)` lies inside the range too.
pub proof fn lemma_partner_in_range(toks: Seq<String>, a: int, b: int, p: int, j: int)
    requires
        balanced(toks, a, b),
        a <= j < b,
        paired(toks, p, j),
    ensures
        a <= p,
        paren_depth(toks, p) == paren_depth(toks, j + 1),
{
    assert(paren_depth(toks, p + 1) == paren_depth(toks, p) + 1);
    assert(paren_depth(toks, j + 1) == paren_depth(toks, j) - 1);
    if p < a {
        assert(paren_depth(toks, a) >= paren_depth(toks, p + 1));
        assert(paren_depth(toks, j + 1) >= paren_depth(toks, a));
    }
}

/// Whether `token` consists of the character `c` alone.
pub fn token_is(token: &String, c: char) -> (yes: bool)
    ensures
        yes == is_char_token(token@, c),
{
    let text: &str = token.as_str();
    text.unicode_len() == 1 && text.get_char(0) == c
}

/// Pairs the parentheses of the tokens from `start` up to `end`: the table
/// holds at the index of each `)` the index of its `(`, and zero elsewhere.
/// A `)` with no `(` open before it, or a `(` left open at the end, is an error.
pub fn match_parens(line: &Line, start: usize, end: usize) -> (matched: Result<
    Vec<usize>,
    CompilerError,
>)
    requires
        start <= end <= line.tokens@.len(),
    ensures
        balanced(line.tokens@, start as int, end as int) ==> matched.is_ok(),
        !balanced(line.tokens@, start as int, end as int) ==> matched == Err::<
            Vec<usize>,
            CompilerError,
        >(CompilerError::MismatchedParentheses(line.line_num)),
        matched matches Ok(table) ==> table_ok(line.tokens@, table@, start as int, end as int)
            && forall|j: int|
            0 <= j < table@.len() && !(start <= j < end && is_close(line.tokens@[j]@))
                ==> #[trigger] table@[j] == 0,
{
    let ghost toks = line.tokens@;
    let total: usize = line.len();
    let mut table: Vec<usize> = Vec::new();
    let mut k: usize = 0;
    while k < total
        invariant
            k <= total,
            table@.len() == k,
            forall|j: int| 0 <= j < k ==> #[trigger] table@[j] == 0,
        decreases total - k,
    {
        table.push(0);
        k = k + 1;
    }
    let mut open_parens: Vec<usize> = Vec::new();
    let mut i: usize = start;
    while i < end
        invariant
            start <= i <= end <= total,
            total == toks.len(),
            toks == line.tokens@,
            table@.len() == total,
            paren_depth(toks, i as int) - paren_depth(toks, start as int) == open_parens@.len(),
            forall|q: int|
                start <= q <= i ==> #[trigger] paren_depth(toks, q) >= paren_depth(
                    toks,
                    start as int,
                ),
            forall|k: int|
                0 <= k < open_parens@.len() ==> {
                    &&& start <= (#[trigger] open_parens@[k]) < i
                    &&& is_open(toks[open_parens@[k] as int]@)
                    &&& paren_depth(toks, open_parens@[k] as int) == paren_depth(
                        toks,
                        start as int,
                    ) + k
                },
            forall|k: int, q: int|
                0 <= k < open_parens@.len() && open_parens@[k] < q <= i ==> #[trigger] paren_depth(
                    toks,
                    q,
                ) > paren_depth(toks, #[trigger] open_parens@[k] as int),
            table_ok(toks, table@, start as int, i as int),
            forall|j: int|
                0 <= j < total && !(start <= j < i && is_close(toks[j]@)) ==> #[trigger] table@[j]
                    == 0,
        decreases end - i,
    {
        let token: &String = line.get_token(i);
        if token_is(token, '(') {
            open_parens.push(i);
        } else if token_is(token, ')') {
            match open_parens.pop() {
                None => {
                    assert(paren_depth(toks, i + 1) < paren_depth(toks, start as int));
                    return Err(CompilerError::MismatchedParentheses(line.line_num));
                },
                Some(partner) => {
                    let ghost before = table@;
                    table.set(i, partner);
                    proof {
                        assert(paren_depth(toks, partner + 1) == paren_depth(toks, partner as int)
                            + 1);
                        assert(balanced(toks, partner + 1, i as int));
                        assert(paired(toks, partner as int, i as int));
                        assert forall|j: int|
                            start <= j < i + 1 && is_close(#[trigger] toks[j]@) implies paired(
                            toks,
                            table@[j] as int,
                            j,
                        ) by {
                            if j < i {
                                assert(table@[j] == before[j]);
                            }
                        }
                    }
                },
            }
        }
        i = i + 1;
    }
    if open_parens.len() != 0 {
        return Err(CompilerError::MismatchedParentheses(line.line_num));
    }
    Ok(table)
}

/// Whether token `i` is an operator of `group` outside every parenthesis
/// of the range that starts at `a`.
pub open spec fn top_level_operator(toks: Seq<String>, a: int, i: int, group: nat) -> bool {
    &&& operator_in_group(toks[i]@, group).is_some()
    &&& paren_depth(toks, i) == paren_depth(toks, a)
}

/// The rightmost index from `a` to `i` that holds a top-level operator of `group`.
pub open spec fn rightmost_at(toks: Seq<String>, a: int, i: int, group: nat) -> Option<int>
    decreases i - a + 1,
{
    if a < 0 || i < a || i >= toks.len() {
        None
    } else if top_level_operator(toks, a, i, group) {
        Some(i)
    } else {
        rightmost_at(toks, a, i - 1, group)
    }
}

/// Where the range from `a` up to `b` is split when the scan starts at
/// `group`: at the rightmost top-level operator of the lowest group, from
/// `group` on, that has one.
pub open spec fn split_at(toks: Seq<String>, a: int, b: int, group: nat) -> Option<int> {
    if group == 0 && rightmost_at(toks, a, b - 1, 0).is_some() {
        rightmost_at(toks, a, b - 1, 0)
    } else if group <= 1 {
        rightmost_at(toks, a, b - 1, 1)
    } else {
        None
    }
}

/// The range from `a` up to `b` is one parenthesised expression: its first
/// token is a `(`, its last the `)` that closes it.
pub open spec fn wrapped(toks: Seq<String>, a: int, b: int) -> bool {
    b - a >= 2 && paired(toks, a, b - 1)
}

/// A single token as a value: a literal of the first type that claims it,
/// else the variable of that name nearest in scope.
pub open spec fn value_of(token: String, line_num: usize, types: Seq<Type>, scopes: Seq<Seq<VarNode>>) -> Result<
    Node,
    CompilerError,
> {
    match literal_type(types, token@) {
        Some(t) => Ok(Node::Literal(Literal { data_type: t, value: token })),
        None => match resolve(scopes, token@) {
            Some(v) => Ok(Node::Var(v)),
            None => Err(CompilerError::InvalidSymbol(line_num, token)),
        },
    }
}

/// Two parsed operands under an operator: the first error if either failed,
/// a type error if their types differ, else the operation, typed as its operands.
pub open spec fn combine(
    op: Operator,
    op_token: String,
    line_num: usize,
    left: Result<Node, CompilerError>,
    right: Result<Node, CompilerError>,
) -> Result<Node, CompilerError> {
    match left {
        Err(e) => Err(e),
        Ok(l) => match right {
            Err(e) => Err(e),
            Ok(r) => if l.node_type().same_as(&r.node_type()) {
                Ok(
                    Node::Binary(
                        BinaryOperator {
                            data_type: l.node_type(),
                            op,
                            left: Box::new(l),
                            right: Box::new(r),
                        },
                    ),
                )
            } else {
                Err(
                    CompilerError::BinaryOperatorTypeError(
                        line_num,
                        op_token,
                        l.node_type().name,
                        r.node_type().name,
                    ),
                )
            },
        },
    }
}

/// The tree that the tokens from `a` up to `b` denote, the operator scan
/// starting at `group`.
///
/// One token is a value. A range wrapped in a pair of parentheses denotes
/// what its inside denotes. Any other range is split at the rightmost
/// top-level operator of the lowest group that has one: the left part is
/// parsed from the lowest group again, the right part from the group of
/// the split. A range with no such operator denotes nothing.
pub open spec fn parse_range(
    toks: Seq<String>,
    line_num: usize,
    types: Seq<Type>,
    scopes: Seq<Seq<VarNode>>,
    a: int,
    b: int,
    group: nat,
) -> Result<Node, CompilerError>
    decreases b - a,
    via parse_range_decreases
{
    if b - a == 1 {
        value_of(toks[a], line_num, types, scopes)
    } else if wrapped(toks, a, b) {
        parse_range(toks, line_num, types, scopes, a + 1, b - 1, 0)
    } else {
        match split_at(toks, a, b, group) {
            Some(k) => match operator_of(toks[k]@) {
                Some(op) => combine(
                    op,
                    toks[k],
                    line_num,
                    parse_range(toks, line_num, types, scopes, a, k, 0),
                    parse_range(toks, line_num, types, scopes, k + 1, b, group_of(op)),
                ),
                None => Err(CompilerError::InvalidExpression(line_num)),
            },
            None => Err(CompilerError::InvalidExpression(line_num)),
        }
    }
}

#[via_fn]
proof fn parse_range_decreases(
    toks: Seq<String>,
    line_num: usize,
    types: Seq<Type>,
    scopes: Seq<Seq<VarNode>>,
    a: int,
    b: int,
    group: nat,
) {
    lemma_rightmost_at_bounds(toks, a, b - 1, 0);
    lemma_rightmost_at_bounds(toks, a, b - 1, 1);
}

/// What `rightmost_at` finds is a top-level operator inside the scanned
/// part, and nothing to its right is one.
pub proof fn lemma_rightmost_at_bounds(toks: Seq<String>, a: int, i: int, group: nat)
    ensures
        rightmost_at(toks, a, i, group) matches Some(k) ==> a <= k <= i && top_level_operator(
            toks,
            a,
            k,
            group,
        ) && forall|q: int| k < q <= i ==> !top_level_operator(toks, a, q, group),
        rightmost_at(toks, a, i, group).is_none() ==> forall|q: int|
            0 <= a <= q <= i < toks.len() ==> !top_level_operator(toks, a, q, group),
    decreases i - a + 1,
{
    if !(a < 0 || i < a || i >= toks.len()) && !top_level_operator(toks, a, i, group) {
        lemma_rightmost_at_bounds(toks, a, i - 1, group);
    }
}

/// Between a `(` and its `)` nothing is a top-level operator of the
/// enclosing range, so a right-to-left scan may jump from one to the other.
pub proof fn lemma_skip_pair(toks: Seq<String>, a: int, b: int, p: int, j: int, group: nat)
    requires
        balanced(toks, a, b),
        a <= j < b,
        paired(toks, p, j),
        paren_depth(toks, j + 1) == paren_depth(toks, a),
    ensures
        a <= p,
        paren_depth(toks, p) == paren_depth(toks, a),
        rightmost_at(toks, a, j, group) == rightmost_at(toks, a, p - 1, group),
{
    lemma_partner_in_range(toks, a, b, p, j);
    assert(paren_depth(toks, p + 1) == paren_depth(toks, p) + 1);
    lemma_nothing_inside(toks, a, p, j, group);
}

proof fn lemma_nothing_inside(toks: Seq<String>, a: int, p: int, i: int, group: nat)
    requires
        0 <= a <= p <= i < toks.len(),
        is_open(toks[p]@),
        forall|q: int| p < q <= i ==> #[trigger] paren_depth(toks, q) > paren_depth(toks, a),
    ensures
        rightmost_at(toks, a, i, group) == rightmost_at(toks, a, p - 1, group),
    decreases i - p,
{
    if i > p {
        assert(paren_depth(toks, i) > paren_depth(toks, a));
        lemma_nothing_inside(toks, a, p, i - 1, group);
    } else {
        assert(operator_of(toks[p]@).is_none());
    }
}

/// A range of one line's tokens on its way through the parser, with what
/// the parser consults: the parenthesis table, the types, the scope.
#[derive(Clone, Copy)]
pub struct Expression<'a> {
    pub line: &'a Line<'a>,
    pub start: usize,
    pub end: usize,
    pub op_group_index: usize,
    pub paren_matches: &'a Vec<usize>,
    pub types: &'a Vec<Type>,
    pub namespace: &'a Namespace,
}

impl<'a> Expression<'a> {
    /// The range lies in the line and is balanced, and the table pairs its
    /// parentheses.
    pub open spec fn wf(&self) -> bool {
        &&& self.start <= self.end <= self.line.tokens@.len()
        &&& balanced(self.line.tokens@, self.start as int, self.end as int)
        &&& table_ok(self.line.tokens@, self.paren_matches@, self.start as int, self.end as int)
    }

    /// The tree that the range denotes.
    pub open spec fn parsed(&self) -> Result<Node, CompilerError> {
        parse_range(
            self.line.tokens@,
            self.line.line_num,
            self.types@,
            self.namespace@,
            self.start as int,
            self.end as int,
            self.op_group_index as nat,
        )
    }

    /// The tokens of `line` from `start` up to `end`, to be scanned from
    /// the lowest operator group on.
    pub fn new(
        line: &'a Line<'a>,
        start: usize,
        end: usize,
        paren_matches: &'a Vec<usize>,
        types: &'a Vec<Type>,
        namespace: &'a Namespace,
    ) -> (expression: Self)
        ensures
            expression == (Expression {
                line,
                start,
                end,
                op_group_index: 0,
                paren_matches,
                types,
                namespace,
            }),
    {
        Self { line, start, end, op_group_index: 0, paren_matches, types, namespace }
    }

    /// The part from `start` up to `end`, to be scanned from `op_group_index` on.
    pub fn sub_expression(&self, start: usize, end: usize, op_group_index: usize) -> (part: Self)
        ensures
            part == (Expression { start, end, op_group_index, ..*self }),
    {
        Self {
            line: self.line,
            start,
            end,
            op_group_index,
            paren_matches: self.paren_matches,
            types: self.types,
            namespace: self.namespace,
        }
    }

    /// The number of tokens in the range.
    pub fn len(&self) -> (n: usize)
        requires
            self.start <= self.end,
        ensures
            n == self.end - self.start,
    {
        self.end - self.start
    }

    /// The last token of the range, which is not empty.
    pub fn last(&self) -> (token: &'a String)
        requires
            self.start < self.end <= self.line.tokens@.len(),
        ensures
            *token == self.line.tokens@[self.end - 1],
    {
        self.line.get_token(self.end - 1)
    }
}

/// The operator at `token_index`, if it belongs to the group being scanned.
pub fn get_operator_parser(expression: &Expression, token_index: usize) -> (found: Option<Operator>)
    requires
        token_index < expression.line.tokens@.len(),
    ensures
        found == operator_in_group(
            expression.line.tokens@[token_index as int]@,
            expression.op_group_index as nat,
        ),
{
    let token: &String = expression.line.get_token(token_index);
    let group: usize = expression.op_group_index;
    if group == 0 {
        if token_is(token, '+') {
            Some(Operator::Add)
        } else if token_is(token, '-') {
            Some(Operator::Sub)
        } else {
            None
        }
    } else if group == 1 {
        if token_is(token, '*') {
            Some(Operator::Mul)
        } else if token_is(token, '/') {
            Some(Operator::Div)
        } else if token_is(token, '%') {
            Some(Operator::Mod)
        } else {
            None
        }
    } else {
        None
    }
}

/// The value that the single token of `expression` denotes.
pub fn parse_value(expression: &Expression) -> (node: Result<Node, CompilerError>)
    requires
        expression.start < expression.line.tokens@.len(),
    ensures
        node == value_of(
            expression.line.tokens@[expression.start as int],
            expression.line.line_num,
            expression.types@,
            expression.namespace@,
        ),
{
    let token: &String = expression.line.get_token(expression.start);
    if let Some(literal_type) = get_literal_type(expression.types, token.as_str()) {
        return Ok(Node::Literal(Literal::new(literal_type.clone(), token.clone())));
    }
    proof {
        lemma_lookup_is_resolve(*expression.namespace, token@);
    }
    if let Some(var_node) = expression.namespace.get_var(token) {
        return Ok(Node::Var(var_node));
    }
    Err(CompilerError::InvalidSymbol(expression.line.line_num, token.clone()))
}

/// Splits `expression` at the top-level operator `op` at `op_index` and
/// joins what the two sides denote.
pub fn binary_operation_parser(expression: &Expression, op_index: usize, op: Operator) -> (node:
    Result<Node, CompilerError>)
    requires
        expression.wf(),
        expression.start <= op_index < expression.end,
        operator_of(expression.line.tokens@[op_index as int]@) == Some(op),
        paren_depth(expression.line.tokens@, op_index as int) == paren_depth(
            expression.line.tokens@,
            expression.start as int,
        ),
    ensures
        node == combine(
            op,
            expression.line.tokens@[op_index as int],
            expression.line.line_num,
            parse_range(
                expression.line.tokens@,
                expression.line.line_num,
                expression.types@,
                expression.namespace@,
                expression.start as int,
                op_index as int,
                0,
            ),
            parse_range(
                expression.line.tokens@,
                expression.line.line_num,
                expression.types@,
                expression.namespace@,
                op_index + 1,
                expression.end as int,
                group_of(op),
            ),
        ),
    decreases expression.end - expression.start, 0nat,
{
    let ghost toks = expression.line.tokens@;
    let group: usize = match op {
        Operator::Add | Operator::Sub => 0,
        Operator::Mul | Operator::Div | Operator::Mod => 1,
        Operator::Assign => 2,
    };
    proof {
        assert(paren_depth(toks, op_index + 1) == paren_depth(toks, op_index as int));
        assert(balanced(toks, expression.start as int, op_index as int));
        assert(balanced(toks, op_index + 1, expression.end as int));
    }
    let left_part = expression.sub_expression(expression.start, op_index, 0);
    let left: Node = match parse_expression(&left_part) {
        Ok(node) => node,
        Err(e) => {
            return Err(e);
        },
    };
    let right_part = expression.sub_expression(op_index + 1, expression.end, group);
    let right: Node = match parse_expression(&right_part) {
        Ok(node) => node,
        Err(e) => {
            return Err(e);
        },
    };
    if *left.get_type() != *right.get_type() {
        Err(
            CompilerError::BinaryOperatorTypeError(
                expression.line.line_num,
                expression.line.get_token(op_index).clone(),
                left.get_type().name.clone(),
                right.get_type().name.clone(),
            ),
        )
    } else {
        Ok(Node::Binary(BinaryOperator::new(op, left, right)))
    }
}

/// Strips the pair of parentheses that wraps `expression` and parses the inside.
pub fn parse_parenthetical_expression(expression: &Expression) -> (node: Result<Node, CompilerError>)
    requires
        expression.wf(),
        wrapped(expression.line.tokens@, expression.start as int, expression.end as int),
    ensures
        node == parse_range(
            expression.line.tokens@,
            expression.line.line_num,
            expression.types@,
            expression.namespace@,
            expression.start + 1,
            expression.end - 1,
            0,
        ),
    decreases expression.end - expression.start, 0nat,
{
    let inside = expression.sub_expression(expression.start + 1, expression.end - 1, 0);
    parse_expression(&inside)
}

/// Parses the range of `expression`.
pub fn parse_expression(expression: &Expression) -> (node: Result<Node, CompilerError>)
    requires
        expression.wf(),
    ensures
        node == expression.parsed(),
    decreases expression.end - expression.start, 1nat,
{
    let ghost toks = expression.line.tokens@;
    let ghost a = expression.start as int;
    let ghost b = expression.end as int;
    if expression.len() == 1 {
        return parse_value(expression);
    }
    if expression.len() >= 2 && token_is(expression.line.get_token(expression.start), '(')
        && token_is(expression.last(), ')') {
        if expression.paren_matches[expression.end - 1] == expression.start {
            return parse_parenthetical_expression(expression);
        }
        proof {
            if wrapped(toks, a, b) {
                lemma_paired_unique(toks, a, expression.paren_matches@[b - 1] as int, b - 1);
            }
        }
    }
    assert(!wrapped(toks, a, b));
    let mut group: usize = expression.op_group_index;
    while group < OPERATOR_GROUPS
        invariant
            expression.wf(),
            toks == expression.line.tokens@,
            a == expression.start,
            b == expression.end,
            expression.op_group_index <= group,
            forall|g: nat|
                expression.op_group_index <= g < group ==> (#[trigger] rightmost_at(
                    toks,
                    a,
                    b - 1,
                    g,
                )).is_none(),
            b - a != 1,
            !wrapped(toks, a, b),
        decreases OPERATOR_GROUPS - group,
    {
        let scanned = expression.sub_expression(expression.start, expression.end, group);
        let mut cursor: usize = expression.end;
        while cursor > expression.start
            invariant
                expression.wf(),
                toks == expression.line.tokens@,
                a == expression.start,
                b == expression.end,
                a <= cursor <= b,
                group < OPERATOR_GROUPS,
                expression.op_group_index <= group,
                scanned == (Expression { op_group_index: group, ..*expression }),
                paren_depth(toks, cursor as int) == paren_depth(toks, a),
                rightmost_at(toks, a, cursor - 1, group as nat) == rightmost_at(
                    toks,
                    a,
                    b - 1,
                    group as nat,
                ),
                forall|g: nat|
                    expression.op_group_index <= g < group ==> (#[trigger] rightmost_at(
                        toks,
                        a,
                        b - 1,
                        g,
                    )).is_none(),
                b - a != 1,
                !wrapped(toks, a, b),
            decreases cursor,
        {
            let token_index: usize = cursor - 1;
            let token: &String = expression.line.get_token(token_index);
            if token_is(token, ')') {
                let partner: usize = expression.paren_matches[token_index];
                proof {
                    lemma_skip_pair(toks, a, b, partner as int, token_index as int, group as nat);
                }
                cursor = partner;
            } else {
                match get_operator_parser(&scanned, token_index) {
                    Some(op) => {
                        proof {
                            assert(paren_depth(toks, cursor as int) == paren_depth(
                                toks,
                                token_index as int,
                            ) + paren_step(toks[token_index as int]@));
                            assert(top_level_operator(
                                toks,
                                a,
                                token_index as int,
                                group as nat,
                            ));
                            assert(split_at(toks, a, b, expression.op_group_index as nat) == Some(
                                token_index as int,
                            ));
                        }
                        return binary_operation_parser(expression, token_index, op);
                    },
                    None => {
                        proof {
                            assert(paren_depth(toks, cursor as int) == paren_depth(
                                toks,
                                token_index as int,
                            ) + paren_step(toks[token_index as int]@));
                            assert(paren_depth(toks, token_index as int) >= paren_depth(toks, a));
                        }
                        cursor = token_index;
                    },
                }
            }
        }
        group = group + 1;
    }
    proof {
        assert(rightmost_at(toks, a, b - 1, 1).is_none() || expression.op_group_index > 1);
        assert(split_at(toks, a, b, expression.op_group_index as nat).is_none());
    }
    Err(CompilerError::InvalidExpression(expression.line.line_num))
}

/// The tree that the tokens from `a` up to `b` denote as an expression of
/// their own: nothing if their parentheses do not match.
pub open spec fn expression_of(
    toks: Seq<String>,
    line_num: usize,
    types: Seq<Type>,
    scopes: Seq<Seq<VarNode>>,
    a: int,
    b: int,
) -> Result<Node, CompilerError> {
    if balanced(toks, a, b) {
        parse_range(toks, line_num, types, scopes, a, b, 0)
    } else {
        Err(CompilerError::MismatchedParentheses(line_num))
    }
}

/// Parses the tokens of `line` from `start` up to `end` as one expression.
pub fn expression_node(
    line: &Line,
    start: usize,
    end: usize,
    types: &Vec<Type>,
    namespace: &Namespace,
) -> (node: Result<Node, CompilerError>)
    requires
        start <= end <= line.tokens@.len(),
    ensures
        node == expression_of(
            line.tokens@,
            line.line_num,
            types@,
            namespace@,
            start as int,
            end as int,
        ),
{
    let paren_matches: Vec<usize> = match match_parens(line, start, end) {
        Ok(table) => table,
        Err(e) => {
            return Err(e);
        },
    };
    let expression = Expression::new(line, start, end, &paren_matches, types, namespace);
    parse_expression(&expression)
}

/// The index of the first `=` at or after `from`.
pub open spec fn first_assign(toks: Seq<String>, from: int) -> Option<int>
    decreases toks.len() - from,
{
    if from < 0 || from >= toks.len() {
        None
    } else if is_char_token(toks[from]@, '=') {
        Some(from)
    } else {
        first_assign(toks, from + 1)
    }
}

/// The assignment that a line with its first `=` at index `at` denotes:
/// the `=` must follow directly on a name that is bound, and the rest of
/// the line must be an expression.
pub open spec fn assignment_of(
    toks: Seq<String>,
    line_num: usize,
    types: Seq<Type>,
    scopes: Seq<Seq<VarNode>>,
    at: int,
) -> Result<Node, CompilerError> {
    if at != 1 {
        Err(CompilerError::InvalidAssignment(line_num))
    } else {
        match resolve(scopes, toks[0]@) {
            None => Err(CompilerError::InvalidSymbol(line_num, toks[0])),
            Some(var) => match expression_of(toks, line_num, types, scopes, 2, toks.len() as int) {
                Err(e) => Err(e),
                Ok(value) => Ok(
                    Node::Binary(
                        BinaryOperator {
                            data_type: var.data_type,
                            op: Operator::Assign,
                            left: Box::new(Node::Var(var)),
                            right: Box::new(value),
                        },
                    ),
                ),
            },
        }
    }
}

/// The tree that a line denotes as a statement: an assignment if it holds
/// an `=`, else an expression.
pub open spec fn statement_of(toks: Seq<String>, line_num: usize, types: Seq<Type>, scopes: Seq<Seq<VarNode>>) -> Result<
    Node,
    CompilerError,
> {
    match first_assign(toks, 0) {
        Some(at) => assignment_of(toks, line_num, types, scopes, at),
        None => expression_of(toks, line_num, types, scopes, 0, toks.len() as int),
    }
}

/// Parses `line` as an assignment whose `=` stands at `token_index`.
pub fn assignment_parser(
    line: &Line,
    token_index: usize,
    types: &Vec<Type>,
    namespace: &Namespace,
) -> (node: Result<Node, CompilerError>)
    requires
        token_index < line.tokens@.len(),
    ensures
        node == assignment_of(line.tokens@, line.line_num, types@, namespace@, token_index as int),
{
    if token_index != 1 {
        return Err(CompilerError::InvalidAssignment(line.line_num));
    }
    let name: &String = line.get_token(0);
    proof {
        lemma_lookup_is_resolve(*namespace, name@);
    }
    let var_node: VarNode = match namespace.get_var(name) {
        Some(var) => var,
        None => {
            return Err(CompilerError::InvalidSymbol(line.line_num, name.clone()));
        },
    };
    let value: Node = match expression_node(line, token_index + 1, line.len(), types, namespace) {
        Ok(node) => node,
        Err(e) => {
            return Err(e);
        },
    };
    Ok(Node::Binary(BinaryOperator::new(Operator::Assign, Node::Var(var_node), value)))
}

/// Parses `line` as a statement.
pub fn statement_node(line: &Line, types: &Vec<Type>, namespace: &Namespace) -> (node: Result<
    Node,
    CompilerError,
>)
    ensures
        node == statement_of(line.tokens@, line.line_num, types@, namespace@),
{
    let total: usize = line.len();
    let mut i: usize = 0;
    while i < total
        invariant
            i <= total,
            total == line.tokens@.len(),
            first_assign(line.tokens@, i as int) == first_assign(line.tokens@, 0),
        decreases total - i,
    {
        if token_is(line.get_token(i), '=') {
            return assignment_parser(line, i, types, namespace);
        }
        i = i + 1;
    }
    expression_node(line, 0, total, types, namespace)
}

/// A token that some registered type claims is a literal of the first
/// type that claims it, whatever the scopes hold.
pub proof fn lemma_literal_value(
    token: String,
    line_num: usize,
    types: Seq<Type>,
    scopes: Seq<Seq<VarNode>>,
)
    requires
        literal_type(types, token@).is_some(),
    ensures
        value_of(token, line_num, types, scopes) == Ok::<Node, CompilerError>(
            Node::Literal(Literal { data_type: literal_type(types, token@).unwrap(), value: token }),
        ),
        value_of(token, line_num, types, scopes).unwrap().node_type() == literal_type(
            types,
            token@,
        ).unwrap(),
{
}

/// Two operands that parsed but differ in type are refused with the
/// operator and the names of the two types; no operation is built.
pub proof fn lemma_type_mismatch_refused(
    op: Operator,
    op_token: String,
    line_num: usize,
    left: Node,
    right: Node,
)
    requires
        !left.node_type().same_as(&right.node_type()),
    ensures
        combine(
            op,
            op_token,
            line_num,
            Ok::<Node, CompilerError>(left),
            Ok::<Node, CompilerError>(right),
        ) == Err::<Node, CompilerError>(
            CompilerError::BinaryOperatorTypeError(
                line_num,
                op_token,
                left.node_type().name,
                right.node_type().name,
            ),
        ),
{
}

/// A range that is split at an operator, and whose two sides parse to
/// operands of different types, is refused with the operator and the
/// names of the two types.
pub proof fn lemma_split_type_error(
    toks: Seq<String>,
    line_num: usize,
    types: Seq<Type>,
    scopes: Seq<Seq<VarNode>>,
    a: int,
    b: int,
    group: nat,
    k: int,
    op: Operator,
    left: Node,
    right: Node,
)
    requires
        b - a != 1,
        !wrapped(toks, a, b),
        split_at(toks, a, b, group) == Some(k),
        operator_of(toks[k]@) == Some(op),
        parse_range(toks, line_num, types, scopes, a, k, 0) == Ok::<Node, CompilerError>(left),
        parse_range(toks, line_num, types, scopes, k + 1, b, group_of(op)) == Ok::<
            Node,
            CompilerError,
        >(right),
        !left.node_type().same_as(&right.node_type()),
    ensures
        parse_range(toks, line_num, types, scopes, a, b, group) == Err::<Node, CompilerError>(
            CompilerError::BinaryOperatorTypeError(
                line_num,
                toks[k],
                left.node_type().name,
                right.node_type().name,
            ),
        ),
{
}

/// A value is well typed, and so is an operation on two well-typed operands.
pub proof fn lemma_combine_well_typed(
    op: Operator,
    op_token: String,
    line_num: usize,
    left: Result<Node, CompilerError>,
    right: Result<Node, CompilerError>,
)
    requires
        left matches Ok(l) ==> l.well_typed(),
        right matches Ok(r) ==> r.well_typed(),
    ensures
        combine(op, op_token, line_num, left, right) matches Ok(node) ==> node.well_typed(),
        combine(op, op_token, line_num, left, right) matches Ok(node) ==> left.is_ok()
            && node.node_type() == left->Ok_0.node_type(),
{
}

/// Whatever the expression parser accepts is well typed: in every
/// operation below the root the two operands have one type, and the
/// operation has that type too.
pub proof fn lemma_parse_range_well_typed(
    toks: Seq<String>,
    line_num: usize,
    types: Seq<Type>,
    scopes: Seq<Seq<VarNode>>,
    a: int,
    b: int,
    group: nat,
)
    ensures
        parse_range(toks, line_num, types, scopes, a, b, group) matches Ok(node) ==> node.well_typed(),
    decreases b - a,
{
    if b - a == 1 {
    } else if wrapped(toks, a, b) {
        lemma_parse_range_well_typed(toks, line_num, types, scopes, a + 1, b - 1, 0);
    } else {
        lemma_rightmost_at_bounds(toks, a, b - 1, 0);
        lemma_rightmost_at_bounds(toks, a, b - 1, 1);
        match split_at(toks, a, b, group) {
            Some(k) => match operator_of(toks[k]@) {
                Some(op) => {
                    lemma_parse_range_well_typed(toks, line_num, types, scopes, a, k, 0);
                    lemma_parse_range_well_typed(toks, line_num, types, scopes, k + 1, b, group_of(op));
                    lemma_combine_well_typed(
                        op,
                        toks[k],
                        line_num,
                        parse_range(toks, line_num, types, scopes, a, k, 0),
                        parse_range(toks, line_num, types, scopes, k + 1, b, group_of(op)),
                    );
                },
                None => {},
            },
            None => {},
        }
    }
}

/// Whatever is accepted as an expression or as a statement is well typed.
pub proof fn lemma_statement_well_typed(
    toks: Seq<String>,
    line_num: usize,
    types: Seq<Type>,
    scopes: Seq<Seq<VarNode>>,
    a: int,
    b: int,
)
    ensures
        expression_of(toks, line_num, types, scopes, a, b) matches Ok(node) ==> node.well_typed(),
        statement_of(toks, line_num, types, scopes) matches Ok(node) ==> node.well_typed(),
{
    lemma_parse_range_well_typed(toks, line_num, types, scopes, a, b, 0);
    lemma_parse_range_well_typed(toks, line_num, types, scopes, 0, toks.len() as int, 0);
    lemma_parse_range_well_typed(toks, line_num, types, scopes, 2, toks.len() as int, 0);
    match statement_of(toks, line_num, types, scopes) {
        Ok(node) => {
            if first_assign(toks, 0).is_some() {
                let var = resolve(scopes, toks[0]@).unwrap();
                assert(Node::Var(var).well_typed());
                assert(node.well_typed());
            }
        },
        Err(_) => {},
    }
}

} // verus!
