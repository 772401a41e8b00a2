//! The typed syntax tree and the chain of lexical scopes that names are
//! resolved in.

use vstd::prelude::*;
use crate::compiler_error::CompilerError;
use crate::data_type::Type;

verus! {

/// Anything in the tree that has a resolved type.
pub trait ASTNode {
    spec fn node_type(&self) -> Type;

    fn get_type(&self) -> (t: &Type)
        ensures
            *t == self.node_type(),
    ;
}

/// The operators a binary node can carry.
#[derive(Clone, Copy, Debug, PartialEq, Eq, Structural)]
pub enum Operator {
    Add,
    Sub,
    Mul,
    Div,
    Mod,
    Assign,
}

/// A reference to a variable, and also the binding a scope keeps for it.
#[derive(Debug, PartialEq)]
pub struct VarNode {
    pub data_type: Type,
    pub name: String,
}

/// A literal, with its text as it was written.
#[derive(Debug, PartialEq)]
pub struct Literal {
    pub data_type: Type,
    pub value: String,
}

/// An operator applied to two operands; its type is that of the left one.
#[derive(Debug, PartialEq)]
pub struct BinaryOperator {
    pub data_type: Type,
    pub op: Operator,
    pub left: Box<Node>,
    pub right: Box<Node>,
}

/// A function with the scope it owns: `param_count` of the bindings of the
/// scope are its parameters, the others the variables of its body.
#[derive(Debug, PartialEq)]
pub struct Function {
    pub ret_type: Type,
    pub name: String,
    pub param_count: usize,
    pub namespace: Namespace,
    pub body: Vec<Node>,
}

/// A node of the tree.
#[derive(Debug, PartialEq)]
pub enum Node {
    Var(VarNode),
    Literal(Literal),
    Function(Function),
    Binary(BinaryOperator),
}

/// One level of lexical scope with the levels that enclose it.
#[derive(Debug, PartialEq)]
pub struct Namespace {
    pub vars: Vec<VarNode>,
    pub parent: Option<Box<Namespace>>,
}

impl Clone for VarNode {
    fn clone(&self) -> (v: Self)
        ensures
            v == *self,
    {
        VarNode { data_type: self.data_type.clone(), name: self.name.clone() }
    }
}

impl VarNode {
    pub fn new(data_type: Type, name: String) -> (v: Self)
        ensures
            v.data_type == data_type,
            v.name == name,
    {
        Self { data_type, name }
    }
}

impl ASTNode for VarNode {
    open spec fn node_type(&self) -> Type {
        self.data_type
    }

    fn get_type(&self) -> (t: &Type) {
        &self.data_type
    }
}

impl Literal {
    pub fn new(data_type: Type, value: String) -> (l: Self)
        ensures
            l.data_type == data_type,
            l.value == value,
    {
        Self { data_type, value }
    }
}

impl ASTNode for Literal {
    open spec fn node_type(&self) -> Type {
        self.data_type
    }

    fn get_type(&self) -> (t: &Type) {
        &self.data_type
    }
}

impl ASTNode for BinaryOperator {
    open spec fn node_type(&self) -> Type {
        self.data_type
    }

    fn get_type(&self) -> (t: &Type) {
        &self.data_type
    }
}

impl ASTNode for Function {
    open spec fn node_type(&self) -> Type {
        self.ret_type
    }

    fn get_type(&self) -> (t: &Type) {
        &self.ret_type
    }
}

impl ASTNode for Node {
    open spec fn node_type(&self) -> Type {
        match self {
            Node::Var(v) => v.data_type,
            Node::Literal(l) => l.data_type,
            Node::Function(f) => f.ret_type,
            Node::Binary(b) => b.data_type,
        }
    }

    fn get_type(&self) -> (t: &Type) {
        match self {
            Node::Var(v) => &v.data_type,
            Node::Literal(l) => &l.data_type,
            Node::Function(f) => &f.ret_type,
            Node::Binary(b) => &b.data_type,
        }
    }
}

impl Node {
    /// Every arithmetic node below has operands of one type and takes that
    /// type as its own, and every function below owns a scope of one
    /// level that binds no name twice, its parameters among the bindings.
    pub open spec fn well_typed(&self) -> bool
        decreases self,
    {
        match self {
            Node::Var(_) => true,
            Node::Literal(_) => true,
            Node::Function(f) => {
                &&& f.namespace.parent.is_none()
                &&& names_unique(f.namespace.vars@)
                &&& f.param_count <= f.namespace.vars@.len()
                &&& forall|i: int|
                    0 <= i < f.body@.len() ==> (#[trigger] f.body@[i]).well_typed()
            },
            Node::Binary(b) => {
                &&& b.left.well_typed()
                &&& b.right.well_typed()
                &&& b.data_type == b.left.node_type()
                &&& b.op != Operator::Assign ==> b.left.node_type().same_as(&b.right.node_type())
            },
        }
    }
}

/// The tree as a mathematical value: what a node is, apart from how it is
/// stored. A function holds the bindings of its scope, the chain of scopes
/// that its scope hangs in, if it hangs in one, and its body in order.
pub enum Tree {
    Var(VarNode),
    Literal(Literal),
    Function {
        ret_type: Type,
        name: String,
        param_count: nat,
        vars: Seq<VarNode>,
        enclosing: Option<Seq<Seq<VarNode>>>,
        body: Seq<Tree>,
    },
    Binary { data_type: Type, op: Operator, left: Box<Tree>, right: Box<Tree> },
}

impl Node {
    /// The mathematical value of this node.
    pub open spec fn tree(&self) -> Tree
        decreases self,
    {
        match self {
            Node::Var(v) => Tree::Var(*v),
            Node::Literal(l) => Tree::Literal(*l),
            Node::Function(f) => Tree::Function {
                ret_type: f.ret_type,
                name: f.name,
                param_count: f.param_count as nat,
                vars: f.namespace.vars@,
                enclosing: match f.namespace.parent {
                    Some(p) => Some(p.chain()),
                    None => None,
                },
                body: Seq::new(
                    f.body@.len(),
                    |i: int|
                        if 0 <= i < f.body@.len() {
                            f.body@[i].tree()
                        } else {
                            Tree::Var(arbitrary())
                        },
                ),
            },
            Node::Binary(b) => Tree::Binary {
                data_type: b.data_type,
                op: b.op,
                left: Box::new(b.left.tree()),
                right: Box::new(b.right.tree()),
            },
        }
    }
}

impl Tree {
    /// The resolved type of the tree.
    pub open spec fn tree_type(self) -> Type {
        match self {
            Tree::Var(v) => v.data_type,
            Tree::Literal(l) => l.data_type,
            Tree::Function { ret_type, .. } => ret_type,
            Tree::Binary { data_type, .. } => data_type,
        }
    }

    /// Every arithmetic operation in the tree has operands of one type and
    /// takes that type as its own, and every function in it owns a scope
    /// of one level that binds no name twice, its parameters among the
    /// bindings.
    pub open spec fn well_formed(self) -> bool
        decreases self,
    {
        match self {
            Tree::Var(_) => true,
            Tree::Literal(_) => true,
            Tree::Function { param_count, vars, enclosing, body, .. } => {
                &&& enclosing.is_none()
                &&& names_unique(vars)
                &&& param_count <= vars.len()
                &&& forall|i: int| 0 <= i < body.len() ==> (#[trigger] body[i]).well_formed()
            },
            Tree::Binary { data_type, op, left, right } => {
                &&& left.well_formed()
                &&& right.well_formed()
                &&& data_type == left.tree_type()
                &&& op != Operator::Assign ==> left.tree_type().same_as(&right.tree_type())
            },
        }
    }
}

/// Every tree of the run is well formed.
pub open spec fn all_well_formed(run: Seq<Tree>) -> bool {
    forall|i: int| 0 <= i < run.len() ==> (#[trigger] run[i]).well_formed()
}

/// The mathematical value of a well-typed node is well formed, and has
/// the node's type.
pub proof fn lemma_tree_of_well_typed(node: Node)
    requires
        node.well_typed(),
    ensures
        node.tree().well_formed(),
        node.tree().tree_type() == node.node_type(),
    decreases node,
{
    match node {
        Node::Var(_) => {},
        Node::Literal(_) => {},
        Node::Function(f) => {
            let body = node.tree()->Function_body;
            assert forall|i: int| 0 <= i < body.len() implies (#[trigger] body[i]).well_formed() by {
                lemma_tree_of_well_typed(f.body@[i]);
            }
        },
        Node::Binary(b) => {
            lemma_tree_of_well_typed(*b.left);
            lemma_tree_of_well_typed(*b.right);
        },
    }
}

/// The mathematical values of a run of nodes.
pub open spec fn trees(nodes: Seq<Node>) -> Seq<Tree> {
    Seq::new(nodes.len(), |i: int| nodes[i].tree())
}

impl BinaryOperator {
    /// `op` applied to `left` and `right`, with the type of `left`.
    pub fn new(op: Operator, left: Node, right: Node) -> (b: Self)
        ensures
            b.op == op,
            *b.left == left,
            *b.right == right,
            b.data_type == left.node_type(),
    {
        let data_type = left.get_type().clone();
        Self { data_type, op, left: Box::new(left), right: Box::new(right) }
    }
}

/// The first binding at or after index `from` whose name is `name`.
pub open spec fn binding_from(vars: Seq<VarNode>, name: Seq<char>, from: int) -> Option<VarNode>
    decreases vars.len() - from,
{
    if from < 0 || from >= vars.len() {
        None
    } else if vars[from].name@ == name {
        Some(vars[from])
    } else {
        binding_from(vars, name, from + 1)
    }
}

/// No two bindings share a name.
pub open spec fn names_unique(vars: Seq<VarNode>) -> bool {
    forall|i: int, j: int|
        0 <= i < j < vars.len() ==> (#[trigger] vars[i]).name@ != (#[trigger] vars[j]).name@
}

/// A binding is found exactly when some binding at or after `from` has the name.
pub proof fn lemma_binding_from_exists(vars: Seq<VarNode>, name: Seq<char>, from: int)
    requires
        0 <= from <= vars.len(),
    ensures
        binding_from(vars, name, from).is_some() <==> exists|i: int|
            from <= i < vars.len() && (#[trigger] vars[i]).name@ == name,
        binding_from(vars, name, from) matches Some(v) ==> v.name@ == name && vars.contains(v),
    decreases vars.len() - from,
{
    if from < vars.len() {
        if vars[from].name@ != name {
            lemma_binding_from_exists(vars, name, from + 1);
        }
    }
}

/// Appending a binding changes what is found for its own name only, and for
/// that name only if nothing was found before.
pub proof fn lemma_binding_from_push(vars: Seq<VarNode>, var: VarNode, name: Seq<char>, from: int)
    requires
        0 <= from <= vars.len(),
    ensures
        binding_from(vars.push(var), name, from) == match binding_from(vars, name, from) {
            Some(v) => Some(v),
            None => if var.name@ == name {
                Some(var)
            } else {
                None
            },
        },
    decreases vars.len() - from,
{
    reveal_with_fuel(binding_from, 2);
    if from < vars.len() {
        assert(vars.push(var)[from] == vars[from]);
        if vars[from].name@ != name {
            lemma_binding_from_push(vars, var, name, from + 1);
        }
    } else {
        assert(vars.push(var)[from] == var);
    }
}

/// The nearest binding of `name` in a chain of scopes, innermost first.
pub open spec fn resolve(scopes: Seq<Seq<VarNode>>, name: Seq<char>) -> Option<VarNode>
    decreases scopes.len(),
{
    if scopes.len() == 0 {
        None
    } else {
        match binding_from(scopes[0], name, 0) {
            Some(v) => Some(v),
            None => resolve(scopes.drop_first(), name),
        }
    }
}

impl View for Namespace {
    type V = Seq<Seq<VarNode>>;

    open spec fn view(&self) -> Seq<Seq<VarNode>> {
        self.chain()
    }
}

impl Namespace {
    /// The bindings of each level of the chain, innermost first.
    pub open spec fn chain(&self) -> Seq<Seq<VarNode>>
        decreases self,
    {
        match self.parent {
            Some(p) => seq![self.vars@] + p.chain(),
            None => seq![self.vars@],
        }
    }

    /// The binding of `name` at this level.
    pub open spec fn local(&self, name: Seq<char>) -> Option<VarNode> {
        binding_from(self.vars@, name, 0)
    }

    /// Whether `name` is bound at this level.
    pub open spec fn contains_local(&self, name: Seq<char>) -> bool {
        self.local(name).is_some()
    }

    /// The nearest binding of `name`: at this level, else in the enclosing levels.
    pub open spec fn lookup(&self, name: Seq<char>) -> Option<VarNode>
        decreases self,
    {
        match self.local(name) {
            Some(v) => Some(v),
            None => match self.parent {
                Some(p) => p.lookup(name),
                None => None,
            },
        }
    }

    /// How many levels enclose this one.
    pub open spec fn depth(&self) -> nat
        decreases self,
    {
        match self.parent {
            Some(p) => p.depth() + 1,
            None => 0,
        }
    }

    /// No level of the chain binds a name twice.
    pub open spec fn wf(&self) -> bool
        decreases self,
    {
        &&& names_unique(self.vars@)
        &&& match self.parent {
            Some(p) => p.wf(),
            None => true,
        }
    }

    /// An empty scope that nothing encloses.
    pub fn new() -> (ns: Self)
        ensures
            ns.vars@ == Seq::<VarNode>::empty(),
            ns.parent.is_none(),
            ns.wf(),
    {
        Self { vars: Vec::new(), parent: None }
    }

    fn find_local(&self, name: &String) -> (found: Option<&VarNode>)
        ensures
            found.is_some() == self.local(name@).is_some(),
            found matches Some(v) ==> self.local(name@) == Some(*v),
    {
        let mut i: usize = 0;
        while i < self.vars.len()
            invariant
                i <= self.vars.len(),
                binding_from(self.vars@, name@, i as int) == self.local(name@),
            decreases self.vars.len() - i,
        {
            if self.vars[i].name == *name {
                return Some(&self.vars[i]);
            }
            i = i + 1;
        }
        None
    }

    /// Whether `var_name` is bound at this level; enclosing levels do not count.
    pub fn contains_var(&self, var_name: &String) -> (found: bool)
        ensures
            found == self.contains_local(var_name@),
    {
        self.find_local(var_name).is_some()
    }

    /// The nearest binding of `var_name`, looking outward from this level.
    pub fn get_var(&self, var_name: &String) -> (found: Option<VarNode>)
        ensures
            found == self.lookup(var_name@),
        decreases self,
    {
        match self.find_local(var_name) {
            Some(var) => Some(var.clone()),
            None => match &self.parent {
                Some(parent) => parent.get_var(var_name),
                None => None,
            },
        }
    }

    /// Binds `var_node` at this level, unless its name is bound here already;
    /// bindings of the name in enclosing levels do not stand in the way.
    pub fn add_var(&mut self, var_node: VarNode, line_num: usize) -> (done: Result<
        (),
        CompilerError,
    >)
        ensures
            old(self).contains_local(var_node.name@) ==> done == Err::<(), CompilerError>(
                CompilerError::SymbolAlreadyDefined(line_num, var_node.name),
            ) && *final(self) == *old(self),
            !old(self).contains_local(var_node.name@) ==> done.is_ok() && final(self).vars@ == old(self).vars@.push(var_node) && final(self).parent == old(self).parent,
            old(self).wf() ==> final(self).wf(),
    {
        if self.contains_var(&var_node.name) {
            return Err(CompilerError::SymbolAlreadyDefined(line_num, var_node.name));
        }
        proof {
            lemma_binding_from_exists(self.vars@, var_node.name@, 0);
        }
        self.vars.push(var_node);
        Ok(())
    }
}

impl Function {
    /// The parameters are bindings of the function's own scope, which binds
    /// no name twice.
    pub open spec fn wf(&self) -> bool {
        &&& self.param_count <= self.namespace.vars@.len()
        &&& self.namespace.wf()
    }

    /// A function without parameters or body, in a scope of its own.
    pub fn new(ret_type: Type, name: String) -> (f: Self)
        ensures
            f.ret_type == ret_type,
            f.name == name,
            f.param_count == 0,
            f.namespace.vars@ == Seq::<VarNode>::empty(),
            f.namespace.parent.is_none(),
            f.body@ == Seq::<Node>::empty(),
            f.wf(),
    {
        Self { ret_type, name, param_count: 0, namespace: Namespace::new(), body: Vec::new() }
    }

    /// Binds `var` in the function's scope and counts it as a parameter.
    pub fn add_param(&mut self, var: VarNode, line_num: usize) -> (done: Result<(), CompilerError>)
        requires
            old(self).wf(),
        ensures
            old(self).namespace.contains_local(var.name@) ==> done == Err::<(), CompilerError>(
                CompilerError::SymbolAlreadyDefined(line_num, var.name),
            ) && *final(self) == *old(self),
            !old(self).namespace.contains_local(var.name@) ==> {
                &&& done.is_ok()
                &&& final(self).param_count == old(self).param_count + 1
                &&& final(self).namespace.vars@ == old(self).namespace.vars@.push(var)
                &&& final(self).namespace.parent == old(self).namespace.parent
                &&& final(self).ret_type == old(self).ret_type
                &&& final(self).name == old(self).name
                &&& final(self).body == old(self).body
            },
            final(self).wf(),
    {
        match self.namespace.add_var(var, line_num) {
            Ok(()) => {
                assert(self.namespace.vars.len() <= usize::MAX);
                self.param_count = self.param_count + 1;
                Ok(())
            },
            Err(e) => Err(e),
        }
    }

    /// Binds `var` in the function's scope.
    pub fn add_var(&mut self, var: VarNode, line_num: usize) -> (done: Result<(), CompilerError>)
        ensures
            old(self).namespace.contains_local(var.name@) ==> done == Err::<(), CompilerError>(
                CompilerError::SymbolAlreadyDefined(line_num, var.name),
            ) && *final(self) == *old(self),
            !old(self).namespace.contains_local(var.name@) ==> {
                &&& done.is_ok()
                &&& final(self).param_count == old(self).param_count
                &&& final(self).namespace.vars@ == old(self).namespace.vars@.push(var)
                &&& final(self).namespace.parent == old(self).namespace.parent
                &&& final(self).ret_type == old(self).ret_type
                &&& final(self).name == old(self).name
                &&& final(self).body == old(self).body
            },
            old(self).wf() ==> final(self).wf(),
    {
        self.namespace.add_var(var, line_num)
    }
}

/// Looking a name up in a scope is resolving it in the scope's chain.
pub proof fn lemma_lookup_is_resolve(ns: Namespace, name: Seq<char>)
    ensures
        ns.lookup(name) == resolve(ns@, name),
        ns@.len() == ns.depth() + 1,
        ns@[0] == ns.vars@,
    decreases ns,
{
    match ns.parent {
        Some(p) => {
            lemma_lookup_is_resolve(*p, name);
            assert(ns.chain() =~= seq![ns.vars@] + p.chain());
            assert(ns.chain().drop_first() =~= p.chain());
            assert(ns.chain()[0] == ns.vars@);
        },
        None => {
            assert(ns.chain().drop_first() =~= Seq::<Seq<VarNode>>::empty());
            assert(resolve(Seq::<Seq<VarNode>>::empty(), name).is_none());
        },
    }
}

/// A name bound at this level resolves to that binding, whatever the
/// enclosing levels hold; a name not bound here resolves as it does one
/// level out.
pub proof fn lemma_lookup_shadowing(inner: Namespace, name: Seq<char>)
    ensures
        inner.local(name) matches Some(v) ==> inner.lookup(name) == Some(v),
        inner.local(name).is_none() ==> inner.lookup(name) == match inner.parent {
            Some(outer) => outer.lookup(name),
            None => None,
        },
{
}

/// After a successful bind the name resolves to the new binding, and every
/// other name resolves as before.
pub proof fn lemma_lookup_after_bind(before: Namespace, after: Namespace, var: VarNode, name: Seq<char>)
    requires
        !before.contains_local(var.name@),
        after.vars@ == before.vars@.push(var),
        after.parent == before.parent,
    ensures
        after.lookup(var.name@) == Some(var),
        name != var.name@ ==> after.lookup(name) == before.lookup(name),
        before.lookup(name) matches Some(v) ==> name != var.name@ || before.local(name).is_none(),
{
    lemma_binding_from_push(before.vars@, var, var.name@, 0);
    lemma_binding_from_push(before.vars@, var, name, 0);
}

} // verus!
