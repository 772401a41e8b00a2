//! Function definitions: the header of a function and its parameter list.

use vstd::prelude::*;
use crate::ast_node::{
    binding_from, lemma_binding_from_exists, names_unique, Function, Namespace, Node, VarNode,
};
use crate::compiler_error::CompilerError;
use crate::data_type::{find_type, type_named, Type};
use crate::expression::{is_char_token, token_is};
use crate::line::Line;
use crate::tokenizer::{assert_valid_symbol, is_valid_symbol};

verus! {

/// The fewest tokens a definition can have: a type, a name, and either
/// `=` with a value or a pair of parentheses.
pub const MIN_DEF_TOKENS: usize = 4;

/// The index of the first token of the parameter list.
pub const PARAM_START_INDEX: usize = 3;

/// Whether the token after a parameter is the one its place calls for:
/// `)` at the end of the line, `,` before it.
pub open spec fn delimiter_ok(toks: Seq<String>, i: int) -> bool {
    if i == toks.len() - 1 {
        is_char_token(toks[i]@, ')')
    } else {
        is_char_token(toks[i]@, ',')
    }
}

/// How far a parameter list was read: the bindings of the scope when the
/// reading ended, and the error that ended it, if one did.
pub struct ParamsRead {
    pub bound: Seq<VarNode>,
    pub error: Option<CompilerError>,
}

/// The reading of the parameters that the tokens from `i` on declare,
/// after those in `bound`: a registered type, a well-formed name not yet
/// among the bindings and a delimiter, again and again to the end of the
/// line. What was bound before an error stays bound.
pub open spec fn params_from(
    toks: Seq<String>,
    line_num: usize,
    types: Seq<Type>,
    i: int,
    bound: Seq<VarNode>,
) -> ParamsRead
    decreases toks.len() - i,
{
    if i < 0 || i >= toks.len() {
        ParamsRead { bound, error: None }
    } else if toks.len() - i < 3 {
        ParamsRead { bound, error: Some(CompilerError::InvalidDefinition(line_num)) }
    } else {
        match type_named(types, toks[i]@) {
            None => ParamsRead {
                bound,
                error: Some(CompilerError::UndefinedType(line_num, toks[i])),
            },
            Some(param_type) => if !is_valid_symbol(toks[i + 1]@) {
                ParamsRead {
                    bound,
                    error: Some(CompilerError::InvalidSymbol(line_num, toks[i + 1])),
                }
            } else if !delimiter_ok(toks, i + 2) {
                ParamsRead {
                    bound,
                    error: Some(CompilerError::UnexpectedToken(line_num, toks[i + 2])),
                }
            } else if binding_from(bound, toks[i + 1]@, 0).is_some() {
                ParamsRead {
                    bound,
                    error: Some(CompilerError::SymbolAlreadyDefined(line_num, toks[i + 1])),
                }
            } else {
                params_from(
                    toks,
                    line_num,
                    types,
                    i + 3,
                    bound.push(VarNode { data_type: param_type, name: toks[i + 1] }),
                )
            },
        }
    }
}

/// The header `toks` has a pair of parentheses with nothing between them.
pub open spec fn no_params(toks: Seq<String>) -> bool {
    toks.len() == 4 && is_char_token(toks[3]@, ')')
}

/// The reading of the parameter list of the header `toks` into a scope
/// that holds `bound`: nothing is read if the parentheses are empty.
pub open spec fn params_after(
    toks: Seq<String>,
    line_num: usize,
    types: Seq<Type>,
    bound: Seq<VarNode>,
) -> ParamsRead {
    if no_params(toks) {
        ParamsRead { bound, error: None }
    } else {
        params_from(toks, line_num, types, 3, bound)
    }
}

/// The parameters of a function whose header is the line `toks`.
pub open spec fn params_of(toks: Seq<String>, line_num: usize, types: Seq<Type>) -> Result<
    Seq<VarNode>,
    CompilerError,
> {
    let read = params_after(toks, line_num, types, Seq::empty());
    match read.error {
        None => Ok(read.bound),
        Some(e) => Err(e),
    }
}

/// Reading parameters only adds bindings, and adds no name twice.
pub proof fn lemma_params_read(
    toks: Seq<String>,
    line_num: usize,
    types: Seq<Type>,
    i: int,
    bound: Seq<VarNode>,
)
    ensures
        params_from(toks, line_num, types, i, bound).bound.len() >= bound.len(),
        names_unique(bound) ==> names_unique(params_from(toks, line_num, types, i, bound).bound),
    decreases toks.len() - i,
{
    if 0 <= i < toks.len() && toks.len() - i >= 3 {
        match type_named(types, toks[i]@) {
            Some(param_type) => {
                if binding_from(bound, toks[i + 1]@, 0).is_none() {
                    let var = VarNode { data_type: param_type, name: toks[i + 1] };
                    lemma_binding_from_exists(bound, toks[i + 1]@, 0);
                    if names_unique(bound) {
                        assert(names_unique(bound.push(var)));
                    }
                    lemma_params_read(toks, line_num, types, i + 3, bound.push(var));
                }
            },
            None => {},
        }
    }
}

/// The parameters of a function have names of their own: a list that is
/// accepted binds no name twice.
pub proof fn lemma_params_unique(toks: Seq<String>, line_num: usize, types: Seq<Type>)
    ensures
        params_of(toks, line_num, types) matches Ok(params) ==> names_unique(params),
{
    lemma_params_read(toks, line_num, types, 3, Seq::empty());
}

/// Lets a line pass that has at least `min_tokens` tokens.
pub fn assert_has_min_tokens(min_tokens: usize, line: &Line) -> (verdict: Result<(), CompilerError>)
    ensures
        line.tokens@.len() >= min_tokens ==> verdict.is_ok(),
        line.tokens@.len() < min_tokens ==> verdict == Err::<(), CompilerError>(
            CompilerError::InvalidDefinition(line.line_num),
        ),
{
    if line.len() < min_tokens {
        Err(CompilerError::InvalidDefinition(line.line_num))
    } else {
        Ok(())
    }
}

/// Lets a name pass that `namespace` does not bind at its own level.
pub fn assert_unique_var(var_name: &String, line: &Line, namespace: &Namespace) -> (verdict: Result<
    (),
    CompilerError,
>)
    ensures
        !namespace.contains_local(var_name@) ==> verdict.is_ok(),
        namespace.contains_local(var_name@) ==> verdict == Err::<(), CompilerError>(
            CompilerError::SymbolAlreadyDefined(line.line_num, *var_name),
        ),
{
    if namespace.contains_var(var_name) {
        Err(CompilerError::SymbolAlreadyDefined(line.line_num, var_name.clone()))
    } else {
        Ok(())
    }
}

/// Lets token `i` pass if it is the delimiter its place calls for.
pub fn assert_correct_delimiter(i: usize, line: &Line) -> (verdict: Result<(), CompilerError>)
    requires
        i < line.tokens@.len(),
    ensures
        delimiter_ok(line.tokens@, i as int) ==> verdict.is_ok(),
        !delimiter_ok(line.tokens@, i as int) ==> verdict == Err::<(), CompilerError>(
            CompilerError::UnexpectedToken(line.line_num, line.tokens@[i as int]),
        ),
{
    let delimiter: char = if i == line.len() - 1 {
        ')'
    } else {
        ','
    };
    let token: &String = line.get_token(i);
    if !token_is(token, delimiter) {
        Err(CompilerError::UnexpectedToken(line.line_num, token.clone()))
    } else {
        Ok(())
    }
}

/// Hands on the type that was found under `name`, if one was.
pub fn assert_valid_type<'a>(name: &String, type_opt: Option<&'a Type>, line: &Line) -> (verdict:
    Result<&'a Type, CompilerError>)
    ensures
        type_opt matches Some(t) ==> verdict == Ok::<&'a Type, CompilerError>(t),
        type_opt.is_none() ==> verdict == Err::<&'a Type, CompilerError>(
            CompilerError::UndefinedType(line.line_num, *name),
        ),
{
    match type_opt {
        Some(t) => Ok(t),
        None => Err(CompilerError::UndefinedType(line.line_num, name.clone())),
    }
}

impl Function {
    /// Reads the parameter list of the header `line` into the function's
    /// scope, after the bindings that the scope holds already. A pair of
    /// parentheses with nothing between them leaves the function as it
    /// is. What was read before an error stays in the scope.
    pub fn parse_func_params(&mut self, line: &Line, types: &Vec<Type>) -> (done: Result<
        (),
        CompilerError,
    >)
        requires
            old(self).wf(),
        ensures
            done == match params_after(
                line.tokens@,
                line.line_num,
                types@,
                old(self).namespace.vars@,
            ).error {
                None => Ok::<(), CompilerError>(()),
                Some(e) => Err::<(), CompilerError>(e),
            },
            final(self).namespace.vars@ == params_after(
                line.tokens@,
                line.line_num,
                types@,
                old(self).namespace.vars@,
            ).bound,
            final(self).param_count - old(self).param_count == final(self).namespace.vars@.len()
                - old(self).namespace.vars@.len(),
            final(self).namespace.parent == old(self).namespace.parent,
            final(self).ret_type == old(self).ret_type,
            final(self).name == old(self).name,
            final(self).body == old(self).body,
            final(self).wf(),
            final(self).namespace.vars@.len() == old(self).namespace.vars@.len() ==> *final(self)
                == *old(self),
    {
        let total: usize = line.len();
        if total == 4 && token_is(line.get_token(PARAM_START_INDEX), ')') {
            return Ok(());
        }
        let mut i: usize = PARAM_START_INDEX;
        while i < total
            invariant
                3 <= i,
                total == line.tokens@.len(),
                self.wf(),
                self.param_count - old(self).param_count == self.namespace.vars@.len() - old(self).namespace.vars@.len(),
                self.namespace.vars@.len() >= old(self).namespace.vars@.len(),
                self.namespace.vars@.len() == old(self).namespace.vars@.len() ==> *self == *old(self),
                self.namespace.parent == old(self).namespace.parent,
                self.ret_type == old(self).ret_type,
                self.name == old(self).name,
                self.body == old(self).body,
                params_from(line.tokens@, line.line_num, types@, i as int, self.namespace.vars@)
                    == params_after(
                    line.tokens@,
                    line.line_num,
                    types@,
                    old(self).namespace.vars@,
                ),
            decreases total + 3 - i,
        {
            if total - i < 3 {
                return Err(CompilerError::InvalidDefinition(line.line_num));
            }
            let wanted_name: &String = line.get_token(i);
            let param_type_opt = find_type(types, wanted_name);
            let param_type: &Type = match assert_valid_type(wanted_name, param_type_opt, line) {
                Ok(t) => t,
                Err(e) => {
                    return Err(e);
                },
            };
            let param_name: &String = line.get_token(i + 1);
            match assert_valid_symbol(param_name, line.line_num) {
                Ok(()) => {},
                Err(e) => {
                    return Err(e);
                },
            }
            match assert_correct_delimiter(i + 2, line) {
                Ok(()) => {},
                Err(e) => {
                    return Err(e);
                },
            }
            match assert_unique_var(param_name, line, &self.namespace) {
                Ok(()) => {},
                Err(e) => {
                    return Err(e);
                },
            }
            match self.add_param(VarNode::new(param_type.clone(), param_name.clone()), line.line_num) {
                Ok(()) => {},
                Err(e) => {
                    return Err(e);
                },
            }
            i = i + 3;
        }
        Ok(())
    }
}

/// What the line `toks` declares when read as the header of a function:
/// the return type and the parameters, or nothing if the line does not
/// start with a registered type.
pub open spec fn header_of(toks: Seq<String>, line_num: usize, types: Seq<Type>) -> Result<
    Option<(Type, Seq<VarNode>)>,
    CompilerError,
> {
    if toks.len() < 4 {
        Err(CompilerError::InvalidDefinition(line_num))
    } else {
        match type_named(types, toks[0]@) {
            None => Ok(None),
            Some(ret_type) => if !is_valid_symbol(toks[1]@) {
                Err(CompilerError::InvalidSymbol(line_num, toks[1]))
            } else if !is_char_token(toks[2]@, '(') {
                Err(CompilerError::InvalidDefinition(line_num))
            } else {
                match params_of(toks, line_num, types) {
                    Ok(params) => Ok(Some((ret_type, params))),
                    Err(e) => Err(e),
                }
            },
        }
    }
}

impl Function {
    /// The function with the header `line`, which gives its name and its
    /// parameters; it has no body yet.
    pub open spec fn declared_by(&self, ret_type: Type, toks: Seq<String>, params: Seq<VarNode>) -> bool {
        &&& self.ret_type == ret_type
        &&& self.name == toks[1]
        &&& self.param_count == params.len()
        &&& self.namespace.vars@ == params
        &&& self.namespace.parent.is_none()
        &&& self.body@ == Seq::<Node>::empty()
        &&& self.wf()
    }

    /// Builds the function that the header `line` declares with the return
    /// type `ret_type`.
    pub fn create_func_def_node(ret_type: Type, line: &Line, types: &Vec<Type>) -> (made: Result<
        Function,
        CompilerError,
    >)
        requires
            line.tokens@.len() >= 4,
        ensures
            match params_of(line.tokens@, line.line_num, types@) {
                Ok(params) => made matches Ok(f) && f.declared_by(ret_type, line.tokens@, params),
                Err(e) => made == Err::<Function, CompilerError>(e),
            },
    {
        let mut func_node = Function::new(ret_type, line.get_token(1).clone());
        match func_node.parse_func_params(line, types) {
            Ok(()) => Ok(func_node),
            Err(e) => Err(e),
        }
    }

    /// Reads `line` as the header of a function. A line that does not
    /// start with a registered type is none.
    pub fn from(line: &Line, types: &Vec<Type>) -> (made: Result<Option<Function>, CompilerError>)
        ensures
            match header_of(line.tokens@, line.line_num, types@) {
                Ok(Some((ret_type, params))) => made matches Ok(Some(f)) && f.declared_by(
                    ret_type,
                    line.tokens@,
                    params,
                ),
                Ok(None) => made matches Ok(None),
                Err(e) => made == Err::<Option<Function>, CompilerError>(e),
            },
    {
        match assert_has_min_tokens(MIN_DEF_TOKENS, line) {
            Ok(()) => {},
            Err(e) => {
                return Err(e);
            },
        }
        let ret_type: Type = match find_type(types, line.get_token(0)) {
            None => {
                return Ok(None);
            },
            Some(t) => t.clone(),
        };
        match assert_valid_symbol(line.get_token(1), line.line_num) {
            Ok(()) => {},
            Err(e) => {
                return Err(e);
            },
        }
        if !token_is(line.get_token(2), '(') {
            return Err(CompilerError::InvalidDefinition(line.line_num));
        }
        match Function::create_func_def_node(ret_type, line, types) {
            Ok(f) => Ok(Some(f)),
            Err(e) => Err(e),
        }
    }
}

} // verus!
