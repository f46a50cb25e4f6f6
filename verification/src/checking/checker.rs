//! The checker itself: scope resolution and type checking of a statement
//! stream, emitting the final instruction sequence as it goes. Every public
//! operation's contract is stated against the ghost model in
//! [`super::model`].

use vstd::prelude::*;

use crate::parsing;
use crate::stream::Position;
use super::model::{
    check_args, check_block, check_elems, check_expr, check_program, combine_arith, declare_params,
    declare_var, expect_expr, expr_size, exprs_size, find_var_in, lemma_emit_all_assoc,
    lemma_emit_all_empty, lemma_emit_all_push, lemma_emit_one, lemma_expr_elem_size,
    lemma_expr_size_pos, lemma_step_inner_counter, lemma_step_inner_shape, lemma_step_top_counter,
    lemma_step_top_shape, lemma_stmt_elem_size, lookup_fun, lookup_var, pair_types,
    params_compatible, params_view, resolve_params, run_block, run_top_stmts, step_inner_stmt,
    step_top_stmt, stmt_ids, stmt_size, stmts_ids, top_level_supported, Model,
};
use super::model;
use super::{
    res_like, str_eq_string, Failure, FailureV, FnDefV, FunctionDef, Id, Instruction, Scope, Type,
    Value, VarDefV, VariableDef,
};

verus! {

/// Perform scoping and type checking on a stream of parsed statements,
/// yielding the checked program's instructions or the first failure.
///
/// Top-level variable declarations are an unimplemented extension point
/// and must not appear in the stream.
pub fn input(stmts: Vec<parsing::Statement>) -> (r: Result<Vec<Instruction>, Failure>)
    requires
        top_level_supported(stmts@),
        stmts_ids(stmts@) <= usize::MAX,
    ensures
        match (r, check_program(stmts@)) {
            (Ok(ir), Ok(ir_spec)) => ir@ == ir_spec,
            (Err(e), Err(f)) => e@ == f,
            _ => false,
        },
{
    Checker::new().execute(stmts)
}

impl Scope {
    /// First variable of this scope carrying the given name.
    pub fn find_variable_def(&self, ident: &str) -> (r: Option<&VariableDef>)
        ensures
            match r {
                Some(d) => find_var_in(self@, ident@) == Some(d@),
                None => find_var_in(self@, ident@) is None,
            },
    {
        let ghost s = self@;
        let mut i: usize = 0;
        while i < self.variables.len()
            invariant
                0 <= i <= self.variables.len(),
                s == self@,
                s.len() == self.variables.len(),
                forall|j: int| 0 <= j < i ==> #[trigger] s[j].name != ident@,
            decreases self.variables.len() - i,
        {
            if str_eq_string(ident, &self.variables[i].identifier) {
                proof {
                    lemma_find_var_in_skip(s, ident@, i as int);
                    assert(s.subrange(i as int, s.len() as int)[0] == s[i as int]);
                }
                return Some(&self.variables[i]);
            }
            i = i + 1;
        }
        proof {
            lemma_find_var_in_skip(s, ident@, s.len() as int);
        }
        None
    }
}

/// Skipping a prefix of a scope in which no variable carries the name does
/// not change what a search for that name finds.
proof fn lemma_find_var_in_skip(s: Seq<VarDefV>, name: Seq<char>, i: int)
    requires
        0 <= i <= s.len(),
        forall|j: int| 0 <= j < i ==> #[trigger] s[j].name != name,
    ensures
        find_var_in(s, name) == find_var_in(s.subrange(i, s.len() as int), name),
    decreases i,
{
    if i == 0 {
        assert(s.subrange(0, s.len() as int) =~= s);
    } else {
        assert(s[0].name != name);
        lemma_find_var_in_skip(s.drop_first(), name, i - 1);
        assert(s.drop_first().subrange(i - 1, s.drop_first().len() as int) =~= s.subrange(
            i,
            s.len() as int,
        ));
    }
}

/// Skipping inner scopes in which the name is not declared does not change
/// what a lookup across the scope stack finds.
proof fn lemma_lookup_var_skip(scopes: Seq<Seq<VarDefV>>, name: Seq<char>, i: int)
    requires
        0 <= i <= scopes.len(),
        forall|j: int| i <= j < scopes.len() ==> find_var_in(#[trigger] scopes[j], name) is None,
    ensures
        lookup_var(scopes, name) == lookup_var(scopes.subrange(0, i), name),
    decreases scopes.len() - i,
{
    if i == scopes.len() {
        assert(scopes.subrange(0, i) =~= scopes);
    } else {
        assert(find_var_in(scopes[scopes.len() - 1], name) is None);
        lemma_lookup_var_skip(scopes.drop_last(), name, i);
        assert(scopes.drop_last().subrange(0, i) =~= scopes.subrange(0, i));
    }
}

/// Skipping a prefix of the function table in which no signature fits does
/// not change what a function lookup finds.
proof fn lemma_lookup_fun_skip(fns: Seq<FnDefV>, name: Seq<char>, args: Seq<Type>, i: int)
    requires
        0 <= i <= fns.len(),
        forall|j: int| 0 <= j < i ==> !((#[trigger] fns[j]).name == name && params_compatible(
            fns[j].params,
            args,
        )),
    ensures
        lookup_fun(fns, name, args) == lookup_fun(fns.subrange(i, fns.len() as int), name, args),
    decreases i,
{
    if i == 0 {
        assert(fns.subrange(0, fns.len() as int) =~= fns);
    } else {
        assert(!(fns[0].name == name && params_compatible(fns[0].params, args)));
        lemma_lookup_fun_skip(fns.drop_first(), name, args, i - 1);
        assert(fns.drop_first().subrange(i - 1, fns.drop_first().len() as int) =~= fns.subrange(
            i,
            fns.len() as int,
        ));
    }
}

/// Performs scoping and type checking on parsed statements, accumulating
/// the program's final instruction sequence as it goes.
pub struct Checker {
    /// All function definitions, in definition order.
    functions: Vec<FunctionDef>,
    /// The scope stack; the scope at the end is the innermost one.
    scopes: Vec<Scope>,
    /// The instructions emitted so far.
    final_ir: Vec<Instruction>,
    /// Counter for creating unique ids: advanced on every mint, never
    /// reset within one compilation run.
    id_counter: Id,
}

impl View for Checker {
    type V = Model;

    closed spec fn view(&self) -> Model {
        Model {
            scopes: self.scopes@.map_values(|s: Scope| s@),
            functions: self.functions@.map_values(|f: FunctionDef| f@),
            ir: self.final_ir@,
            counter: self.id_counter as nat,
        }
    }
}

impl Checker {
    /// A checker with no scopes, no functions and nothing emitted.
    pub fn new() -> (c: Checker)
        ensures
            c@ == Model::init(),
    {
        let c = Checker {
            functions: Vec::new(),
            scopes: Vec::new(),
            final_ir: Vec::new(),
            id_counter: 0,
        };
        proof {
            assert(c@.scopes =~= Model::init().scopes);
            assert(c@.functions =~= Model::init().functions);
        }
        c
    }

    /// Mint the next id: yield the counter's value and advance it. The
    /// counter must have headroom left — a machine limit, not a rule of the
    /// language.
    pub fn new_id(&mut self) -> (id: Id)
        requires
            old(self)@.counter < usize::MAX,
        ensures
            id == old(self)@.mint(),
            final(self)@ == old(self)@.bump(),
    {
        let id = self.id_counter;
        self.id_counter = self.id_counter + 1;
        id
    }

    /// Introduce a new, innermost scope at the end of the scope stack.
    pub fn begin_new_scope(&mut self)
        ensures
            final(self)@ == old(self)@.push_scope(),
    {
        let empty_scope = Scope { variables: Vec::new() };
        proof {
            assert(empty_scope@ =~= Seq::<VarDefV>::empty());
        }
        self.scopes.push(empty_scope);
        proof {
            assert(final(self)@.scopes =~~= old(self)@.push_scope().scopes);
        }
    }

    /// Remove the innermost scope from the scope stack; with no scope open
    /// this changes nothing.
    pub fn end_scope(&mut self)
        ensures
            final(self)@ == old(self)@.pop_scope(),
    {
        let _popped = self.scopes.pop();
        proof {
            if old(self).scopes@.len() > 0 {
                assert(final(self)@.scopes =~= old(self)@.pop_scope().scopes);
            } else {
                assert(final(self)@.scopes =~= old(self)@.pop_scope().scopes);
            }
        }
    }

    /// The current innermost scope. The scope stack must not be empty.
    pub fn get_inner_scope(&self) -> (s: &Scope)
        requires
            self@.scopes.len() > 0,
        ensures
            s@ == self@.scopes.last(),
    {
        &self.scopes[self.scopes.len() - 1]
    }

    /// Record a function definition in the global function table.
    pub fn add_function_def(
        &mut self,
        identifier: String,
        parameter_types: Vec<Type>,
        return_type: Option<Type>,
        id: Id,
    )
        ensures
            final(self)@ == (Model {
                functions: old(self)@.functions.push(
                    FnDefV {
                        name: identifier@,
                        params: parameter_types@,
                        ret: return_type,
                        id: id,
                    },
                ),
                ..old(self)@
            }),
    {
        let ghost def_v = FnDefV {
            name: identifier@,
            params: parameter_types@,
            ret: return_type,
            id: id,
        };
        self.functions.push(FunctionDef { identifier, parameter_types, return_type, id });
        proof {
            assert(final(self)@.functions =~= old(self)@.functions.push(def_v));
        }
    }

    /// Add a variable to the innermost scope under a freshly minted id,
    /// returning the id. The caller records the matching allocation or
    /// parameter binding instruction. The scope stack must not be empty,
    /// and the id counter must have headroom left.
    pub fn add_variable_def_to_inner_scope(
        &mut self,
        identifier: String,
        var_type: Type,
        initialised: bool,
    ) -> (id: Id)
        requires
            old(self)@.scopes.len() > 0,
            old(self)@.counter < usize::MAX,
        ensures
            (final(self)@, id) == declare_var(old(self)@, identifier@, var_type, initialised),
    {
        let id = self.new_id();
        let ghost def_v = VarDefV { name: identifier@, typ: var_type, id: id, initialised };
        let mut scope = self.scopes.pop().unwrap();
        let ghost scope_v = scope@;
        scope.variables.push(VariableDef { identifier, var_type, id, initialised });
        proof {
            assert(scope_v == old(self)@.scopes.last());
            assert(scope@ =~= scope_v.push(def_v));
        }
        self.scopes.push(scope);
        proof {
            let m0 = old(self)@;
            assert(final(self)@.scopes =~~= m0.scopes.update(
                m0.scopes.len() - 1,
                m0.scopes.last().push(def_v),
            ));
        }
        id
    }

    /// Search the accessible scopes, innermost first, for a variable with
    /// the given identifier; first match wins, so inner declarations shadow
    /// outer ones.
    pub fn variable_lookup(&self, ident: &str, strm_pos: &Position) -> (r: Result<
        &VariableDef,
        Failure,
    >)
        ensures
            match r {
                Ok(d) => lookup_var(self@.scopes, ident@) == Some(d@),
                Err(e) => {
                    &&& lookup_var(self@.scopes, ident@) is None
                    &&& e@ == super::FailureV::VariableNotInScope(*strm_pos, ident@)
                },
            },
    {
        let ghost ss = self@.scopes;
        let mut idx: usize = self.scopes.len();
        while idx > 0
            invariant
                0 <= idx <= self.scopes.len(),
                ss == self@.scopes,
                ss.len() == self.scopes.len(),
                forall|j: int| idx <= j < ss.len() ==> find_var_in(#[trigger] ss[j], ident@) is None,
            decreases idx,
        {
            idx = idx - 1;
            let found = self.scopes[idx].find_variable_def(ident);
            match found {
                Some(d) => {
                    proof {
                        lemma_lookup_var_skip(ss, ident@, idx + 1);
                        assert(ss.subrange(0, idx + 1).last() == ss[idx as int]);
                        assert(ss.subrange(0, idx + 1).drop_last() =~= ss.subrange(0, idx as int));
                    }
                    return Ok(d);
                },
                None => {},
            }
        }
        proof {
            lemma_lookup_var_skip(ss, ident@, 0);
        }
        Err(Failure::VariableNotInScope(strm_pos.clone(), ident.to_owned()))
    }

    /// Whether an argument type list fits a parameter type list.
    fn params_match(params: &Vec<Type>, args: &[Type]) -> (r: bool)
        ensures
            r == params_compatible(params@, args@),
    {
        if params.len() != args.len() {
            return false;
        }
        let mut i: usize = 0;
        while i < params.len()
            invariant
                0 <= i <= params@.len(),
                params@.len() == args@.len(),
                forall|j: int| 0 <= j < i ==> super::spec_compatible(#[trigger] params@[j], args@[j]),
            decreases params@.len() - i,
        {
            if !params[i].compatible(&args[i]) {
                return false;
            }
            i = i + 1;
        }
        true
    }

    /// Search the function table for a definition whose name and parameter
    /// types fit the given call; the earliest definition wins. The match is
    /// exact up to the empty-array placeholder, which fits any array-typed
    /// parameter (see [`params_compatible`]).
    pub fn function_lookup(&self, ident: &str, params: &[Type], strm_pos: &Position) -> (r: Result<
        &FunctionDef,
        Failure,
    >)
        ensures
            match r {
                Ok(d) => lookup_fun(self@.functions, ident@, params@) == Some(d@),
                Err(e) => {
                    &&& lookup_fun(self@.functions, ident@, params@) is None
                    &&& e@ == super::FailureV::FunctionUndefined(*strm_pos, ident@, params@)
                },
            },
    {
        let ghost fs = self@.functions;
        let mut i: usize = 0;
        while i < self.functions.len()
            invariant
                0 <= i <= self.functions.len(),
                fs == self@.functions,
                fs.len() == self.functions.len(),
                forall|j: int| 0 <= j < i ==> !((#[trigger] fs[j]).name == ident@
                    && params_compatible(fs[j].params, params@)),
            decreases self.functions.len() - i,
        {
            let def = &self.functions[i];
            if str_eq_string(ident, &def.identifier) && Self::params_match(
                &def.parameter_types,
                params,
            ) {
                proof {
                    lemma_lookup_fun_skip(fs, ident@, params@, i as int);
                    assert(fs.subrange(i as int, fs.len() as int)[0] == fs[i as int]);
                }
                return Ok(def);
            }
            i = i + 1;
        }
        proof {
            lemma_lookup_fun_skip(fs, ident@, params@, fs.len() as int);
        }
        Err(
            Failure::FunctionUndefined(
                strm_pos.clone(),
                ident.to_owned(),
                slice_to_type_vec(params),
            ),
        )
    }
}

/// Copy a borrowed slice of types into an owned vector.
fn slice_to_type_vec(ts: &[Type]) -> (r: Vec<Type>)
    ensures
        r@ == ts@,
{
    let mut r: Vec<Type> = Vec::new();
    let mut i: usize = 0;
    while i < ts.len()
        invariant
            0 <= i <= ts@.len(),
            r@ =~= ts@.subrange(0, i as int),
        decreases ts@.len() - i,
    {
        r.push(ts[i].clone());
        i = i + 1;
    }
    proof {
        assert(r@ =~= ts@);
    }
    r
}

/// Clone an optional semantic type, preserving it exactly.
fn clone_opt_type(o: &Option<Type>) -> (r: Option<Type>)
    ensures
        r == *o,
{
    match o {
        Some(t) => Some(t.clone()),
        None => None,
    }
}

impl Checker {
    /// Append one instruction to the final output.
    fn emit(&mut self, ins: Instruction)
        ensures
            final(self)@ == old(self)@.emit(ins),
    {
        self.final_ir.push(ins);
        proof {
            assert(final(self)@.ir =~= old(self)@.emit(ins).ir);
        }
    }

    /// Check an expression, emit the instructions that compute its value,
    /// and yield its static type together with its source position.
    #[verifier::loop_isolation(false)]
    pub fn eval_expr(&mut self, expr: parsing::Expression) -> (r: Result<(Type, Position), Failure>)
        ensures
            ({
                let out = check_expr(old(self)@.env(), expr);
                &&& final(self)@ == old(self)@.emit_all(out.emitted)
                &&& res_like(r, out.result)
            }),
        decreases expr_size(expr), 0nat,
    {
        let ghost m0 = self@;
        let ghost env0 = self@.env();
        let ghost expr0 = expr;
        match expr {
            parsing::Expression::NumberLiteral { pos, value } => {
                self.emit(Instruction::Push(Value::Num(value)));
                proof {
                    lemma_emit_one(m0, Instruction::Push(Value::Num(value)));
                }
                Ok((Type::Num, pos))
            },
            parsing::Expression::BooleanLiteral { pos, value } => {
                self.emit(Instruction::Push(Value::Bool(value)));
                proof {
                    lemma_emit_one(m0, Instruction::Push(Value::Bool(value)));
                }
                Ok((Type::Bool, pos))
            },
            parsing::Expression::CharLiteral { pos, value } => {
                self.emit(Instruction::Push(Value::Char(value)));
                proof {
                    lemma_emit_one(m0, Instruction::Push(Value::Char(value)));
                }
                Ok((Type::Char, pos))
            },
            parsing::Expression::StringLiteral { pos, value } => {
                // A string literal is an array of characters: one constant
                // push for each character, in order.
                let n = value.as_str().unicode_len();
                let mut i: usize = 0;
                proof {
                    lemma_emit_all_empty(m0);
                    assert(value@.subrange(0, 0) =~= Seq::<char>::empty());
                }
                while i < n
                    invariant
                        n == value@.len(),
                        0 <= i <= n,
                        self@ == m0.emit_all(model::string_pushes(value@.subrange(0, i as int))),
                    decreases n - i,
                {
                    let ghost before = model::string_pushes(value@.subrange(0, i as int));
                    let c = value.as_str().get_char(i);
                    proof {
                        assert(c == value@[i as int]);
                    }
                    self.emit(Instruction::Push(Value::Char(c)));
                    proof {
                        lemma_emit_all_push(m0, before, Instruction::Push(Value::Char(c)));
                        let next = value@.subrange(0, i + 1);
                        assert(next.drop_last() =~= value@.subrange(0, i as int));
                        assert(next.last() == value@[i as int]);
                        assert(model::string_pushes(next) == before.push(
                            Instruction::Push(Value::Char(c)),
                        ));
                    }
                    i = i + 1;
                }
                proof {
                    assert(value@.subrange(0, n as int) =~= value@);
                }
                Ok((Type::Array(Box::new(Type::Char)), pos))
            },
            parsing::Expression::Array { pos, elements } => {
                let ghost elems0 = elements@;
                if elements.len() == 0 {
                    proof {
                        lemma_emit_all_empty(m0);
                    }
                    Ok((Type::Array(Box::new(Type::Any)), pos))
                } else {
                    let mut remaining = elements;
                    let first = remaining.remove(0);
                    proof {
                        assert(first == elems0[0]);
                        assert(remaining@ =~= elems0.drop_first());
                        lemma_expr_elem_size(elems0, 0);
                    }
                    let elem_t = match self.eval_expr(first) {
                        Ok((t, _p)) => t,
                        Err(e) => {
                            return Err(e);
                        },
                    };
                    let ghost first_emitted = check_expr(env0, elems0[0]).emitted;
                    let ghost mut em: Seq<Instruction> = first_emitted;
                    proof {
                        assert(expr_size(expr0) == 1 + exprs_size(elems0));
                        assert forall|k: int|
                            0 <= k < remaining@.len() implies expr_size(
                            #[trigger] remaining@[k],
                        ) < expr_size(expr0) by {
                            assert(remaining@[k] == elems0[k + 1]);
                            lemma_expr_elem_size(elems0, k + 1);
                        };
                    }
                    while remaining.len() > 0
                        invariant
                            self@ == m0.emit_all(em),
                            check_elems(env0, elems0.drop_first(), elem_t, first_emitted)
                                == check_elems(env0, remaining@, elem_t, em),
                            forall|k: int| 0 <= k < remaining@.len() ==> expr_size(
                                #[trigger] remaining@[k],
                            ) < expr_size(expr0),
                        decreases remaining@.len(),
                    {
                        let ghost rem0 = remaining@;
                        let ghost em_prev = em;
                        let el = remaining.remove(0);
                        proof {
                            assert(el == rem0[0]);
                            assert(remaining@ =~= rem0.drop_first());
                        }
                        let ghost m_before = self@;
                        match self.expect_expr_type(el, elem_t.clone()) {
                            Ok(_p) => {
                                proof {
                                    let out = expect_expr(env0, rem0[0], elem_t);
                                    em = em_prev + out.emitted;
                                    lemma_emit_all_assoc(m0, em_prev, out.emitted);
                                }
                            },
                            Err(e) => {
                                proof {
                                    let out = expect_expr(env0, rem0[0], elem_t);
                                    lemma_emit_all_assoc(m0, em_prev, out.emitted);
                                }
                                return Err(e);
                            },
                        }
                    }
                    Ok((Type::Array(Box::new(elem_t)), pos))
                }
            },
            parsing::Expression::Variable { pos, identifier } => {
                let (var_type, id) = {
                    match self.variable_lookup(identifier.as_str(), &pos) {
                        Ok(def) => (def.var_type.clone(), def.id),
                        Err(e) => {
                            proof {
                                lemma_emit_all_empty(m0);
                            }
                            return Err(e);
                        },
                    }
                };
                self.emit(Instruction::Push(Value::Variable(id)));
                proof {
                    lemma_emit_one(m0, Instruction::Push(Value::Variable(id)));
                }
                Ok((var_type, pos))
            },
            parsing::Expression::FunctionCall { pos, identifier, args } => {
                let ghost args0 = args@;
                let mut remaining = args;
                let mut arg_types: Vec<Type> = Vec::new();
                let ghost mut em: Seq<Instruction> = Seq::empty();
                proof {
                    lemma_emit_all_empty(m0);
                    assert(arg_types@ =~= Seq::<Type>::empty());
                    assert(remaining@ == args0);
                    assert(expr_size(expr0) == 1 + exprs_size(args0));
                    assert forall|k: int|
                        0 <= k < remaining@.len() implies expr_size(#[trigger] remaining@[k])
                        < expr_size(expr0) by {
                        lemma_expr_elem_size(args0, k);
                    };
                }
                while remaining.len() > 0
                    invariant
                        self@ == m0.emit_all(em),
                        check_args(env0, args0, Seq::empty(), Seq::empty()) == check_args(
                            env0,
                            remaining@,
                            arg_types@,
                            em,
                        ),
                        forall|k: int| 0 <= k < remaining@.len() ==> expr_size(
                            #[trigger] remaining@[k],
                        ) < expr_size(expr0),
                    decreases remaining@.len(),
                {
                    let ghost rem0 = remaining@;
                    let ghost em_prev = em;
                    let ghost types_prev = arg_types@;
                    let arg = remaining.remove(0);
                    proof {
                        assert(arg == rem0[0]);
                        assert(remaining@ =~= rem0.drop_first());
                    }
                    match self.eval_expr(arg) {
                        Ok((t, _p)) => {
                            arg_types.push(t);
                            proof {
                                let out = check_expr(env0, rem0[0]);
                                em = em_prev + out.emitted;
                                lemma_emit_all_assoc(m0, em_prev, out.emitted);
                            }
                        },
                        Err(e) => {
                            proof {
                                let out = check_expr(env0, rem0[0]);
                                lemma_emit_all_assoc(m0, em_prev, out.emitted);
                            }
                            return Err(e);
                        },
                    }
                }
                let (opt_ret, fid) = {
                    match self.function_lookup(identifier.as_str(), arg_types.as_slice(), &pos) {
                        Ok(def) => (clone_opt_type(&def.return_type), def.id),
                        Err(e) => {
                            return Err(e);
                        },
                    }
                };
                match opt_ret {
                    Some(ret_type) => {
                        self.emit(Instruction::CallExpectingValue(fid));
                        proof {
                            lemma_emit_all_push(m0, em, Instruction::CallExpectingValue(fid));
                        }
                        Ok((ret_type, pos))
                    },
                    None => {
                        self.emit(Instruction::CallExpectingVoid(fid));
                        proof {
                            lemma_emit_all_push(m0, em, Instruction::CallExpectingVoid(fid));
                        }
                        Err(Failure::VoidFunctionInExpr(pos, identifier, arg_types))
                    },
                }
            },
            parsing::Expression::Add(l, r) => {
                match self.eval_arithmetic_expr(*l, *r, Instruction::Add) {
                    Ok(p) => Ok((Type::Num, p)),
                    Err(e) => Err(e),
                }
            },
            parsing::Expression::Subtract(l, r) => {
                match self.eval_arithmetic_expr(*l, *r, Instruction::Subtract) {
                    Ok(p) => Ok((Type::Num, p)),
                    Err(e) => Err(e),
                }
            },
            parsing::Expression::Multiply(l, r) => {
                match self.eval_arithmetic_expr(*l, *r, Instruction::Multiply) {
                    Ok(p) => Ok((Type::Num, p)),
                    Err(e) => Err(e),
                }
            },
            parsing::Expression::Divide(l, r) => {
                match self.eval_arithmetic_expr(*l, *r, Instruction::Divide) {
                    Ok(p) => Ok((Type::Num, p)),
                    Err(e) => Err(e),
                }
            },
            parsing::Expression::GreaterThan(l, r) => {
                match self.eval_arithmetic_expr(*l, *r, Instruction::GreaterThan) {
                    Ok(p) => Ok((Type::Bool, p)),
                    Err(e) => Err(e),
                }
            },
            parsing::Expression::LessThan(l, r) => {
                match self.eval_arithmetic_expr(*l, *r, Instruction::LessThan) {
                    Ok(p) => Ok((Type::Bool, p)),
                    Err(e) => Err(e),
                }
            },
            parsing::Expression::Equal(l, r) => {
                let ghost l0 = *l;
                let ghost r0 = *r;
                let (left_type, strm_pos) = match self.eval_expr(*l) {
                    Ok(tp) => tp,
                    Err(e) => {
                        return Err(e);
                    },
                };
                let ghost lout = check_expr(env0, l0);
                let (right_type, _rp) = match self.eval_expr(*r) {
                    Ok(tp) => tp,
                    Err(e) => {
                        proof {
                            lemma_emit_all_assoc(
                                m0,
                                lout.emitted,
                                check_expr(env0, r0).emitted,
                            );
                        }
                        return Err(e);
                    },
                };
                proof {
                    lemma_emit_all_assoc(m0, lout.emitted, check_expr(env0, r0).emitted);
                }
                if left_type.compatible(&right_type) {
                    self.emit(Instruction::Equals);
                    proof {
                        let re = check_expr(env0, r0).emitted;
                        lemma_emit_all_push(m0, lout.emitted + re, Instruction::Equals);
                        assert(lout.emitted + re + seq![Instruction::Equals] =~= (lout.emitted
                            + re).push(Instruction::Equals));
                    }
                    Ok((Type::Bool, strm_pos))
                } else {
                    Err(
                        Failure::UnexpectedType {
                            pos: strm_pos,
                            expected: left_type,
                            encountered: right_type,
                        },
                    )
                }
            },
            parsing::Expression::BooleanNot(inner) => {
                let ghost inner0 = *inner;
                let strm_pos = match self.expect_expr_type(*inner, Type::Bool) {
                    Ok(p) => p,
                    Err(e) => {
                        return Err(e);
                    },
                };
                self.emit(Instruction::Not);
                proof {
                    lemma_emit_all_push(
                        m0,
                        expect_expr(env0, inner0, Type::Bool).emitted,
                        Instruction::Not,
                    );
                }
                Ok((Type::Bool, strm_pos))
            },
            parsing::Expression::UnaryMinus(inner) => {
                // No negate opcode: lowered as push(0); operand; subtract.
                let ghost inner0 = *inner;
                self.emit(Instruction::Push(Value::Num(0)));
                proof {
                    lemma_emit_one(m0, Instruction::Push(Value::Num(0)));
                }
                let ghost zero = seq![Instruction::Push(Value::Num(0))];
                let strm_pos = match self.expect_expr_type(*inner, Type::Num) {
                    Ok(p) => p,
                    Err(e) => {
                        proof {
                            lemma_emit_all_assoc(
                                m0,
                                zero,
                                expect_expr(env0, inner0, Type::Num).emitted,
                            );
                        }
                        return Err(e);
                    },
                };
                self.emit(Instruction::Subtract);
                proof {
                    let oe = expect_expr(env0, inner0, Type::Num).emitted;
                    lemma_emit_all_assoc(m0, zero, oe);
                    lemma_emit_all_push(m0, zero + oe, Instruction::Subtract);
                    assert(zero + oe + seq![Instruction::Subtract] =~= (zero + oe).push(
                        Instruction::Subtract,
                    ));
                }
                Ok((Type::Num, strm_pos))
            },
        }
    }

    /// Check that both operands of a numeric binary operator are `Num`,
    /// emit their instructions followed by the opcode, and yield the left
    /// operand's position.
    pub fn eval_arithmetic_expr(
        &mut self,
        left: parsing::Expression,
        right: parsing::Expression,
        instruction: Instruction,
    ) -> (r: Result<Position, Failure>)
        ensures
            ({
                let c = combine_arith(
                    expect_expr(old(self)@.env(), left, Type::Num),
                    expect_expr(old(self)@.env(), right, Type::Num),
                    instruction,
                );
                &&& final(self)@ == old(self)@.emit_all(c.emitted)
                &&& res_like(r, c.result)
            }),
        decreases expr_size(left) + expr_size(right), 2nat,
    {
        let ghost m0 = self@;
        let ghost env0 = self@.env();
        let ghost left0 = left;
        let ghost right0 = right;
        proof {
            lemma_expr_size_pos(left);
            lemma_expr_size_pos(right);
        }
        let strm_pos = match self.expect_expr_type(left, Type::Num) {
            Ok(p) => p,
            Err(e) => {
                return Err(e);
            },
        };
        let ghost lout = expect_expr(env0, left0, Type::Num);
        match self.expect_expr_type(right, Type::Num) {
            Ok(_p) => {},
            Err(e) => {
                proof {
                    lemma_emit_all_assoc(
                        m0,
                        lout.emitted,
                        expect_expr(env0, right0, Type::Num).emitted,
                    );
                }
                return Err(e);
            },
        }
        self.emit(instruction);
        proof {
            let re = expect_expr(env0, right0, Type::Num).emitted;
            lemma_emit_all_assoc(m0, lout.emitted, re);
            lemma_emit_all_push(m0, lout.emitted + re, instruction);
            assert(lout.emitted + re + seq![instruction] =~= (lout.emitted + re).push(
                instruction,
            ));
        }
        Ok(strm_pos)
    }

    /// Check an expression and demand that its type be compatible with an
    /// expected one; yield the expression's position.
    pub fn expect_expr_type(&mut self, expr: parsing::Expression, expected: Type) -> (r: Result<
        Position,
        Failure,
    >)
        ensures
            ({
                let out = expect_expr(old(self)@.env(), expr, expected);
                &&& final(self)@ == old(self)@.emit_all(out.emitted)
                &&& res_like(r, out.result)
            }),
        decreases expr_size(expr), 1nat,
    {
        let (expr_type, strm_pos) = match self.eval_expr(expr) {
            Ok(tp) => tp,
            Err(e) => {
                return Err(e);
            },
        };
        if expected.compatible(&expr_type) {
            Ok(strm_pos)
        } else {
            Err(
                Failure::UnexpectedType { pos: strm_pos, expected, encountered: expr_type },
            )
        }
    }
}

/// Clone a vector of semantic types, preserving it exactly.
fn clone_types(v: &Vec<Type>) -> (r: Vec<Type>)
    ensures
        r@ == v@,
{
    let mut r: Vec<Type> = Vec::new();
    let mut i: usize = 0;
    while i < v.len()
        invariant
            0 <= i <= v@.len(),
            r@ =~= v@.subrange(0, i as int),
        decreases v@.len() - i,
    {
        r.push(v[i].clone());
        i = i + 1;
    }
    proof {
        assert(r@ =~= v@);
    }
    r
}

impl Checker {
    /// Check one statement within a function body, emitting its
    /// instructions. Yields the type and position of a `return` found in
    /// it, bubbled up from nested blocks as well. At least one scope must
    /// be open.
    #[verifier::loop_isolation(false)]
    pub fn eval_inner_stmt(&mut self, stmt: parsing::Statement) -> (r: Result<
        Option<(Type, Position)>,
        Failure,
    >)
        requires
            old(self)@.scopes.len() > 0,
            old(self)@.counter + stmt_ids(stmt) <= usize::MAX,
        ensures
            ({
                let st = step_inner_stmt(old(self)@, stmt);
                &&& final(self)@ == st.m
                &&& res_like(r, st.result)
            }),
        decreases stmt_size(stmt), 0nat,
    {
        let ghost m0 = self@;
        match stmt {
            parsing::Statement::Return(value) => match value {
                Some(expr) => {
                    let (ret_type, pos) = match self.eval_expr(expr) {
                        Ok(tp) => tp,
                        Err(e) => {
                            return Err(e);
                        },
                    };
                    self.emit(Instruction::ReturnValue);
                    Ok(Some((ret_type, pos)))
                },
                None => {
                    self.emit(Instruction::ReturnVoid);
                    Ok(None)
                },
            },
            parsing::Statement::While { condition, block } => {
                let block_end_id = self.new_id();
                self.emit(Instruction::Jump(block_end_id));
                let start_id = self.new_id();
                self.emit(Instruction::Label(start_id));
                let block_ret_type = match self.eval_block(block, Vec::new()) {
                    Ok(rt) => rt,
                    Err(e) => {
                        proof {
                            assert(params_view(Seq::<(String, Type)>::empty())
                                =~= Seq::<(Seq<char>, Type)>::empty());
                        }
                        return Err(e);
                    },
                };
                proof {
                    assert(params_view(Seq::<(String, Type)>::empty()) =~= Seq::<
                        (Seq<char>, Type),
                    >::empty());
                }
                self.emit(Instruction::Label(block_end_id));
                let pos = match self.expect_expr_type(condition, Type::Bool) {
                    Ok(p) => p,
                    Err(e) => {
                        return Err(e);
                    },
                };
                self.emit(Instruction::JumpIfTrue(start_id));
                Ok(
                    match block_ret_type {
                        Some(ret_type) => Some((ret_type, pos)),
                        None => None,
                    },
                )
            },
            parsing::Statement::If { condition, block } => {
                let skip_block_id = self.new_id();
                let pos = match self.expect_expr_type(condition, Type::Bool) {
                    Ok(p) => p,
                    Err(e) => {
                        return Err(e);
                    },
                };
                self.emit(Instruction::JumpIfFalse(skip_block_id));
                let block_ret_type = match self.eval_block(block, Vec::new()) {
                    Ok(rt) => rt,
                    Err(e) => {
                        proof {
                            assert(params_view(Seq::<(String, Type)>::empty())
                                =~= Seq::<(Seq<char>, Type)>::empty());
                        }
                        return Err(e);
                    },
                };
                proof {
                    assert(params_view(Seq::<(String, Type)>::empty()) =~= Seq::<
                        (Seq<char>, Type),
                    >::empty());
                }
                self.emit(Instruction::Label(skip_block_id));
                Ok(
                    match block_ret_type {
                        Some(ret_type) => Some((ret_type, pos)),
                        None => None,
                    },
                )
            },
            parsing::Statement::VariableDeclaration { identifier, var_type, value } => {
                let checked_type = match Type::from_identifier(&var_type) {
                    Ok(t) => t,
                    Err(e) => {
                        return Err(e);
                    },
                };
                let existing = {
                    let scope = self.get_inner_scope();
                    match scope.find_variable_def(identifier.as_str()) {
                        Some(def) => Some((def.var_type.clone(), def.id)),
                        None => None,
                    }
                };
                let var_id = match existing {
                    Some((existing_type, existing_id)) => {
                        // Redeclaration in the same scope: allowed only at
                        // the same type; the existing id is kept and no new
                        // allocation is emitted.
                        if !checked_type.compatible(&existing_type) {
                            return Err(
                                Failure::VariableRedeclaredToDifferentType {
                                    identifier,
                                    expected: existing_type,
                                    encountered: checked_type,
                                },
                            );
                        }
                        existing_id
                    },
                    None => {
                        let id = self.add_variable_def_to_inner_scope(
                            identifier,
                            checked_type.clone(),
                            value.is_some(),
                        );
                        self.emit(Instruction::Local(id));
                        id
                    },
                };
                match value {
                    Some(initial_value) => {
                        match self.expect_expr_type(initial_value, checked_type) {
                            Ok(_p) => {
                                self.emit(Instruction::Store(var_id));
                                Ok(None)
                            },
                            Err(e) => Err(e),
                        }
                    },
                    None => Ok(None),
                }
            },
            parsing::Statement::VariableAssignment { identifier, assign_to } => {
                let (assign_to_type, strm_pos) = match self.eval_expr(assign_to) {
                    Ok(tp) => tp,
                    Err(e) => {
                        return Err(e);
                    },
                };
                let var_id = {
                    let var_def = match self.variable_lookup(identifier.as_str(), &strm_pos) {
                        Ok(d) => d,
                        Err(e) => {
                            return Err(e);
                        },
                    };
                    if !var_def.var_type.compatible(&assign_to_type) {
                        return Err(
                            Failure::UnexpectedType {
                                pos: strm_pos,
                                expected: var_def.var_type.clone(),
                                encountered: assign_to_type,
                            },
                        );
                    }
                    var_def.id
                };
                self.emit(Instruction::Store(var_id));
                Ok(None)
            },
            parsing::Statement::FunctionDefinition { pos, identifier, .. } => {
                // This language has no nested functions or closures.
                Err(Failure::NestedFunctions(pos, identifier))
            },
        }
    }

    /// Check the statements of a block: open a scope, bind the parameters
    /// in reverse order as pre-initialised locals, check each statement,
    /// and close the scope. The types of the returns found are unified:
    /// the first fixes the type, every later one must agree.
    #[verifier::loop_isolation(false)]
    pub fn eval_block(
        &mut self,
        block: Vec<parsing::Statement>,
        params: Vec<(String, Type)>,
    ) -> (r: Result<Option<Type>, Failure>)
        requires
            old(self)@.counter + params@.len() + stmts_ids(block@) <= usize::MAX,
        ensures
            ({
                let bc = check_block(old(self)@, block@, params_view(params@));
                &&& final(self)@ == bc.m
                &&& res_like(r, bc.result)
            }),
        decreases super::model::block_size(block@), 1nat,
    {
        let ghost m0 = self@;
        let ghost block0 = block@;
        let ghost params0 = params@;
        let mut ret_type: Option<Type> = None;

        self.begin_new_scope();
        let mut params = params;
        while params.len() > 0
            invariant
                self@.scopes.len() > 0,
                self@.counter + params@.len() + stmts_ids(block0) <= usize::MAX,
                declare_params(m0.push_scope(), params_view(params0)) == declare_params(
                    self@,
                    params_view(params@),
                ),
            decreases params@.len(),
        {
            let ghost ps0 = params@;
            let ghost m_pre = self@;
            let p = params.pop().unwrap();
            let ghost p0 = p;
            proof {
                assert(params@ =~= ps0.drop_last());
                assert(p == ps0.last());
            }
            let var_id = self.add_variable_def_to_inner_scope(p.0, p.1, true);
            self.emit(Instruction::Parameter(var_id));
            proof {
                let pv0 = params_view(ps0);
                assert(pv0 == params_view(ps0.drop_last()).push((ps0.last().0@, ps0.last().1)));
                assert(pv0.len() > 0);
                assert(pv0.last() == (p0.0@, p0.1));
                assert(pv0.drop_last() =~= params_view(ps0.drop_last()));
                assert(declare_params(m_pre, pv0) == declare_params(self@, params_view(params@)));
            }
        }
        proof {
            assert(params_view(Seq::<(String, Type)>::empty()) =~= Seq::<
                (Seq<char>, Type),
            >::empty());
            assert(self@ == declare_params(m0.push_scope(), params_view(params0)));
        }
        let ghost m1 = self@;

        let mut block = block;
        while block.len() > 0
            invariant
                self@.scopes.len() > 0,
                self@.counter + stmts_ids(block@) <= usize::MAX,
                run_block(m1, block0, None) == run_block(self@, block@, ret_type),
                super::model::block_size(block@) <= super::model::block_size(block0),
            decreases block@.len(),
        {
            let ghost rem0 = block@;
            let ghost m_before = self@;
            let ghost cur0 = ret_type;
            let stmt = block.remove(0);
            proof {
                assert(stmt == rem0[0]);
                assert(block@ =~= rem0.drop_first());
                lemma_stmt_elem_size(rem0, 0);
                assert(super::model::block_size(rem0) == stmt_size(rem0[0])
                    + super::model::block_size(rem0.drop_first()));
                assert(stmts_ids(rem0) == stmt_ids(rem0[0]) + stmts_ids(rem0.drop_first()));
            }
            match self.eval_inner_stmt(stmt) {
                Err(e) => {
                    return Err(e);
                },
                Ok(None) => {
                    proof {
                        lemma_step_inner_shape(m_before, rem0[0]);
                        lemma_step_inner_counter(m_before, rem0[0]);
                    }
                },
                Ok(Some((new, pos))) => {
                    proof {
                        lemma_step_inner_shape(m_before, rem0[0]);
                        lemma_step_inner_counter(m_before, rem0[0]);
                    }
                    let keep = match &ret_type {
                        Some(current) => {
                            // A block cannot return two incompatible types.
                            if !current.compatible(&new) {
                                return Err(
                                    Failure::UnexpectedType {
                                        pos,
                                        expected: current.clone(),
                                        encountered: new,
                                    },
                                );
                            }
                            true
                        },
                        None => false,
                    };
                    if !keep {
                        ret_type = Some(new);
                    }
                },
            }
        }
        self.end_scope();
        Ok(ret_type)
    }

    /// Check one top-level statement; only a function definition does any
    /// work, and anything else but a variable declaration — which callers
    /// must rule out — fails. The function is registered before its body is
    /// checked, so the body may call it recursively; afterwards the body's
    /// unified return type is held against the declared one.
    #[verifier::loop_isolation(false)]
    pub fn eval_top_level_stmt(&mut self, stmt: parsing::Statement) -> (r: Result<(), Failure>)
        requires
            !(stmt is VariableDeclaration),
            old(self)@.counter + stmt_ids(stmt) <= usize::MAX,
        ensures
            ({
                let st = step_top_stmt(old(self)@, stmt);
                &&& final(self)@ == st.m
                &&& res_like(r, st.result)
            }),
    {
        let ghost m0 = self@;
        match stmt {
            parsing::Statement::FunctionDefinition {
                pos,
                identifier,
                parameters,
                return_type,
                body,
            } => {
                let ghost params0 = parameters@;
                // The function entry marker comes before the body.
                let id = self.new_id();
                self.emit(Instruction::Function(id));

                // The declared return type must be a real type.
                let checked_return_type = match &return_type {
                    Some(ann) => match Type::from_identifier(ann) {
                        Ok(t) => Some(t),
                        Err(e) => {
                            return Err(e);
                        },
                    },
                    None => None,
                };

                // Resolve the parameter annotations, left to right.
                let mut checked_parameters: Vec<(String, Type)> = Vec::new();
                let mut param_types: Vec<Type> = Vec::new();
                let mut parameters = parameters;
                proof {
                    assert(params_view(checked_parameters@) =~= Seq::<(Seq<char>, Type)>::empty());
                    assert(pair_types(Seq::<(Seq<char>, Type)>::empty()) =~= Seq::<Type>::empty());
                    assert(param_types@ =~= pair_types(params_view(checked_parameters@)));
                }
                while parameters.len() > 0
                    invariant
                        parameters@.len() + checked_parameters@.len() == params0.len(),
                        resolve_params(params0, Seq::empty()) == resolve_params(
                            parameters@,
                            params_view(checked_parameters@),
                        ),
                        param_types@ == pair_types(params_view(checked_parameters@)),
                    decreases parameters@.len(),
                {
                    let ghost ps0 = parameters@;
                    let ghost acc0 = params_view(checked_parameters@);
                    let p = parameters.remove(0);
                    proof {
                        assert(p == ps0[0]);
                        assert(parameters@ =~= ps0.drop_first());
                    }
                    let ghost cp0 = checked_parameters@;
                    match Type::from_identifier(&p.param_type) {
                        Ok(t) => {
                            let ghost t0 = t;
                            param_types.push(t.clone());
                            checked_parameters.push((p.identifier, t));
                            proof {
                                let cp = checked_parameters@;
                                assert(cp.drop_last() =~= cp0);
                                assert(cp.last() == (ps0[0].identifier, t0));
                                assert(params_view(cp) == params_view(cp0).push(
                                    (ps0[0].identifier@, t0),
                                ));
                                let pv = params_view(cp);
                                assert(pv.drop_last() =~= params_view(cp0));
                                assert(pair_types(pv) == pair_types(params_view(cp0)).push(t0));
                            }
                        },
                        Err(e) => {
                            return Err(e);
                        },
                    }
                }

                // A function with this exact signature must not already
                // exist; registering it before the body enables recursion.
                let exists_already = match self.function_lookup(
                    identifier.as_str(),
                    param_types.as_slice(),
                    &pos,
                ) {
                    Ok(_d) => true,
                    Err(_e) => false,
                };
                if exists_already {
                    return Err(Failure::RedefinedExistingFunction(identifier, param_types));
                }
                self.add_function_def(
                    identifier.clone(),
                    clone_types(&param_types),
                    clone_opt_type(&checked_return_type),
                    id,
                );

                proof {
                    assert(stmt_ids(stmt) == 1 + params0.len() + stmts_ids(body@));
                }
                let optional_body_return_type = match self.eval_block(body, checked_parameters) {
                    Ok(rt) => rt,
                    Err(e) => {
                        return Err(e);
                    },
                };

                // Hold the body's unified return type against the one the
                // signature declares.
                match checked_return_type {
                    Some(expected_return_type) => match optional_body_return_type {
                        Some(body_return_type) => {
                            if expected_return_type.compatible(&body_return_type) {
                                Ok(())
                            } else {
                                Err(
                                    Failure::FunctionUnexpectedReturnType {
                                        pos,
                                        identifier,
                                        params: param_types,
                                        expected: expected_return_type,
                                        encountered: Some(body_return_type),
                                    },
                                )
                            }
                        },
                        None => Err(
                            Failure::FunctionUnexpectedReturnType {
                                pos,
                                identifier,
                                params: param_types,
                                expected: expected_return_type,
                                encountered: None,
                            },
                        ),
                    },
                    None => match optional_body_return_type {
                        Some(body_return_type) => Err(
                            Failure::VoidFunctionReturnsValue(
                                pos,
                                identifier,
                                param_types,
                                body_return_type,
                            ),
                        ),
                        None => Ok(()),
                    },
                }
            },
            parsing::Statement::VariableDeclaration { .. } => {
                proof {
                    assert(false);
                }
                Err(Failure::InvalidTopLevelStatement)
            },
            _ => Err(Failure::InvalidTopLevelStatement),
        }
    }

    /// Check the whole statement stream and yield the final instruction
    /// sequence, or the first failure. Consumes the checker, which must be
    /// fresh: no scope open, and the stream free of top-level variable
    /// declarations (an unimplemented extension point).
    #[verifier::loop_isolation(false)]
    pub fn execute(self, stmts: Vec<parsing::Statement>) -> (r: Result<
        Vec<Instruction>,
        Failure,
    >)
        requires
            self@.scopes.len() == 0,
            self@.counter + stmts_ids(stmts@) <= usize::MAX,
            top_level_supported(stmts@),
        ensures
            ({
                let tc = run_top_stmts(self@, stmts@);
                match (r, tc.result) {
                    (Ok(ir), Ok(_u)) => ir@ == tc.m.ir,
                    (Err(e), Err(f)) => e@ == f,
                    _ => false,
                }
            }),
    {
        let ghost m0 = self@;
        let ghost stmts0 = stmts@;
        let mut this = self;
        let mut stmts = stmts;
        while stmts.len() > 0
            invariant
                run_top_stmts(m0, stmts0) == run_top_stmts(this@, stmts@),
                top_level_supported(stmts@),
                this@.scopes == m0.scopes,
                this@.counter + stmts_ids(stmts@) <= usize::MAX,
            decreases stmts@.len(),
        {
            let ghost rem0 = stmts@;
            let ghost m_before = this@;
            let stmt = stmts.remove(0);
            proof {
                assert(stmt == rem0[0]);
                assert(stmts@ =~= rem0.drop_first());
                assert(stmts_ids(rem0) == stmt_ids(rem0[0]) + stmts_ids(rem0.drop_first()));
                assert forall|k: int| 0 <= k < stmts@.len() implies !(#[trigger] stmts@[k]
                    is VariableDeclaration) by {
                    assert(stmts@[k] == rem0[k + 1]);
                }
            }
            match this.eval_top_level_stmt(stmt) {
                Ok(_u) => {
                    proof {
                        lemma_step_top_shape(m_before, rem0[0]);
                        lemma_step_top_counter(m_before, rem0[0]);
                    }
                },
                Err(e) => {
                    return Err(e);
                },
            }
        }
        // Every block closed the scope it opened, so none is left.
        assert(this@.scopes.len() == 0);
        Ok(this.final_ir)
    }
}

} // verus!
