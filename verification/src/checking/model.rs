//! Ghost model of the checker: its state as mathematical sequences, and a
//! step-by-step account of what checking each construct yields — which
//! instructions are emitted, how the scope stack and function table change,
//! and which result or failure comes back. The executable checker's
//! contracts are stated against these functions.

use vstd::prelude::*;

use crate::parsing::{Expression, Parameter, Statement};
use crate::stream::Position;
use super::{
    resolve_type, spec_compatible, FailureV, FnDefV, Id, Instruction, Type, Value, VarDefV,
};

verus! {

/// The whole state of a checker: the scope stack (last element innermost),
/// the global function table, the instructions emitted so far, and the id
/// counter.
pub ghost struct Model {
    pub scopes: Seq<Seq<VarDefV>>,
    pub functions: Seq<FnDefV>,
    pub ir: Seq<Instruction>,
    /// The id counter: how many ids have been minted so far. Modelled as an
    /// unbounded number; the executable counter matches it wherever it has
    /// not run out of machine integers.
    pub counter: nat,
}

impl Model {
    /// The state of a freshly created checker.
    pub open spec fn init() -> Model {
        Model {
            scopes: Seq::empty(),
            functions: Seq::empty(),
            ir: Seq::empty(),
            counter: 0,
        }
    }

    /// The id the next mint yields: the counter's current value.
    pub open spec fn mint(self) -> Id {
        self.counter as Id
    }

    /// Advance the id counter past one minted id.
    pub open spec fn bump(self) -> Model {
        Model { counter: self.counter + 1, ..self }
    }

    /// Append one instruction.
    pub open spec fn emit(self, ins: Instruction) -> Model {
        Model { ir: self.ir.push(ins), ..self }
    }

    /// Append a batch of instructions.
    pub open spec fn emit_all(self, ins: Seq<Instruction>) -> Model {
        Model { ir: self.ir + ins, ..self }
    }

    /// Open a new innermost scope.
    pub open spec fn push_scope(self) -> Model {
        Model { scopes: self.scopes.push(Seq::empty()), ..self }
    }

    /// Close the innermost scope; closing with none open changes nothing.
    pub open spec fn pop_scope(self) -> Model {
        if self.scopes.len() == 0 {
            self
        } else {
            Model { scopes: self.scopes.drop_last(), ..self }
        }
    }
}

/// The part of the state that expression checking reads: the scope stack
/// and the function table. Checking an expression never changes either; it
/// only appends instructions.
pub ghost struct Env {
    pub scopes: Seq<Seq<VarDefV>>,
    pub functions: Seq<FnDefV>,
}

impl Model {
    /// The environment an expression checked in this state sees.
    pub open spec fn env(self) -> Env {
        Env { scopes: self.scopes, functions: self.functions }
    }
}

/// First variable with the given name within one scope, in insertion order.
pub open spec fn find_var_in(scope: Seq<VarDefV>, name: Seq<char>) -> Option<VarDefV>
    decreases scope.len(),
{
    if scope.len() == 0 {
        None
    } else if scope[0].name == name {
        Some(scope[0])
    } else {
        find_var_in(scope.drop_first(), name)
    }
}

/// Variable lookup across the scope stack, innermost scope first, so an
/// inner declaration shadows an outer one of the same name.
pub open spec fn lookup_var(scopes: Seq<Seq<VarDefV>>, name: Seq<char>) -> Option<VarDefV>
    decreases scopes.len(),
{
    if scopes.len() == 0 {
        None
    } else {
        match find_var_in(scopes.last(), name) {
            Some(d) => Some(d),
            None => lookup_var(scopes.drop_last(), name),
        }
    }
}

/// Whether an argument type list fits a parameter type list: same length,
/// every position compatible. Declared parameter types never contain the
/// placeholder, so for real types this is exact structural equality; the
/// one extension is that the empty-array placeholder fits any array type,
/// as the compatibility rule demands at any depth.
pub open spec fn params_compatible(params: Seq<Type>, args: Seq<Type>) -> bool {
    params.len() == args.len() && (forall|i: int|
        0 <= i < params.len() ==> spec_compatible(#[trigger] params[i], args[i]))
}

/// Function lookup by name and argument types together; the first function
/// whose signature fits wins. The match is exact — no coercion and no
/// arity slack — up to the empty-array placeholder (see
/// [`params_compatible`]).
pub open spec fn lookup_fun(functions: Seq<FnDefV>, name: Seq<char>, args: Seq<Type>) -> Option<
    FnDefV,
>
    decreases functions.len(),
{
    if functions.len() == 0 {
        None
    } else if functions[0].name == name && params_compatible(functions[0].params, args) {
        Some(functions[0])
    } else {
        lookup_fun(functions.drop_first(), name, args)
    }
}

/// Add a variable to the innermost scope under a freshly minted id. Emits
/// nothing itself; the caller records the allocation or parameter binding.
pub open spec fn declare_var(m: Model, name: Seq<char>, typ: Type, initialised: bool) -> (
    Model,
    Id,
) {
    let id = m.mint();
    if m.scopes.len() == 0 {
        (m, id)
    } else {
        let def = VarDefV { name, typ, id, initialised };
        (
            Model {
                scopes: m.scopes.update(m.scopes.len() - 1, m.scopes.last().push(def)),
                counter: m.counter + 1,
                ..m
            },
            id,
        )
    }
}

/// What checking one expression yields: the instructions it appends (also
/// on failure, since emission is not unwound), and its type and position,
/// or the first failure.
pub ghost struct ExprCheck {
    pub emitted: Seq<Instruction>,
    pub result: Result<(Type, Position), FailureV>,
}

/// What demanding a specific type of an expression yields: the expression's
/// instructions, and its position on success.
pub ghost struct ExpectCheck {
    pub emitted: Seq<Instruction>,
    pub result: Result<Position, FailureV>,
}

/// What checking a list of call arguments yields: their instructions in
/// argument order, and their types.
pub ghost struct ArgsCheck {
    pub emitted: Seq<Instruction>,
    pub result: Result<Seq<Type>, FailureV>,
}

/// What checking the remaining elements of an array literal yields.
pub ghost struct ElemsCheck {
    pub emitted: Seq<Instruction>,
    pub result: Result<(), FailureV>,
}

/// The instructions a string literal emits: one constant push for each of
/// its characters, in order.
pub open spec fn string_pushes(s: Seq<char>) -> Seq<Instruction>
    decreases s.len(),
{
    if s.len() == 0 {
        Seq::empty()
    } else {
        string_pushes(s.drop_last()).push(Instruction::Push(Value::Char(s.last())))
    }
}

/// Join two operand checks of a binary operator over `Num`: left operand's
/// instructions, then the right's, then the opcode; the result carries the
/// left operand's position.
pub open spec fn combine_arith(lout: ExpectCheck, rout: ExpectCheck, op: Instruction) -> ExpectCheck {
    match lout.result {
        Err(f) => ExpectCheck { emitted: lout.emitted, result: Err(f) },
        Ok(lp) => match rout.result {
            Err(f) => ExpectCheck { emitted: lout.emitted + rout.emitted, result: Err(f) },
            Ok(_rp) => ExpectCheck {
                emitted: lout.emitted + rout.emitted + seq![op],
                result: Ok(lp),
            },
        },
    }
}

/// Repackage a positional outcome as an expression outcome of a fixed type.
pub open spec fn with_type(c: ExpectCheck, t: Type) -> ExprCheck {
    match c.result {
        Ok(p) => ExprCheck { emitted: c.emitted, result: Ok((t, p)) },
        Err(f) => ExprCheck { emitted: c.emitted, result: Err(f) },
    }
}

/// Check one expression against the scopes and functions of `m`. Expression
/// checking reads the state but never changes it; only instructions flow
/// out, collected in the outcome.
pub open spec fn check_expr(env: Env, e: Expression) -> ExprCheck
    decreases e, 0nat,
{
    match e {
        Expression::NumberLiteral { pos, value } => ExprCheck {
            emitted: seq![Instruction::Push(Value::Num(value))],
            result: Ok((Type::Num, pos)),
        },
        Expression::BooleanLiteral { pos, value } => ExprCheck {
            emitted: seq![Instruction::Push(Value::Bool(value))],
            result: Ok((Type::Bool, pos)),
        },
        Expression::CharLiteral { pos, value } => ExprCheck {
            emitted: seq![Instruction::Push(Value::Char(value))],
            result: Ok((Type::Char, pos)),
        },
        Expression::StringLiteral { pos, value } => ExprCheck {
            emitted: string_pushes(value@),
            result: Ok((Type::Array(Box::new(Type::Char)), pos)),
        },
        Expression::Array { pos, elements } => {
            if elements@.len() == 0 {
                ExprCheck {
                    emitted: Seq::empty(),
                    result: Ok((Type::Array(Box::new(Type::Any)), pos)),
                }
            } else {
                let first = check_expr(env, elements@[0]);
                match first.result {
                    Err(f) => ExprCheck { emitted: first.emitted, result: Err(f) },
                    Ok((elem_t, _p)) => {
                        let rest = check_elems(env, elements@.drop_first(), elem_t, first.emitted);
                        match rest.result {
                            Err(f) => ExprCheck { emitted: rest.emitted, result: Err(f) },
                            Ok(_u) => ExprCheck {
                                emitted: rest.emitted,
                                result: Ok((Type::Array(Box::new(elem_t)), pos)),
                            },
                        }
                    },
                }
            }
        },
        Expression::Variable { pos, identifier } => {
            match lookup_var(env.scopes, identifier@) {
                Some(d) => ExprCheck {
                    emitted: seq![Instruction::Push(Value::Variable(d.id))],
                    result: Ok((d.typ, pos)),
                },
                None => ExprCheck {
                    emitted: Seq::empty(),
                    result: Err(FailureV::VariableNotInScope(pos, identifier@)),
                },
            }
        },
        Expression::FunctionCall { pos, identifier, args } => {
            let ac = check_args(env, args@, Seq::empty(), Seq::empty());
            match ac.result {
                Err(f) => ExprCheck { emitted: ac.emitted, result: Err(f) },
                Ok(arg_types) => match lookup_fun(env.functions, identifier@, arg_types) {
                    None => ExprCheck {
                        emitted: ac.emitted,
                        result: Err(FailureV::FunctionUndefined(pos, identifier@, arg_types)),
                    },
                    Some(d) => match d.ret {
                        Some(rt) => ExprCheck {
                            emitted: ac.emitted.push(Instruction::CallExpectingValue(d.id)),
                            result: Ok((rt, pos)),
                        },
                        None => ExprCheck {
                            emitted: ac.emitted.push(Instruction::CallExpectingVoid(d.id)),
                            result: Err(
                                FailureV::VoidFunctionInExpr(pos, identifier@, arg_types),
                            ),
                        },
                    },
                },
            }
        },
        Expression::Add(l, r) => with_type(
            combine_arith(
                expect_expr(env, *l, Type::Num),
                expect_expr(env, *r, Type::Num),
                Instruction::Add,
            ),
            Type::Num,
        ),
        Expression::Subtract(l, r) => with_type(
            combine_arith(
                expect_expr(env, *l, Type::Num),
                expect_expr(env, *r, Type::Num),
                Instruction::Subtract,
            ),
            Type::Num,
        ),
        Expression::Multiply(l, r) => with_type(
            combine_arith(
                expect_expr(env, *l, Type::Num),
                expect_expr(env, *r, Type::Num),
                Instruction::Multiply,
            ),
            Type::Num,
        ),
        Expression::Divide(l, r) => with_type(
            combine_arith(
                expect_expr(env, *l, Type::Num),
                expect_expr(env, *r, Type::Num),
                Instruction::Divide,
            ),
            Type::Num,
        ),
        Expression::GreaterThan(l, r) => with_type(
            combine_arith(
                expect_expr(env, *l, Type::Num),
                expect_expr(env, *r, Type::Num),
                Instruction::GreaterThan,
            ),
            Type::Bool,
        ),
        Expression::LessThan(l, r) => with_type(
            combine_arith(
                expect_expr(env, *l, Type::Num),
                expect_expr(env, *r, Type::Num),
                Instruction::LessThan,
            ),
            Type::Bool,
        ),
        Expression::Equal(l, r) => {
            let lout = check_expr(env, *l);
            match lout.result {
                Err(f) => ExprCheck { emitted: lout.emitted, result: Err(f) },
                Ok((lt, lp)) => {
                    let rout = check_expr(env, *r);
                    match rout.result {
                        Err(f) => ExprCheck {
                            emitted: lout.emitted + rout.emitted,
                            result: Err(f),
                        },
                        Ok((rt, _rp)) => {
                            if spec_compatible(lt, rt) {
                                ExprCheck {
                                    emitted: lout.emitted + rout.emitted
                                        + seq![Instruction::Equals],
                                    result: Ok((Type::Bool, lp)),
                                }
                            } else {
                                ExprCheck {
                                    emitted: lout.emitted + rout.emitted,
                                    result: Err(
                                        FailureV::UnexpectedType {
                                            pos: lp,
                                            expected: lt,
                                            encountered: rt,
                                        },
                                    ),
                                }
                            }
                        },
                    }
                },
            }
        },
        Expression::BooleanNot(inner) => {
            let out = expect_expr(env, *inner, Type::Bool);
            match out.result {
                Err(f) => ExprCheck { emitted: out.emitted, result: Err(f) },
                Ok(p) => ExprCheck {
                    emitted: out.emitted.push(Instruction::Not),
                    result: Ok((Type::Bool, p)),
                },
            }
        },
        Expression::UnaryMinus(inner) => {
            // Lowered as push(0); operand; subtract — no dedicated negate
            // opcode exists.
            let zero = seq![Instruction::Push(Value::Num(0))];
            let out = expect_expr(env, *inner, Type::Num);
            match out.result {
                Err(f) => ExprCheck { emitted: zero + out.emitted, result: Err(f) },
                Ok(p) => ExprCheck {
                    emitted: zero + out.emitted + seq![Instruction::Subtract],
                    result: Ok((Type::Num, p)),
                },
            }
        },
    }
}

/// Check an expression and demand a type of it; anything incompatible is an
/// `UnexpectedType` failure at the expression's position.
pub open spec fn expect_expr(env: Env, e: Expression, expected: Type) -> ExpectCheck
    decreases e, 1nat,
{
    let out = check_expr(env, e);
    match out.result {
        Err(f) => ExpectCheck { emitted: out.emitted, result: Err(f) },
        Ok((t, p)) => {
            if spec_compatible(expected, t) {
                ExpectCheck { emitted: out.emitted, result: Ok(p) }
            } else {
                ExpectCheck {
                    emitted: out.emitted,
                    result: Err(FailureV::UnexpectedType { pos: p, expected, encountered: t }),
                }
            }
        },
    }
}

/// Check the remaining arguments of a call, left to right, accumulating the
/// types and instructions gathered so far.
pub open spec fn check_args(
    env: Env,
    remaining: Seq<Expression>,
    types: Seq<Type>,
    emitted: Seq<Instruction>,
) -> ArgsCheck
    decreases remaining, 0nat,
{
    if remaining.len() == 0 {
        ArgsCheck { emitted, result: Ok(types) }
    } else {
        let out = check_expr(env, remaining[0]);
        match out.result {
            Err(f) => ArgsCheck { emitted: emitted + out.emitted, result: Err(f) },
            Ok((t, _p)) => check_args(
                env,
                remaining.drop_first(),
                types.push(t),
                emitted + out.emitted,
            ),
        }
    }
}

/// Check the remaining elements of a non-empty array literal against the
/// type of its first element.
pub open spec fn check_elems(
    env: Env,
    remaining: Seq<Expression>,
    elem_t: Type,
    emitted: Seq<Instruction>,
) -> ElemsCheck
    decreases remaining, 0nat,
{
    if remaining.len() == 0 {
        ElemsCheck { emitted, result: Ok(()) }
    } else {
        let out = expect_expr(env, remaining[0], elem_t);
        match out.result {
            Err(f) => ElemsCheck { emitted: emitted + out.emitted, result: Err(f) },
            Ok(_p) => check_elems(env, remaining.drop_first(), elem_t, emitted + out.emitted),
        }
    }
}

/// What checking one statement inside a function yields: the state after
/// it, and the type and position of a `return` found within it, if any.
pub ghost struct StmtCheck {
    pub m: Model,
    pub result: Result<Option<(Type, Position)>, FailureV>,
}

/// What checking a block yields: the state after it, and the unified type
/// of the returns found in it, if any.
pub ghost struct BlockCheck {
    pub m: Model,
    pub result: Result<Option<Type>, FailureV>,
}

/// What checking one top-level statement yields.
pub ghost struct TopCheck {
    pub m: Model,
    pub result: Result<(), FailureV>,
}

/// Declare the parameters of a block in reverse declaration order, each as
/// a pre-initialised local bound by a `Parameter` instruction.
pub open spec fn declare_params(m: Model, params: Seq<(Seq<char>, Type)>) -> Model
    decreases params.len(),
{
    if params.len() == 0 {
        m
    } else {
        let p = params.last();
        let (m1, id) = declare_var(m, p.0, p.1, true);
        declare_params(m1.emit(Instruction::Parameter(id)), params.drop_last())
    }
}

/// Check one statement within a function body.
pub open spec fn step_inner_stmt(m: Model, s: Statement) -> StmtCheck
    decreases s, 0nat,
{
    match s {
        Statement::Return(value) => match value {
            Some(e) => {
                let out = check_expr(m.env(), e);
                match out.result {
                    Err(f) => StmtCheck { m: m.emit_all(out.emitted), result: Err(f) },
                    Ok((t, p)) => StmtCheck {
                        m: m.emit_all(out.emitted).emit(Instruction::ReturnValue),
                        result: Ok(Some((t, p))),
                    },
                }
            },
            None => StmtCheck { m: m.emit(Instruction::ReturnVoid), result: Ok(None) },
        },
        Statement::While { condition, block } => {
            // Test-at-bottom translation: jump to the condition after the
            // body, which loops back while the condition holds.
            let end_id = m.mint();
            let m1 = m.bump().emit(Instruction::Jump(end_id));
            let start_id = m1.mint();
            let m2 = m1.bump().emit(Instruction::Label(start_id));
            let bc = check_block(m2, block@, Seq::empty());
            match bc.result {
                Err(f) => StmtCheck { m: bc.m, result: Err(f) },
                Ok(block_ret) => {
                    let m3 = bc.m.emit(Instruction::Label(end_id));
                    let cond = expect_expr(m3.env(), condition, Type::Bool);
                    match cond.result {
                        Err(f) => StmtCheck { m: m3.emit_all(cond.emitted), result: Err(f) },
                        Ok(p) => StmtCheck {
                            m: m3.emit_all(cond.emitted).emit(Instruction::JumpIfTrue(start_id)),
                            result: Ok(
                                match block_ret {
                                    Some(rt) => Some((rt, p)),
                                    None => None,
                                },
                            ),
                        },
                    }
                },
            }
        },
        Statement::If { condition, block } => {
            let skip_id = m.mint();
            let mb = m.bump();
            let cond = expect_expr(mb.env(), condition, Type::Bool);
            match cond.result {
                Err(f) => StmtCheck { m: mb.emit_all(cond.emitted), result: Err(f) },
                Ok(p) => {
                    let m1 = mb.emit_all(cond.emitted).emit(Instruction::JumpIfFalse(skip_id));
                    let bc = check_block(m1, block@, Seq::empty());
                    match bc.result {
                        Err(f) => StmtCheck { m: bc.m, result: Err(f) },
                        Ok(block_ret) => StmtCheck {
                            m: bc.m.emit(Instruction::Label(skip_id)),
                            result: Ok(
                                match block_ret {
                                    Some(rt) => Some((rt, p)),
                                    None => None,
                                },
                            ),
                        },
                    }
                },
            }
        },
        Statement::VariableDeclaration { identifier, var_type, value } => {
            match resolve_type(var_type) {
                Err(f) => StmtCheck { m, result: Err(f) },
                Ok(t) => {
                    let declared = (match find_var_in(m.scopes.last(), identifier@) {
                        Some(existing) => {
                            // Redeclaration in the same scope: allowed only
                            // at the same type, and the id is reused.
                            if !spec_compatible(t, existing.typ) {
                                Err(
                                    FailureV::VariableRedeclaredToDifferentType {
                                        identifier: identifier@,
                                        expected: existing.typ,
                                        encountered: t,
                                    },
                                )
                            } else {
                                Ok((m, existing.id))
                            }
                        },
                        None => {
                            let (m1, id) = declare_var(m, identifier@, t, value is Some);
                            Ok((m1.emit(Instruction::Local(id)), id))
                        },
                    });
                    match declared {
                        Err(f) => StmtCheck { m, result: Err(f) },
                        Ok((m1, var_id)) => match value {
                            None => StmtCheck { m: m1, result: Ok(None) },
                            Some(init) => {
                                let out = expect_expr(m1.env(), init, t);
                                match out.result {
                                    Err(f) => StmtCheck {
                                        m: m1.emit_all(out.emitted),
                                        result: Err(f),
                                    },
                                    Ok(_p) => StmtCheck {
                                        m: m1.emit_all(out.emitted).emit(
                                            Instruction::Store(var_id),
                                        ),
                                        result: Ok(None),
                                    },
                                }
                            },
                        },
                    }
                },
            }
        },
        Statement::VariableAssignment { identifier, assign_to } => {
            let out = check_expr(m.env(), assign_to);
            match out.result {
                Err(f) => StmtCheck { m: m.emit_all(out.emitted), result: Err(f) },
                Ok((t, p)) => {
                    let m1 = m.emit_all(out.emitted);
                    match lookup_var(m1.scopes, identifier@) {
                        None => StmtCheck {
                            m: m1,
                            result: Err(FailureV::VariableNotInScope(p, identifier@)),
                        },
                        Some(d) => {
                            if !spec_compatible(d.typ, t) {
                                StmtCheck {
                                    m: m1,
                                    result: Err(
                                        FailureV::UnexpectedType {
                                            pos: p,
                                            expected: d.typ,
                                            encountered: t,
                                        },
                                    ),
                                }
                            } else {
                                StmtCheck {
                                    m: m1.emit(Instruction::Store(d.id)),
                                    result: Ok(None),
                                }
                            }
                        },
                    }
                },
            }
        },
        Statement::FunctionDefinition { pos, identifier, .. } => StmtCheck {
            m,
            result: Err(FailureV::NestedFunctions(pos, identifier@)),
        },
    }
}

/// Check the statements of a block in order, unifying the types of the
/// returns they yield: the first return fixes the type, and every later one
/// must be compatible with it.
pub open spec fn run_block(m: Model, stmts: Seq<Statement>, cur: Option<Type>) -> BlockCheck
    decreases stmts, 1nat,
{
    if stmts.len() == 0 {
        BlockCheck { m, result: Ok(cur) }
    } else {
        let st = step_inner_stmt(m, stmts[0]);
        match st.result {
            Err(f) => BlockCheck { m: st.m, result: Err(f) },
            Ok(None) => run_block(st.m, stmts.drop_first(), cur),
            Ok(Some((new_t, p))) => match cur {
                None => run_block(st.m, stmts.drop_first(), Some(new_t)),
                Some(cur_t) => {
                    if !spec_compatible(cur_t, new_t) {
                        BlockCheck {
                            m: st.m,
                            result: Err(
                                FailureV::UnexpectedType {
                                    pos: p,
                                    expected: cur_t,
                                    encountered: new_t,
                                },
                            ),
                        }
                    } else {
                        run_block(st.m, stmts.drop_first(), Some(cur_t))
                    }
                },
            },
        }
    }
}

/// Check a block: open a scope, bind the parameters, run the statements,
/// and close the scope again — except on failure, where checking stops at
/// once and the scope is left as it stands.
pub open spec fn check_block(m: Model, stmts: Seq<Statement>, params: Seq<(Seq<char>, Type)>) -> BlockCheck
    decreases stmts, 2nat,
{
    let m1 = declare_params(m.push_scope(), params);
    let rb = run_block(m1, stmts, None);
    match rb.result {
        Ok(rt) => BlockCheck { m: rb.m.pop_scope(), result: Ok(rt) },
        Err(f) => BlockCheck { m: rb.m, result: Err(f) },
    }
}

/// Resolve the parameter annotations of a function definition, left to
/// right, into name–type pairs.
pub open spec fn resolve_params(
    params: Seq<Parameter>,
    acc: Seq<(Seq<char>, Type)>,
) -> Result<Seq<(Seq<char>, Type)>, FailureV>
    decreases params.len(),
{
    if params.len() == 0 {
        Ok(acc)
    } else {
        match resolve_type(params[0].param_type) {
            Err(f) => Err(f),
            Ok(t) => resolve_params(params.drop_first(), acc.push((params[0].identifier@, t))),
        }
    }
}

/// The ghost image of a parameter list handed to a block: each owned
/// name–type pair as a character sequence and its semantic type.
pub open spec fn params_view(params: Seq<(String, Type)>) -> Seq<(Seq<char>, Type)>
    decreases params.len(),
{
    if params.len() == 0 {
        Seq::empty()
    } else {
        params_view(params.drop_last()).push((params.last().0@, params.last().1))
    }
}

/// The types of a resolved parameter list, in order.
pub open spec fn pair_types(pairs: Seq<(Seq<char>, Type)>) -> Seq<Type>
    decreases pairs.len(),
{
    if pairs.len() == 0 {
        Seq::empty()
    } else {
        pair_types(pairs.drop_last()).push(pairs.last().1)
    }
}

/// Check one top-level statement. Only function definitions do any work;
/// the function is registered before its body is checked, so the body may
/// call it recursively, and afterwards the body's unified return type is
/// held against the declared one.
pub open spec fn step_top_stmt(m: Model, s: Statement) -> TopCheck {
    match s {
        Statement::FunctionDefinition { pos, identifier, parameters, return_type, body } => {
            let id = m.mint();
            let m1 = m.bump().emit(Instruction::Function(id));
            let ret = (match return_type {
                Some(ann) => match resolve_type(ann) {
                    Ok(t) => Ok(Some(t)),
                    Err(f) => Err(f),
                },
                None => Ok(None),
            });
            match ret {
                Err(f) => TopCheck { m: m1, result: Err(f) },
                Ok(checked_ret) => match resolve_params(parameters@, Seq::empty()) {
                    Err(f) => TopCheck { m: m1, result: Err(f) },
                    Ok(pairs) => {
                        let param_types = pair_types(pairs);
                        if lookup_fun(m1.functions, identifier@, param_types) is Some {
                            TopCheck {
                                m: m1,
                                result: Err(
                                    FailureV::RedefinedExistingFunction(identifier@, param_types),
                                ),
                            }
                        } else {
                            let def = FnDefV {
                                name: identifier@,
                                params: param_types,
                                ret: checked_ret,
                                id,
                            };
                            let m2 = Model { functions: m1.functions.push(def), ..m1 };
                            let bc = check_block(m2, body@, pairs);
                            match bc.result {
                                Err(f) => TopCheck { m: bc.m, result: Err(f) },
                                Ok(body_ret) => match checked_ret {
                                    Some(exp) => match body_ret {
                                        Some(act) => {
                                            if spec_compatible(exp, act) {
                                                TopCheck { m: bc.m, result: Ok(()) }
                                            } else {
                                                TopCheck {
                                                    m: bc.m,
                                                    result: Err(
                                                        FailureV::FunctionUnexpectedReturnType {
                                                            pos,
                                                            identifier: identifier@,
                                                            params: param_types,
                                                            expected: exp,
                                                            encountered: Some(act),
                                                        },
                                                    ),
                                                }
                                            }
                                        },
                                        None => TopCheck {
                                            m: bc.m,
                                            result: Err(
                                                FailureV::FunctionUnexpectedReturnType {
                                                    pos,
                                                    identifier: identifier@,
                                                    params: param_types,
                                                    expected: exp,
                                                    encountered: None,
                                                },
                                            ),
                                        },
                                    },
                                    None => match body_ret {
                                        Some(act) => TopCheck {
                                            m: bc.m,
                                            result: Err(
                                                FailureV::VoidFunctionReturnsValue(
                                                    pos,
                                                    identifier@,
                                                    param_types,
                                                    act,
                                                ),
                                            ),
                                        },
                                        None => TopCheck { m: bc.m, result: Ok(()) },
                                    },
                                },
                            }
                        }
                    },
                },
            }
        },
        // Top-level variable declarations are an unimplemented extension
        // point; callers rule them out, and nothing is specified of them.
        Statement::VariableDeclaration { .. } => arbitrary(),
        _ => TopCheck { m, result: Err(FailureV::InvalidTopLevelStatement) },
    }
}

/// Check a whole statement stream, stopping at the first failure.
pub open spec fn run_top_stmts(m: Model, stmts: Seq<Statement>) -> TopCheck
    decreases stmts.len(),
{
    if stmts.len() == 0 {
        TopCheck { m, result: Ok(()) }
    } else {
        let st = step_top_stmt(m, stmts[0]);
        match st.result {
            Err(f) => TopCheck { m: st.m, result: Err(f) },
            Ok(_u) => run_top_stmts(st.m, stmts.drop_first()),
        }
    }
}

/// The instructions a whole program checks to, or its first failure.
pub open spec fn check_program(stmts: Seq<Statement>) -> Result<Seq<Instruction>, FailureV> {
    let tc = run_top_stmts(Model::init(), stmts);
    match tc.result {
        Ok(_u) => Ok(tc.m.ir),
        Err(f) => Err(f),
    }
}

/// No statement of the stream is a top-level variable declaration, the one
/// construct whose top-level checking is left unimplemented.
pub open spec fn top_level_supported(stmts: Seq<Statement>) -> bool {
    forall|i: int| 0 <= i < stmts.len() ==> !(#[trigger] stmts[i] is VariableDeclaration)
}

/// Binding a block's parameters touches only the innermost scope: the
/// stack keeps its depth, outer scopes and the function table stay as they
/// were.
pub proof fn lemma_declare_params_shape(m: Model, params: Seq<(Seq<char>, Type)>)
    ensures
        ({
            let m1 = declare_params(m, params);
            &&& m1.scopes.len() == m.scopes.len()
            &&& forall|i: int| 0 <= i < m.scopes.len() - 1 ==> m1.scopes[i] == m.scopes[i]
            &&& m1.functions == m.functions
        }),
    decreases params.len(),
{
    if params.len() == 0 {
    } else {
        let p = params.last();
        let (m1, id) = declare_var(m, p.0, p.1, true);
        lemma_declare_params_shape(m1.emit(Instruction::Parameter(id)), params.drop_last());
    }
}

/// A successfully checked inner statement leaves the scope stack at the
/// same depth, changes no scope but the innermost, and adds no function.
pub proof fn lemma_step_inner_shape(m: Model, s: Statement)
    ensures
        ({
            let st = step_inner_stmt(m, s);
            st.result is Ok ==> {
                &&& st.m.scopes.len() == m.scopes.len()
                &&& forall|i: int| 0 <= i < m.scopes.len() - 1 ==> st.m.scopes[i] == m.scopes[i]
                &&& st.m.functions == m.functions
            }
        }),
    decreases s, 0nat,
{
    match s {
        Statement::While { condition, block } => {
            let end_id = m.mint();
            let m1 = m.bump().emit(Instruction::Jump(end_id));
            let start_id = m1.mint();
            let m2 = m1.bump().emit(Instruction::Label(start_id));
            lemma_check_block_shape(m2, block@, Seq::empty());
        },
        Statement::If { condition, block } => {
            let skip_id = m.mint();
            let mb = m.bump();
            let cond = expect_expr(mb.env(), condition, Type::Bool);
            match cond.result {
                Ok(p) => {
                    let m1 = mb.emit_all(cond.emitted).emit(Instruction::JumpIfFalse(skip_id));
                    lemma_check_block_shape(m1, block@, Seq::empty());
                },
                Err(_f) => {},
            }
        },
        _ => {},
    }
}

/// Running the statements of a block preserves the stack's depth and every
/// scope but the innermost, and adds no function, as long as it succeeds.
pub proof fn lemma_run_block_shape(m: Model, stmts: Seq<Statement>, cur: Option<Type>)
    ensures
        ({
            let rb = run_block(m, stmts, cur);
            rb.result is Ok ==> {
                &&& rb.m.scopes.len() == m.scopes.len()
                &&& forall|i: int| 0 <= i < m.scopes.len() - 1 ==> rb.m.scopes[i] == m.scopes[i]
                &&& rb.m.functions == m.functions
            }
        }),
    decreases stmts, 1nat,
{
    if stmts.len() == 0 {
    } else {
        lemma_step_inner_shape(m, stmts[0]);
        let st = step_inner_stmt(m, stmts[0]);
        match st.result {
            Err(_f) => {},
            Ok(None) => {
                lemma_run_block_shape(st.m, stmts.drop_first(), cur);
            },
            Ok(Some((new_t, _p))) => {
                match cur {
                    None => {
                        lemma_run_block_shape(st.m, stmts.drop_first(), Some(new_t));
                    },
                    Some(cur_t) => {
                        if spec_compatible(cur_t, new_t) {
                            lemma_run_block_shape(st.m, stmts.drop_first(), Some(cur_t));
                        }
                    },
                }
            },
        }
    }
}

/// A successfully checked block restores the scope stack exactly: the
/// scope it opened is closed again and the outer scopes are untouched.
pub proof fn lemma_check_block_shape(m: Model, stmts: Seq<Statement>, params: Seq<(Seq<char>, Type)>)
    ensures
        ({
            let bc = check_block(m, stmts, params);
            bc.result is Ok ==> bc.m.scopes == m.scopes && bc.m.functions == m.functions
        }),
    decreases stmts, 2nat,
{
    let m1 = declare_params(m.push_scope(), params);
    lemma_declare_params_shape(m.push_scope(), params);
    lemma_run_block_shape(m1, stmts, None);
    let rb = run_block(m1, stmts, None);
    if rb.result is Ok {
        assert(rb.m.scopes.len() == m.scopes.len() + 1);
        assert forall|i: int| 0 <= i < m.scopes.len() implies rb.m.scopes[i] == m.scopes[i] by {
            assert(rb.m.scopes[i] == m1.scopes[i]);
            assert(m1.scopes[i] == m.push_scope().scopes[i]);
            assert(m.push_scope().scopes[i] == m.scopes[i]);
        }
        assert(rb.m.pop_scope().scopes =~= m.scopes);
    }
}

/// A successfully checked top-level statement leaves the scope stack as it
/// found it.
pub proof fn lemma_step_top_shape(m: Model, s: Statement)
    requires
        !(s is VariableDeclaration),
    ensures
        ({
            let st = step_top_stmt(m, s);
            st.result is Ok ==> st.m.scopes == m.scopes
        }),
{
    match s {
        Statement::FunctionDefinition { pos, identifier, parameters, return_type, body } => {
            let id = m.mint();
            let m1 = m.bump().emit(Instruction::Function(id));
            let ret = (match return_type {
                Some(ann) => match resolve_type(ann) {
                    Ok(t) => Ok(Some(t)),
                    Err(f) => Err(f),
                },
                None => Ok(None),
            });
            match ret {
                Err(_f) => {},
                Ok(checked_ret) => match resolve_params(parameters@, Seq::empty()) {
                    Err(_f) => {},
                    Ok(pairs) => {
                        let param_types = pair_types(pairs);
                        if lookup_fun(m1.functions, identifier@, param_types) is Some {
                        } else {
                            let def = FnDefV {
                                name: identifier@,
                                params: param_types,
                                ret: checked_ret,
                                id,
                            };
                            let m2 = Model { functions: m1.functions.push(def), ..m1 };
                            lemma_check_block_shape(m2, body@, pairs);
                        }
                    },
                },
            }
        },
        _ => {},
    }
}

/// How many ids checking a statement can mint: one per declaration and
/// parameter, one per `if`, two per `while`, one per function definition.
pub open spec fn stmt_ids(s: Statement) -> nat
    decreases s, 0nat,
{
    match s {
        Statement::If { block, .. } => 1 + stmts_ids(block@),
        Statement::While { block, .. } => 2 + stmts_ids(block@),
        Statement::Return(_) => 0,
        Statement::FunctionDefinition { parameters, body, .. } => 1 + parameters@.len()
            + stmts_ids(body@),
        Statement::VariableDeclaration { .. } => 1,
        Statement::VariableAssignment { .. } => 0,
    }
}

/// Combined id budget of a sequence of statements.
pub open spec fn stmts_ids(b: Seq<Statement>) -> nat
    decreases b, 1nat,
{
    if b.len() == 0 {
        0
    } else {
        stmt_ids(b[0]) + stmts_ids(b.drop_first())
    }
}

/// Checking one inner statement mints at most its id budget, and never
/// winds the counter back.
pub proof fn lemma_step_inner_counter(m: Model, s: Statement)
    ensures
        step_inner_stmt(m, s).m.counter <= m.counter + stmt_ids(s),
        step_inner_stmt(m, s).m.counter >= m.counter,
    decreases s, 0nat,
{
    match s {
        Statement::While { condition, block } => {
            let end_id = m.mint();
            let m1 = m.bump().emit(Instruction::Jump(end_id));
            let start_id = m1.mint();
            let m2 = m1.bump().emit(Instruction::Label(start_id));
            lemma_check_block_counter(m2, block@, Seq::empty());
        },
        Statement::If { condition, block } => {
            let skip_id = m.mint();
            let mb = m.bump();
            let cond = expect_expr(mb.env(), condition, Type::Bool);
            match cond.result {
                Ok(p) => {
                    let m1 = mb.emit_all(cond.emitted).emit(Instruction::JumpIfFalse(skip_id));
                    lemma_check_block_counter(m1, block@, Seq::empty());
                },
                Err(_f) => {},
            }
        },
        _ => {},
    }
}

/// See [`lemma_step_inner_counter`].
pub proof fn lemma_run_block_counter(m: Model, stmts: Seq<Statement>, cur: Option<Type>)
    ensures
        run_block(m, stmts, cur).m.counter <= m.counter + stmts_ids(stmts),
        run_block(m, stmts, cur).m.counter >= m.counter,
    decreases stmts, 1nat,
{
    if stmts.len() > 0 {
        lemma_step_inner_counter(m, stmts[0]);
        let st = step_inner_stmt(m, stmts[0]);
        match st.result {
            Err(_f) => {},
            Ok(None) => {
                lemma_run_block_counter(st.m, stmts.drop_first(), cur);
            },
            Ok(Some((new_t, p))) => match cur {
                None => {
                    lemma_run_block_counter(st.m, stmts.drop_first(), Some(new_t));
                },
                Some(cur_t) => {
                    if spec_compatible(cur_t, new_t) {
                        lemma_run_block_counter(st.m, stmts.drop_first(), Some(cur_t));
                    }
                },
            },
        }
    }
}

/// See [`lemma_step_inner_counter`]: a block stays within one id per
/// parameter plus its statements' budget.
pub proof fn lemma_check_block_counter(m: Model, stmts: Seq<Statement>, params: Seq<(Seq<char>, Type)>)
    ensures
        check_block(m, stmts, params).m.counter <= m.counter + params.len() + stmts_ids(stmts),
        check_block(m, stmts, params).m.counter >= m.counter,
    decreases stmts, 2nat,
{
    let m1 = declare_params(m.push_scope(), params);
    lemma_declare_params_counter(m.push_scope(), params);
    lemma_run_block_counter(m1, stmts, None);
}

/// See [`lemma_step_inner_counter`]: one id per bound parameter.
pub proof fn lemma_declare_params_counter(m: Model, params: Seq<(Seq<char>, Type)>)
    ensures
        declare_params(m, params).counter <= m.counter + params.len(),
        declare_params(m, params).counter >= m.counter,
    decreases params.len(),
{
    if params.len() > 0 {
        let p = params.last();
        let (m1, id) = declare_var(m, p.0, p.1, true);
        lemma_declare_params_counter(m1.emit(Instruction::Parameter(id)), params.drop_last());
    }
}

/// A resolved parameter list has one pair per parameter.
pub proof fn lemma_resolve_params_len(params: Seq<Parameter>, acc: Seq<(Seq<char>, Type)>)
    ensures
        resolve_params(params, acc) matches Ok(pairs) ==> pairs.len() == acc.len() + params.len(),
    decreases params.len(),
{
    if params.len() > 0 {
        match resolve_type(params[0].param_type) {
            Err(_f) => {},
            Ok(t) => {
                lemma_resolve_params_len(
                    params.drop_first(),
                    acc.push((params[0].identifier@, t)),
                );
            },
        }
    }
}

/// Checking one top-level statement mints at most its id budget.
pub proof fn lemma_step_top_counter(m: Model, s: Statement)
    requires
        !(s is VariableDeclaration),
    ensures
        step_top_stmt(m, s).m.counter <= m.counter + stmt_ids(s),
        step_top_stmt(m, s).m.counter >= m.counter,
{
    match s {
        Statement::FunctionDefinition { pos, identifier, parameters, return_type, body } => {
            let id = m.mint();
            let m1 = m.bump().emit(Instruction::Function(id));
            let ret = (match return_type {
                Some(ann) => match resolve_type(ann) {
                    Ok(t) => Ok(Some(t)),
                    Err(f) => Err(f),
                },
                None => Ok(None),
            });
            match ret {
                Err(_f) => {},
                Ok(checked_ret) => match resolve_params(parameters@, Seq::empty()) {
                    Err(_f) => {},
                    Ok(pairs) => {
                        let param_types = pair_types(pairs);
                        if lookup_fun(m1.functions, identifier@, param_types) is Some {
                        } else {
                            let def = FnDefV {
                                name: identifier@,
                                params: param_types,
                                ret: checked_ret,
                                id,
                            };
                            let m2 = Model { functions: m1.functions.push(def), ..m1 };
                            lemma_check_block_counter(m2, body@, pairs);
                            lemma_resolve_params_len(parameters@, Seq::empty());
                        }
                    },
                },
            }
        },
        _ => {},
    }
}

/// Checking a whole statement stream mints at most its combined id budget.
pub proof fn lemma_run_top_counter(m: Model, stmts: Seq<Statement>)
    requires
        top_level_supported(stmts),
    ensures
        run_top_stmts(m, stmts).m.counter <= m.counter + stmts_ids(stmts),
        run_top_stmts(m, stmts).m.counter >= m.counter,
    decreases stmts.len(),
{
    if stmts.len() > 0 {
        assert(!(stmts[0] is VariableDeclaration));
        lemma_step_top_counter(m, stmts[0]);
        let st = step_top_stmt(m, stmts[0]);
        match st.result {
            Err(_f) => {},
            Ok(_u) => {
                assert forall|k: int| 0 <= k < stmts.drop_first().len() implies !(
                #[trigger] stmts.drop_first()[k] is VariableDeclaration) by {
                    assert(stmts.drop_first()[k] == stmts[k + 1]);
                }
                lemma_run_top_counter(st.m, stmts.drop_first());
            },
        }
    }
}

/// Structural size of an expression, used as a termination measure by the
/// recursive evaluator.
pub open spec fn expr_size(e: Expression) -> nat
    decreases e, 0nat,
{
    match e {
        Expression::Equal(l, r) => 1 + expr_size(*l) + expr_size(*r),
        Expression::GreaterThan(l, r) => 1 + expr_size(*l) + expr_size(*r),
        Expression::LessThan(l, r) => 1 + expr_size(*l) + expr_size(*r),
        Expression::Add(l, r) => 1 + expr_size(*l) + expr_size(*r),
        Expression::Subtract(l, r) => 1 + expr_size(*l) + expr_size(*r),
        Expression::Multiply(l, r) => 1 + expr_size(*l) + expr_size(*r),
        Expression::Divide(l, r) => 1 + expr_size(*l) + expr_size(*r),
        Expression::BooleanNot(x) => 1 + expr_size(*x),
        Expression::UnaryMinus(x) => 1 + expr_size(*x),
        Expression::NumberLiteral { .. } => 1,
        Expression::BooleanLiteral { .. } => 1,
        Expression::CharLiteral { .. } => 1,
        Expression::StringLiteral { .. } => 1,
        Expression::Array { elements, .. } => 1 + exprs_size(elements@),
        Expression::Variable { .. } => 1,
        Expression::FunctionCall { args, .. } => 1 + exprs_size(args@),
    }
}

/// Combined size of a sequence of expressions.
pub open spec fn exprs_size(s: Seq<Expression>) -> nat
    decreases s, 1nat,
{
    if s.len() == 0 {
        0
    } else {
        expr_size(s[0]) + exprs_size(s.drop_first())
    }
}

/// Structural size of a statement, counting the statements of its nested
/// blocks; expressions do not contain statements, so they do not count.
pub open spec fn stmt_size(s: Statement) -> nat
    decreases s, 0nat,
{
    match s {
        Statement::If { block, .. } => 1 + block_size(block@),
        Statement::While { block, .. } => 1 + block_size(block@),
        Statement::Return(_) => 1,
        Statement::FunctionDefinition { body, .. } => 1 + block_size(body@),
        Statement::VariableDeclaration { .. } => 1,
        Statement::VariableAssignment { .. } => 1,
    }
}

/// Combined size of a sequence of statements.
pub open spec fn block_size(b: Seq<Statement>) -> nat
    decreases b, 1nat,
{
    if b.len() == 0 {
        0
    } else {
        stmt_size(b[0]) + block_size(b.drop_first())
    }
}

/// Every expression has size at least one.
pub proof fn lemma_expr_size_pos(e: Expression)
    ensures
        expr_size(e) >= 1,
{
}

/// An element of a sequence of expressions weighs no more than the whole.
pub proof fn lemma_expr_elem_size(s: Seq<Expression>, k: int)
    requires
        0 <= k < s.len(),
    ensures
        expr_size(s[k]) <= exprs_size(s),
    decreases k,
{
    if k == 0 {
    } else {
        lemma_expr_elem_size(s.drop_first(), k - 1);
    }
}

/// An element of a sequence of statements weighs no more than the whole.
pub proof fn lemma_stmt_elem_size(b: Seq<Statement>, k: int)
    requires
        0 <= k < b.len(),
    ensures
        stmt_size(b[k]) <= block_size(b),
    decreases k,
{
    if k == 0 {
    } else {
        lemma_stmt_elem_size(b.drop_first(), k - 1);
    }
}

/// Emitting nothing changes nothing.
pub proof fn lemma_emit_all_empty(m: Model)
    ensures
        m.emit_all(Seq::empty()) == m,
{
    assert(m.emit_all(Seq::empty()).ir =~= m.ir);
}

/// Emitting one instruction is emitting a batch of one.
pub proof fn lemma_emit_one(m: Model, x: Instruction)
    ensures
        m.emit(x) == m.emit_all(seq![x]),
{
    assert(m.emit(x).ir =~= m.emit_all(seq![x]).ir);
}

/// Two emissions in a row are one combined emission.
pub proof fn lemma_emit_all_assoc(m: Model, a: Seq<Instruction>, b: Seq<Instruction>)
    ensures
        m.emit_all(a).emit_all(b) == m.emit_all(a + b),
{
    assert(m.emit_all(a).emit_all(b).ir =~= m.emit_all(a + b).ir);
}

/// Emitting a batch and then one more instruction extends the batch.
pub proof fn lemma_emit_all_push(m: Model, a: Seq<Instruction>, x: Instruction)
    ensures
        m.emit_all(a).emit(x) == m.emit_all(a.push(x)),
{
    assert(m.emit_all(a).emit(x).ir =~= m.emit_all(a.push(x)).ir);
}
} // verus!
