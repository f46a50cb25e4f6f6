//! General laws of the checker, stated over the ghost model and proved once
//! and for all: shadowing and redeclaration, structural array typing,
//! overload lookup, return-type unification, the registration of a function
//! before its own body that makes recursion possible, and the structural
//! soundness of the emitted control flow — labels unique, jumps resolved.

use vstd::prelude::*;

use crate::parsing;
use crate::stream::Position;
use super::model::{
    check_args, check_block, check_elems, check_expr, check_program, declare_params, declare_var,
    expect_expr, find_var_in, lemma_check_block_counter, lemma_run_block_counter,
    lemma_run_top_counter, lookup_fun, lookup_var, pair_types, params_compatible, resolve_params,
    run_block, run_top_stmts, step_inner_stmt, step_top_stmt, stmts_ids, string_pushes,
    top_level_supported, BlockCheck, Env, Model,
};
use super::{
    resolve_type, spec_compatible, FailureV, FnDefV, Id, Instruction, Type, Value, VarDefV,
};

verus! {

/// Shadowing: a variable declared in a freshly opened scope hides an outer
/// one of the same name — lookup yields the inner definition, whatever the
/// outer one holds — and once the inner scope is closed again, lookup
/// yields exactly what it yielded before.
pub proof fn lemma_variable_shadowing(m: Model, name: Seq<char>, typ: Type, initialised: bool)
    ensures
        ({
            let m1 = m.push_scope();
            let (m2, id) = declare_var(m1, name, typ, initialised);
            &&& lookup_var(m2.scopes, name) == Some(VarDefV { name, typ, id, initialised })
            &&& lookup_var(m2.pop_scope().scopes, name) == lookup_var(m.scopes, name)
        }),
{
    let m1 = m.push_scope();
    let (m2, id) = declare_var(m1, name, typ, initialised);
    let def = VarDefV { name, typ, id, initialised };
    assert(m2.scopes.last() =~= Seq::<VarDefV>::empty().push(def));
    assert(find_var_in(m2.scopes.last(), name) == Some(def));
    assert(m2.pop_scope().scopes =~= m.scopes);
}

/// Redeclaring a name in the same scope at an incompatible type always
/// fails, and leaves the checker's state untouched.
pub proof fn lemma_redeclare_different_type_fails(
    m: Model,
    identifier: String,
    var_type: parsing::Type,
    value: Option<parsing::Expression>,
    t: Type,
    existing: VarDefV,
)
    requires
        m.scopes.len() > 0,
        find_var_in(m.scopes.last(), identifier@) == Some(existing),
        resolve_type(var_type) == Ok::<Type, FailureV>(t),
        !spec_compatible(t, existing.typ),
    ensures
        ({
            let st = step_inner_stmt(
                m,
                parsing::Statement::VariableDeclaration { identifier, var_type, value },
            );
            &&& st.m == m
            &&& st.result == Err::<Option<(Type, Position)>, FailureV>(
                FailureV::VariableRedeclaredToDifferentType {
                    identifier: identifier@,
                    expected: existing.typ,
                    encountered: t,
                },
            )
        }),
{
}

/// Redeclaring a name in the same scope at the same type is a no-op on
/// ids and allocations: no new definition is added, no `Local` is emitted,
/// and without an initialiser the state does not change at all.
pub proof fn lemma_redeclare_same_type_reuses_id(
    m: Model,
    identifier: String,
    var_type: parsing::Type,
    t: Type,
    existing: VarDefV,
)
    requires
        m.scopes.len() > 0,
        find_var_in(m.scopes.last(), identifier@) == Some(existing),
        resolve_type(var_type) == Ok::<Type, FailureV>(t),
        spec_compatible(t, existing.typ),
    ensures
        ({
            let st = step_inner_stmt(
                m,
                parsing::Statement::VariableDeclaration { identifier, var_type, value: None },
            );
            &&& st.m == m
            &&& st.result == Ok::<Option<(Type, Position)>, FailureV>(None)
        }),
{
}

/// Redeclaring at the same type with an acceptable initialiser stores to
/// the original id: the emitted instructions are the initialiser's
/// followed by one `Store` of the id minted at the first declaration, and
/// in particular no second allocation appears.
pub proof fn lemma_redeclare_with_value_stores_to_original(
    m: Model,
    identifier: String,
    var_type: parsing::Type,
    init: parsing::Expression,
    t: Type,
    existing: VarDefV,
)
    requires
        m.scopes.len() > 0,
        find_var_in(m.scopes.last(), identifier@) == Some(existing),
        resolve_type(var_type) == Ok::<Type, FailureV>(t),
        spec_compatible(t, existing.typ),
        super::model::expect_expr(m.env(), init, t).result is Ok,
    ensures
        ({
            let st = step_inner_stmt(
                m,
                parsing::Statement::VariableDeclaration {
                    identifier,
                    var_type,
                    value: Some(init),
                },
            );
            &&& st.m == m.emit_all(super::model::expect_expr(m.env(), init, t).emitted).emit(
                Instruction::Store(existing.id),
            )
            &&& st.result == Ok::<Option<(Type, Position)>, FailureV>(None)
        }),
{
}

/// Type compatibility of arrays is structural and recursive: two array
/// types are compatible exactly when their element types are.
pub proof fn lemma_compatible_array_structural(a: Type, b: Type)
    ensures
        spec_compatible(Type::Array(Box::new(a)), Type::Array(Box::new(b))) == spec_compatible(
            a,
            b,
        ),
{
}

/// Every type is compatible with itself, at arbitrary nesting depth.
pub proof fn lemma_compatible_reflexive(t: Type)
    ensures
        spec_compatible(t, t),
    decreases t,
{
    match t {
        Type::Array(inner) => {
            lemma_compatible_reflexive(*inner);
        },
        _ => {},
    }
}

/// Compatibility does not depend on the order of its arguments.
pub proof fn lemma_compatible_symmetric(a: Type, b: Type)
    ensures
        spec_compatible(a, b) == spec_compatible(b, a),
    decreases a,
{
    match (a, b) {
        (Type::Array(x), Type::Array(y)) => {
            lemma_compatible_symmetric(*x, *y);
        },
        _ => {},
    }
}

/// The type of an empty array literal is compatible with every array type
/// in both directions, at any depth: `[]` can stand wherever an array of
/// any element type is expected.
pub proof fn lemma_empty_array_compatible(t: Type)
    ensures
        spec_compatible(Type::Array(Box::new(Type::Any)), Type::Array(Box::new(t))),
        spec_compatible(Type::Array(Box::new(t)), Type::Array(Box::new(Type::Any))),
{
    assert(spec_compatible(Type::Any, t));
    assert(spec_compatible(t, Type::Any));
}

/// Calling a name with argument types that fit none of its overloads finds
/// no function at all — the failure is "function undefined", never a type
/// mismatch against one of the overloads.
pub proof fn lemma_overloads_no_fit(fns: Seq<FnDefV>, name: Seq<char>, args: Seq<Type>)
    requires
        forall|j: int| 0 <= j < fns.len() && (#[trigger] fns[j]).name == name
            ==> !params_compatible(fns[j].params, args),
    ensures
        lookup_fun(fns, name, args) is None,
    decreases fns.len(),
{
    if fns.len() > 0 {
        assert(fns[0] == fns.drop_first().push(fns[0]).last());
        lemma_overloads_no_fit(fns.drop_first(), name, args);
    }
}

/// Overloads coexist: lookup by name and argument types finds exactly the
/// first definition whose signature fits, so each overload is reached by
/// its own argument types regardless of the others.
pub proof fn lemma_overload_lookup_finds(fns: Seq<FnDefV>, i: int, args: Seq<Type>)
    requires
        0 <= i < fns.len(),
        params_compatible(fns[i].params, args),
        forall|j: int| 0 <= j < i ==> !((#[trigger] fns[j]).name == fns[i].name
            && params_compatible(fns[j].params, args)),
    ensures
        lookup_fun(fns, fns[i].name, args) == Some(fns[i]),
    decreases i,
{
    if i > 0 {
        lemma_overload_lookup_finds(fns.drop_first(), i - 1, args);
    }
}

/// Appending a definition to the function table changes no existing
/// lookup result; a lookup that found nothing now finds the new
/// definition exactly when its signature fits.
pub proof fn lemma_lookup_fun_push(fns: Seq<FnDefV>, d: FnDefV, name: Seq<char>, args: Seq<Type>)
    ensures
        lookup_fun(fns.push(d), name, args) == (match lookup_fun(fns, name, args) {
            Some(e) => Some(e),
            None => {
                if d.name == name && params_compatible(d.params, args) {
                    Some(d)
                } else {
                    None
                }
            },
        }),
    decreases fns.len(),
{
    if fns.len() == 0 {
        assert(fns.push(d)[0] == d);
        assert(fns.push(d).drop_first() =~= Seq::<FnDefV>::empty());
    } else {
        assert(fns.push(d)[0] == fns[0]);
        assert(fns.push(d).drop_first() =~= fns.drop_first().push(d));
        lemma_lookup_fun_push(fns.drop_first(), d, name, args);
    }
}

/// Recursion is possible because a function's signature is registered
/// before its body is checked: in the table the body sees — the old table
/// with the new definition appended — a call with the function's own
/// parameter types resolves to the new definition.
pub proof fn lemma_recursive_call_resolves(m: Model, name: Seq<char>, params: Seq<Type>, ret: Option<Type>, id: Id)
    requires
        lookup_fun(m.functions, name, params) is None,
    ensures
        ({
            let def = FnDefV { name, params, ret, id };
            lookup_fun(m.functions.push(def), name, params) == Some(def)
        }),
{
    let def = FnDefV { name, params, ret, id };
    assert forall|i: int| 0 <= i < params.len() implies spec_compatible(
        #[trigger] params[i],
        params[i],
    ) by {
        lemma_compatible_reflexive(params[i]);
    }
    lemma_lookup_fun_push(m.functions, def, name, params);
}

/// Return types are unified across all paths of a block: once a first
/// return has fixed the type, a statement that yields a return of an
/// incompatible type — directly or bubbled up out of a nested `if` or
/// `while` — fails with a type mismatch that reports the first type as
/// expected and the new one as encountered.
pub proof fn lemma_return_type_conflict(
    m: Model,
    stmts: Seq<parsing::Statement>,
    cur_t: Type,
    new_t: Type,
    p: Position,
)
    requires
        stmts.len() > 0,
        step_inner_stmt(m, stmts[0]).result == Ok::<Option<(Type, Position)>, FailureV>(
            Some((new_t, p)),
        ),
        !spec_compatible(cur_t, new_t),
    ensures
        run_block(m, stmts, Some(cur_t)) == (BlockCheck {
            m: step_inner_stmt(m, stmts[0]).m,
            result: Err(
                FailureV::UnexpectedType { pos: p, expected: cur_t, encountered: new_t },
            ),
        }),
{
}

/// Whether an instruction takes part in control flow: a label, or a jump
/// of any kind.
pub open spec fn is_control(i: Instruction) -> bool {
    match i {
        Instruction::Label(_) => true,
        Instruction::Jump(_) => true,
        Instruction::JumpIfTrue(_) => true,
        Instruction::JumpIfFalse(_) => true,
        _ => false,
    }
}

/// No instruction of the sequence takes part in control flow.
pub open spec fn no_control(ir: Seq<Instruction>) -> bool {
    forall|p: int| 0 <= p < ir.len() ==> !is_control(#[trigger] ir[p])
}

/// The sequence contains a label with the given id.
pub open spec fn has_label(span: Seq<Instruction>, t: Id) -> bool {
    exists|q: int| 0 <= q < span.len() && span[q] == Instruction::Label(t)
}

/// Every label of the span carries an id minted within the span's own id
/// range.
pub open spec fn span_labels_bounded(span: Seq<Instruction>, lo: int, hi: int) -> bool {
    forall|p: int| 0 <= p < span.len() ==> ((#[trigger] span[p]) matches Instruction::Label(id)
        ==> lo <= id < hi)
}

/// No two labels of the span share an id.
pub open spec fn span_labels_distinct(span: Seq<Instruction>) -> bool {
    forall|p: int, q: int| 0 <= p < q < span.len() ==> !((#[trigger] span[p]) matches
        Instruction::Label(i1) && (#[trigger] span[q]) matches Instruction::Label(i2) && i1 == i2)
}

/// Every jump of `span` targets a label that `whole` contains.
pub open spec fn span_jumps_resolved_in(span: Seq<Instruction>, whole: Seq<Instruction>) -> bool {
    forall|p: int| 0 <= p < span.len() ==> {
        &&& ((#[trigger] span[p]) matches Instruction::Jump(t) ==> has_label(whole, t))
        &&& (span[p] matches Instruction::JumpIfTrue(t) ==> has_label(whole, t))
        &&& (span[p] matches Instruction::JumpIfFalse(t) ==> has_label(whole, t))
    }
}

/// The control flow of a span emitted between ir lengths `lo` and `hi` is
/// structurally sound: its labels are minted within the span and unique,
/// and its jumps target its own labels.
pub open spec fn control_flow_ok(span: Seq<Instruction>, lo: int, hi: int) -> bool {
    &&& span_labels_bounded(span, lo, hi)
    &&& span_labels_distinct(span)
    &&& span_jumps_resolved_in(span, span)
}

/// A span without control instructions is trivially sound.
proof fn lemma_no_control_cf(span: Seq<Instruction>, lo: int, hi: int)
    requires
        no_control(span),
    ensures
        control_flow_ok(span, lo, hi),
{
    assert forall|p: int| 0 <= p < span.len() implies !is_control(span[p]) by {}
}

/// A label found in a part is found in the whole.
proof fn lemma_has_label_concat(a: Seq<Instruction>, b: Seq<Instruction>, t: Id)
    requires
        has_label(a, t) || has_label(b, t),
    ensures
        has_label(a + b, t),
{
    if has_label(a, t) {
        let q = choose|q: int| 0 <= q < a.len() && a[q] == Instruction::Label(t);
        assert((a + b)[q] == Instruction::Label(t));
    } else {
        let q = choose|q: int| 0 <= q < b.len() && b[q] == Instruction::Label(t);
        assert((a + b)[a.len() + q] == Instruction::Label(t));
    }
}

/// Two adjacent sound spans with adjacent id ranges make one sound span.
proof fn lemma_cf_concat(a: Seq<Instruction>, b: Seq<Instruction>, lo: int, mid: int, hi: int)
    requires
        lo <= mid <= hi,
        control_flow_ok(a, lo, mid),
        control_flow_ok(b, mid, hi),
    ensures
        control_flow_ok(a + b, lo, hi),
{
    let w = a + b;
    assert forall|p: int| 0 <= p < w.len() implies ((#[trigger] w[p]) matches Instruction::Label(
        id,
    ) ==> lo <= id < hi) by {
        if p < a.len() {
            assert(w[p] == a[p]);
        } else {
            assert(w[p] == b[p - a.len()]);
        }
    }
    assert forall|p: int, q: int| 0 <= p < q < w.len() implies !((#[trigger] w[p]) matches
        Instruction::Label(i1) && (#[trigger] w[q]) matches Instruction::Label(i2) && i1 == i2) by {
        if p < a.len() {
            assert(w[p] == a[p]);
        } else {
            assert(w[p] == b[p - a.len()]);
        }
        if q < a.len() {
            assert(w[q] == a[q]);
        } else {
            assert(w[q] == b[q - a.len()]);
        }
    }
    assert forall|p: int| 0 <= p < w.len() implies {
        &&& ((#[trigger] w[p]) matches Instruction::Jump(t) ==> has_label(w, t))
        &&& (w[p] matches Instruction::JumpIfTrue(t) ==> has_label(w, t))
        &&& (w[p] matches Instruction::JumpIfFalse(t) ==> has_label(w, t))
    } by {
        if p < a.len() {
            assert(w[p] == a[p]);
            match a[p] {
                Instruction::Jump(t) => lemma_has_label_concat(a, b, t),
                Instruction::JumpIfTrue(t) => lemma_has_label_concat(a, b, t),
                Instruction::JumpIfFalse(t) => lemma_has_label_concat(a, b, t),
                _ => {},
            }
        } else {
            assert(w[p] == b[p - a.len()]);
            match b[p - a.len()] {
                Instruction::Jump(t) => lemma_has_label_concat(a, b, t),
                Instruction::JumpIfTrue(t) => lemma_has_label_concat(a, b, t),
                Instruction::JumpIfFalse(t) => lemma_has_label_concat(a, b, t),
                _ => {},
            }
        }
    }
}

/// Appending one harmless instruction keeps a span free of control flow.
proof fn lemma_no_control_push(a: Seq<Instruction>, x: Instruction)
    requires
        no_control(a),
        !is_control(x),
    ensures
        no_control(a.push(x)),
{
    assert forall|p: int| 0 <= p < a.push(x).len() implies !is_control(
        #[trigger] a.push(x)[p],
    ) by {
        if p < a.len() {
            assert(a.push(x)[p] == a[p]);
        } else {
            assert(a.push(x)[p] == x);
        }
    }
}

/// One step of [`string_pushes`]: pushing the last character keeps the
/// span free of control instructions.
proof fn lemma_string_pushes_step(s: Seq<char>, c: char)
    requires
        s.len() > 0,
        s.last() == c,
        no_control(string_pushes(s.drop_last())),
    ensures
        no_control(string_pushes(s)),
{
    lemma_no_control_push(string_pushes(s.drop_last()), Instruction::Push(Value::Char(c)));
}

/// The pushes of a string literal contain no control instruction.
proof fn lemma_string_pushes_no_control(s: Seq<char>)
    ensures
        no_control(string_pushes(s)),
    decreases s.len(),
{
    if s.len() > 0 {
        lemma_string_pushes_no_control(s.drop_last());
        lemma_string_pushes_step(s, s.last());
    }
}

/// Expressions emit no control instructions: only pushes, opcodes and
/// calls flow out of expression checking.
proof fn lemma_check_expr_no_control(env: Env, e: parsing::Expression)
    ensures
        no_control(check_expr(env, e).emitted),
    decreases e, 0nat,
{
    match e {
        parsing::Expression::Array { pos, elements } => {
            if elements@.len() > 0 {
                lemma_check_expr_no_control(env, elements@[0]);
                let first = check_expr(env, elements@[0]);
                match first.result {
                    Ok((elem_t, _p)) => {
                        lemma_check_elems_no_control(
                            env,
                            elements@.drop_first(),
                            elem_t,
                            first.emitted,
                        );
                    },
                    Err(_f) => {},
                }
            }
        },
        parsing::Expression::StringLiteral { pos, value } => {
            lemma_string_pushes_no_control(value@);
        },
        parsing::Expression::FunctionCall { pos, identifier, args } => {
            lemma_check_args_no_control(env, args@, Seq::empty(), Seq::empty());
        },
        parsing::Expression::Add(l, r) => {
            lemma_expect_expr_no_control(env, *l, Type::Num);
            lemma_expect_expr_no_control(env, *r, Type::Num);
        },
        parsing::Expression::Subtract(l, r) => {
            lemma_expect_expr_no_control(env, *l, Type::Num);
            lemma_expect_expr_no_control(env, *r, Type::Num);
        },
        parsing::Expression::Multiply(l, r) => {
            lemma_expect_expr_no_control(env, *l, Type::Num);
            lemma_expect_expr_no_control(env, *r, Type::Num);
        },
        parsing::Expression::Divide(l, r) => {
            lemma_expect_expr_no_control(env, *l, Type::Num);
            lemma_expect_expr_no_control(env, *r, Type::Num);
        },
        parsing::Expression::GreaterThan(l, r) => {
            lemma_expect_expr_no_control(env, *l, Type::Num);
            lemma_expect_expr_no_control(env, *r, Type::Num);
        },
        parsing::Expression::LessThan(l, r) => {
            lemma_expect_expr_no_control(env, *l, Type::Num);
            lemma_expect_expr_no_control(env, *r, Type::Num);
        },
        parsing::Expression::Equal(l, r) => {
            lemma_check_expr_no_control(env, *l);
            lemma_check_expr_no_control(env, *r);
        },
        parsing::Expression::BooleanNot(inner) => {
            lemma_expect_expr_no_control(env, *inner, Type::Bool);
        },
        parsing::Expression::UnaryMinus(inner) => {
            lemma_expect_expr_no_control(env, *inner, Type::Num);
        },
        _ => {},
    }
}

/// See [`lemma_check_expr_no_control`].
proof fn lemma_expect_expr_no_control(env: Env, e: parsing::Expression, expected: Type)
    ensures
        no_control(expect_expr(env, e, expected).emitted),
    decreases e, 1nat,
{
    lemma_check_expr_no_control(env, e);
}

/// See [`lemma_check_expr_no_control`].
proof fn lemma_check_args_no_control(
    env: Env,
    remaining: Seq<parsing::Expression>,
    types: Seq<Type>,
    emitted: Seq<Instruction>,
)
    requires
        no_control(emitted),
    ensures
        no_control(check_args(env, remaining, types, emitted).emitted),
    decreases remaining, 0nat,
{
    if remaining.len() > 0 {
        lemma_check_expr_no_control(env, remaining[0]);
        let out = check_expr(env, remaining[0]);
        match out.result {
            Ok((t, _p)) => {
                lemma_check_args_no_control(
                    env,
                    remaining.drop_first(),
                    types.push(t),
                    emitted + out.emitted,
                );
            },
            Err(_f) => {},
        }
    }
}

/// See [`lemma_check_expr_no_control`].
proof fn lemma_check_elems_no_control(
    env: Env,
    remaining: Seq<parsing::Expression>,
    elem_t: Type,
    emitted: Seq<Instruction>,
)
    requires
        no_control(emitted),
    ensures
        no_control(check_elems(env, remaining, elem_t, emitted).emitted),
    decreases remaining, 0nat,
{
    if remaining.len() > 0 {
        lemma_expect_expr_no_control(env, remaining[0], elem_t);
        let out = expect_expr(env, remaining[0], elem_t);
        match out.result {
            Ok(_p) => {
                lemma_check_elems_no_control(
                    env,
                    remaining.drop_first(),
                    elem_t,
                    emitted + out.emitted,
                );
            },
            Err(_f) => {},
        }
    }
}

/// Binding parameters emits no control instructions.
proof fn lemma_declare_params_no_control(m: Model, params: Seq<(Seq<char>, Type)>)
    ensures
        declare_params(m, params).ir.len() >= m.ir.len(),
        declare_params(m, params).ir.subrange(0, m.ir.len() as int) == m.ir,
        no_control(
            declare_params(m, params).ir.subrange(
                m.ir.len() as int,
                declare_params(m, params).ir.len() as int,
            ),
        ),
    decreases params.len(),
{
    if params.len() == 0 {
        assert(declare_params(m, params).ir.subrange(0, m.ir.len() as int) =~= m.ir);
        assert(no_control(Seq::<Instruction>::empty()));
    } else {
        let p = params.last();
        let (m1, id) = declare_var(m, p.0, p.1, true);
        let m2 = m1.emit(Instruction::Parameter(id));
        lemma_declare_params_no_control(m2, params.drop_last());
        let mz = declare_params(m2, params.drop_last());
        assert(m1.ir == m.ir);
        assert(m2.ir == m.ir.push(Instruction::Parameter(id)));
        assert(mz.ir.subrange(0, m.ir.len() as int) =~= m.ir);
        let span = mz.ir.subrange(m.ir.len() as int, mz.ir.len() as int);
        let inner = mz.ir.subrange(m2.ir.len() as int, mz.ir.len() as int);
        assert forall|q: int| 0 <= q < span.len() implies !is_control(#[trigger] span[q]) by {
            if q == 0 {
                assert(m2.ir[m.ir.len() as int] == mz.ir.subrange(
                    0,
                    m2.ir.len() as int,
                )[m.ir.len() as int]);
                assert(span[0] == mz.ir[m.ir.len() as int]);
                assert(span[0] == Instruction::Parameter(id));
            } else {
                assert(span[q] == inner[q - 1]);
            }
        }
    }
}
/// Appending one harmless instruction to a span without labels keeps a
/// singleton span sound.
proof fn lemma_no_control_one(x: Instruction, lo: int, hi: int)
    requires
        !is_control(x),
        lo <= hi,
    ensures
        control_flow_ok(seq![x], lo, hi),
{
    assert forall|p: int| 0 <= p < seq![x].len() implies !is_control(#[trigger] seq![x][p]) by {
        assert(seq![x][p] == x);
    }
    lemma_no_control_cf(seq![x], lo, hi);
}

/// Shape of the span a `while` statement emits: a jump forward to the
/// condition, the loop-start label, the body, the condition label, the
/// condition itself, and the backward conditional jump. The span is sound:
/// both its labels exist and both jumps target them.
proof fn lemma_while_span_cf(
    b: Seq<Instruction>,
    c: Seq<Instruction>,
    end_id: Id,
    start_id: Id,
    bhi: int,
    hi: int,
)
    requires
        start_id == end_id + 1,
        end_id + 2 <= bhi <= hi,
        control_flow_ok(b, end_id + 2, bhi),
        no_control(c),
    ensures
        ({
            let w = seq![Instruction::Jump(end_id), Instruction::Label(start_id)] + b + seq![
                Instruction::Label(end_id),
            ] + c + seq![Instruction::JumpIfTrue(start_id)];
            control_flow_ok(w, end_id as int, hi)
        }),
{
    let blen = b.len() as int;
    let clen = c.len() as int;
    let lo = end_id as int;
    let w = seq![Instruction::Jump(end_id), Instruction::Label(start_id)] + b + seq![
        Instruction::Label(end_id),
    ] + c + seq![Instruction::JumpIfTrue(start_id)];
    assert forall|p: int| 0 <= p < w.len() implies ((#[trigger] w[p]) matches Instruction::Label(
        id,
    ) ==> lo <= id < hi) by {
        lemma_while_spot(b, c, end_id, start_id, p);
        if 2 <= p < 2 + blen {
            assert(w[p] == b[p - 2]);
        }
    }
    assert forall|p: int, q: int| 0 <= p < q < w.len() implies !((#[trigger] w[p]) matches
        Instruction::Label(i1) && (#[trigger] w[q]) matches Instruction::Label(i2) && i1 == i2) by {
        lemma_while_spot(b, c, end_id, start_id, p);
        lemma_while_spot(b, c, end_id, start_id, q);
    }
    assert forall|p: int| 0 <= p < w.len() implies {
        &&& ((#[trigger] w[p]) matches Instruction::Jump(t) ==> has_label(w, t))
        &&& (w[p] matches Instruction::JumpIfTrue(t) ==> has_label(w, t))
        &&& (w[p] matches Instruction::JumpIfFalse(t) ==> has_label(w, t))
    } by {
        lemma_while_spot(b, c, end_id, start_id, p);
        if p == 0 {
            lemma_while_spot(b, c, end_id, start_id, 2 + blen);
            assert(w[2 + blen] == Instruction::Label(end_id));
        } else if 2 <= p < 2 + blen {
            match b[p - 2] {
                Instruction::Jump(t) => lemma_while_lift(b, c, end_id, start_id, t),
                Instruction::JumpIfTrue(t) => lemma_while_lift(b, c, end_id, start_id, t),
                Instruction::JumpIfFalse(t) => lemma_while_lift(b, c, end_id, start_id, t),
                _ => {},
            }
        } else if p == w.len() - 1 {
            lemma_while_spot(b, c, end_id, start_id, 1);
            assert(w[1] == Instruction::Label(start_id));
        }
    }
}

/// Index arithmetic of the `while` span: which region position `p` is in.
proof fn lemma_while_spot(b: Seq<Instruction>, c: Seq<Instruction>, end_id: Id, start_id: Id, p: int)
    requires
        no_control(c),
    ensures
        ({
            let w = seq![Instruction::Jump(end_id), Instruction::Label(start_id)] + b + seq![
                Instruction::Label(end_id),
            ] + c + seq![Instruction::JumpIfTrue(start_id)];
            let blen = b.len() as int;
            let clen = c.len() as int;
            &&& w.len() == blen + clen + 4
            &&& (p == 0 ==> w[p] == Instruction::Jump(end_id))
            &&& (p == 1 ==> w[p] == Instruction::Label(start_id))
            &&& (2 <= p < 2 + blen ==> w[p] == b[p - 2])
            &&& (p == 2 + blen ==> w[p] == Instruction::Label(end_id))
            &&& (2 + blen < p < 3 + blen + clen ==> w[p] == c[p - 3 - blen] && !is_control(w[p]))
            &&& (p == 3 + blen + clen ==> w[p] == Instruction::JumpIfTrue(start_id))
        }),
{
    let blen = b.len() as int;
    let clen = c.len() as int;
    if 2 + blen < p < 3 + blen + clen {
        let w = seq![Instruction::Jump(end_id), Instruction::Label(start_id)] + b + seq![
            Instruction::Label(end_id),
        ] + c + seq![Instruction::JumpIfTrue(start_id)];
        assert(w[p] == c[p - 3 - blen]);
        assert(!is_control(c[p - 3 - blen]));
    }
}

/// A label of the body span exists in the whole `while` span too.
proof fn lemma_while_lift(b: Seq<Instruction>, c: Seq<Instruction>, end_id: Id, start_id: Id, t: Id)
    requires
        no_control(c),
        has_label(b, t),
    ensures
        ({
            let w = seq![Instruction::Jump(end_id), Instruction::Label(start_id)] + b + seq![
                Instruction::Label(end_id),
            ] + c + seq![Instruction::JumpIfTrue(start_id)];
            has_label(w, t)
        }),
{
    let w = seq![Instruction::Jump(end_id), Instruction::Label(start_id)] + b + seq![
        Instruction::Label(end_id),
    ] + c + seq![Instruction::JumpIfTrue(start_id)];
    let q = choose|q: int| 0 <= q < b.len() && b[q] == Instruction::Label(t);
    assert(w[2 + q] == Instruction::Label(t));
}

/// Shape of the span an `if` statement emits: the condition, a forward
/// conditional jump over the body to a label placed right after it.
proof fn lemma_if_span_cf(
    c: Seq<Instruction>,
    b: Seq<Instruction>,
    skip_id: Id,
    bhi: int,
    hi: int,
)
    requires
        skip_id + 1 <= bhi <= hi,
        no_control(c),
        control_flow_ok(b, skip_id + 1, bhi),
    ensures
        ({
            let w = c + seq![Instruction::JumpIfFalse(skip_id)] + b + seq![
                Instruction::Label(skip_id),
            ];
            control_flow_ok(w, skip_id as int, hi)
        }),
{
    let blen = b.len() as int;
    let clen = c.len() as int;
    let lo = skip_id as int;
    let w = c + seq![Instruction::JumpIfFalse(skip_id)] + b + seq![Instruction::Label(skip_id)];
    assert forall|p: int| 0 <= p < w.len() implies ((#[trigger] w[p]) matches Instruction::Label(
        id,
    ) ==> lo <= id < hi) by {
        lemma_if_spot(c, b, skip_id, p);
        if clen + 1 <= p < clen + 1 + blen {
            assert(w[p] == b[p - clen - 1]);
        }
    }
    assert forall|p: int, q: int| 0 <= p < q < w.len() implies !((#[trigger] w[p]) matches
        Instruction::Label(i1) && (#[trigger] w[q]) matches Instruction::Label(i2) && i1 == i2) by {
        lemma_if_spot(c, b, skip_id, p);
        lemma_if_spot(c, b, skip_id, q);
    }
    assert forall|p: int| 0 <= p < w.len() implies {
        &&& ((#[trigger] w[p]) matches Instruction::Jump(t) ==> has_label(w, t))
        &&& (w[p] matches Instruction::JumpIfTrue(t) ==> has_label(w, t))
        &&& (w[p] matches Instruction::JumpIfFalse(t) ==> has_label(w, t))
    } by {
        lemma_if_spot(c, b, skip_id, p);
        if p == clen {
            lemma_if_spot(c, b, skip_id, w.len() - 1);
            assert(w[w.len() - 1] == Instruction::Label(skip_id));
        } else if clen + 1 <= p < clen + 1 + blen {
            match b[p - clen - 1] {
                Instruction::Jump(t) => lemma_if_lift(c, b, skip_id, t),
                Instruction::JumpIfTrue(t) => lemma_if_lift(c, b, skip_id, t),
                Instruction::JumpIfFalse(t) => lemma_if_lift(c, b, skip_id, t),
                _ => {},
            }
        }
    }
}

/// Index arithmetic of the `if` span: which region position `p` is in.
proof fn lemma_if_spot(c: Seq<Instruction>, b: Seq<Instruction>, skip_id: Id, p: int)
    requires
        no_control(c),
    ensures
        ({
            let w = c + seq![Instruction::JumpIfFalse(skip_id)] + b + seq![
                Instruction::Label(skip_id),
            ];
            let blen = b.len() as int;
            let clen = c.len() as int;
            &&& w.len() == blen + clen + 2
            &&& (0 <= p < clen ==> w[p] == c[p] && !is_control(w[p]))
            &&& (p == clen ==> w[p] == Instruction::JumpIfFalse(skip_id))
            &&& (clen + 1 <= p < clen + 1 + blen ==> w[p] == b[p - clen - 1])
            &&& (p == clen + 1 + blen ==> w[p] == Instruction::Label(skip_id))
        }),
{
    let blen = b.len() as int;
    let clen = c.len() as int;
    if 0 <= p < clen {
        let w = c + seq![Instruction::JumpIfFalse(skip_id)] + b + seq![
            Instruction::Label(skip_id),
        ];
        assert(w[p] == c[p]);
        assert(!is_control(c[p]));
    }
}

/// A label of the body span exists in the whole `if` span too.
proof fn lemma_if_lift(c: Seq<Instruction>, b: Seq<Instruction>, skip_id: Id, t: Id)
    requires
        has_label(b, t),
    ensures
        ({
            let w = c + seq![Instruction::JumpIfFalse(skip_id)] + b + seq![
                Instruction::Label(skip_id),
            ];
            has_label(w, t)
        }),
{
    let w = c + seq![Instruction::JumpIfFalse(skip_id)] + b + seq![Instruction::Label(skip_id)];
    let q = choose|q: int| 0 <= q < b.len() && b[q] == Instruction::Label(t);
    assert(w[c.len() + 1 + q] == Instruction::Label(t));
}

/// Two harmless spans in a row are one harmless span.
proof fn lemma_no_control_concat(a: Seq<Instruction>, b: Seq<Instruction>)
    requires
        no_control(a),
        no_control(b),
    ensures
        no_control(a + b),
{
    assert forall|p: int| 0 <= p < (a + b).len() implies !is_control(#[trigger] (a + b)[p]) by {
        if p < a.len() {
            assert((a + b)[p] == a[p]);
        } else {
            assert((a + b)[p] == b[p - a.len()]);
        }
    }
}

/// Soundness composes across two checking steps: if the first leaves the
/// prefix alone and emits a sound span, and the second does the same after
/// it, the combined emission is one sound span.
proof fn lemma_cf_chain(m: Model, mid: Model, fin: Model)
    requires
        m.ir.len() <= mid.ir.len() <= fin.ir.len(),
        m.counter <= mid.counter <= fin.counter,
        mid.ir.subrange(0, m.ir.len() as int) == m.ir,
        fin.ir.subrange(0, mid.ir.len() as int) == mid.ir,
        control_flow_ok(
            mid.ir.subrange(m.ir.len() as int, mid.ir.len() as int),
            m.counter as int,
            mid.counter as int,
        ),
        control_flow_ok(
            fin.ir.subrange(mid.ir.len() as int, fin.ir.len() as int),
            mid.counter as int,
            fin.counter as int,
        ),
    ensures
        fin.ir.subrange(0, m.ir.len() as int) == m.ir,
        control_flow_ok(
            fin.ir.subrange(m.ir.len() as int, fin.ir.len() as int),
            m.counter as int,
            fin.counter as int,
        ),
{
    let a = mid.ir.subrange(m.ir.len() as int, mid.ir.len() as int);
    let b = fin.ir.subrange(mid.ir.len() as int, fin.ir.len() as int);
    lemma_cf_concat(a, b, m.counter as int, mid.counter as int, fin.counter as int);
    assert(fin.ir.subrange(0, m.ir.len() as int) =~= m.ir);
    assert(fin.ir.subrange(m.ir.len() as int, fin.ir.len() as int) =~= a + b);
}

/// The `while` case of [`lemma_step_inner_cf`].
proof fn lemma_step_inner_cf_while(m: Model, condition: parsing::Expression, block: Vec<parsing::Statement>)
    requires
        step_inner_stmt(m, parsing::Statement::While { condition, block }).m.counter
            <= usize::MAX,
    ensures
        ({
            let st = step_inner_stmt(m, parsing::Statement::While { condition, block });
            st.result is Ok ==> {
                &&& m.ir.len() <= st.m.ir.len()
                &&& m.counter <= st.m.counter
                &&& st.m.ir.subrange(0, m.ir.len() as int) == m.ir
                &&& control_flow_ok(
                    st.m.ir.subrange(m.ir.len() as int, st.m.ir.len() as int),
                    m.counter as int,
                    st.m.counter as int,
                )
            }
        }),
    decreases block@, 3nat,
{
    let lo = m.counter as int;
    let st = step_inner_stmt(m, parsing::Statement::While { condition, block });
    let end_id = m.mint();
    let m1 = m.bump().emit(Instruction::Jump(end_id));
    let start_id = m1.mint();
    let m2 = m1.bump().emit(Instruction::Label(start_id));
    let bc = check_block(m2, block@, Seq::empty());
    lemma_check_block_counter(m2, block@, Seq::empty());
    assert(bc.m.counter == st.m.counter);
    lemma_check_block_cf(m2, block@, Seq::empty());
    match bc.result {
        Err(_f) => {},
        Ok(block_ret) => {
            let bspan = bc.m.ir.subrange(m2.ir.len() as int, bc.m.ir.len() as int);
            let m3 = bc.m.emit(Instruction::Label(end_id));
            let cond = expect_expr(m3.env(), condition, Type::Bool);
            lemma_expect_expr_no_control(m3.env(), condition, Type::Bool);
            match cond.result {
                Err(_f) => {},
                Ok(p) => {
                    let st_m = m3.emit_all(cond.emitted).emit(Instruction::JumpIfTrue(start_id));
                    assert(end_id == lo);
                    assert(start_id == lo + 1);
                    let w = seq![Instruction::Jump(end_id), Instruction::Label(start_id)] + bspan
                        + seq![Instruction::Label(end_id)] + cond.emitted + seq![
                        Instruction::JumpIfTrue(start_id),
                    ];
                    assert(bc.m.ir =~= m2.ir + bspan);
                    assert(st_m.ir =~= m.ir + w);
                    assert(st_m.ir.subrange(0, m.ir.len() as int) =~= m.ir);
                    assert(st_m.ir.subrange(m.ir.len() as int, st_m.ir.len() as int) =~= w);
                    lemma_while_span_cf(
                        bspan,
                        cond.emitted,
                        end_id,
                        start_id,
                        bc.m.counter as int,
                        st_m.counter as int,
                    );
                },
            }
        },
    }
}

/// The `if` case of [`lemma_step_inner_cf`].
proof fn lemma_step_inner_cf_if(m: Model, condition: parsing::Expression, block: Vec<parsing::Statement>)
    requires
        step_inner_stmt(m, parsing::Statement::If { condition, block }).m.counter <= usize::MAX,
    ensures
        ({
            let st = step_inner_stmt(m, parsing::Statement::If { condition, block });
            st.result is Ok ==> {
                &&& m.ir.len() <= st.m.ir.len()
                &&& m.counter <= st.m.counter
                &&& st.m.ir.subrange(0, m.ir.len() as int) == m.ir
                &&& control_flow_ok(
                    st.m.ir.subrange(m.ir.len() as int, st.m.ir.len() as int),
                    m.counter as int,
                    st.m.counter as int,
                )
            }
        }),
    decreases block@, 3nat,
{
    let lo = m.counter as int;
    let st = step_inner_stmt(m, parsing::Statement::If { condition, block });
    let skip_id = m.mint();
    let mb = m.bump();
    let cond = expect_expr(mb.env(), condition, Type::Bool);
    lemma_expect_expr_no_control(mb.env(), condition, Type::Bool);
    match cond.result {
        Err(_f) => {},
        Ok(p) => {
            let m1 = mb.emit_all(cond.emitted).emit(Instruction::JumpIfFalse(skip_id));
            let bc = check_block(m1, block@, Seq::empty());
            lemma_check_block_counter(m1, block@, Seq::empty());
            assert(bc.m.counter == st.m.counter);
            lemma_check_block_cf(m1, block@, Seq::empty());
            match bc.result {
                Err(_f) => {},
                Ok(block_ret) => {
                    let bspan = bc.m.ir.subrange(m1.ir.len() as int, bc.m.ir.len() as int);
                    let st_m = bc.m.emit(Instruction::Label(skip_id));
                    assert(skip_id == lo);
                    let w = cond.emitted + seq![Instruction::JumpIfFalse(skip_id)] + bspan + seq![
                        Instruction::Label(skip_id),
                    ];
                    assert(bc.m.ir =~= m1.ir + bspan);
                    assert(st_m.ir =~= m.ir + w);
                    assert(st_m.ir.subrange(0, m.ir.len() as int) =~= m.ir);
                    assert(st_m.ir.subrange(m.ir.len() as int, st_m.ir.len() as int) =~= w);
                    lemma_if_span_cf(
                        cond.emitted,
                        bspan,
                        skip_id,
                        bc.m.counter as int,
                        st_m.counter as int,
                    );
                },
            }
        },
    }
}

/// A successfully checked inner statement appends to the instructions —
/// never rewriting what came before — and the appended span's control flow
/// is sound: its labels carry the ids minted during the statement, no two
/// labels share an id, and its jumps target its own labels.
pub proof fn lemma_step_inner_cf(m: Model, s: parsing::Statement)
    requires
        step_inner_stmt(m, s).m.counter <= usize::MAX,
    ensures
        ({
            let st = step_inner_stmt(m, s);
            st.result is Ok ==> {
                &&& m.ir.len() <= st.m.ir.len()
                &&& m.counter <= st.m.counter
                &&& st.m.ir.subrange(0, m.ir.len() as int) == m.ir
                &&& control_flow_ok(
                    st.m.ir.subrange(m.ir.len() as int, st.m.ir.len() as int),
                    m.counter as int,
                    st.m.counter as int,
                )
            }
        }),
    decreases s, 4nat,
{
    let lo = m.ir.len() as int;
    let clo = m.counter as int;
    match s {
        parsing::Statement::Return(value) => match value {
            Some(e) => {
                let out = check_expr(m.env(), e);
                lemma_check_expr_no_control(m.env(), e);
                match out.result {
                    Err(_f) => {},
                    Ok((t, p)) => {
                        let st_m = m.emit_all(out.emitted).emit(Instruction::ReturnValue);
                        let span = out.emitted.push(Instruction::ReturnValue);
                        assert(st_m.ir =~= m.ir + span);
                        assert(st_m.ir.subrange(0, lo) =~= m.ir);
                        assert(st_m.ir.subrange(lo, st_m.ir.len() as int) =~= span);
                        lemma_no_control_push(out.emitted, Instruction::ReturnValue);
                        lemma_no_control_cf(span, clo, clo);
                    },
                }
            },
            None => {
                let st_m = m.emit(Instruction::ReturnVoid);
                assert(st_m.ir =~= m.ir + seq![Instruction::ReturnVoid]);
                assert(st_m.ir.subrange(0, lo) =~= m.ir);
                assert(st_m.ir.subrange(lo, st_m.ir.len() as int) =~= seq![
                    Instruction::ReturnVoid,
                ]);
                lemma_no_control_one(Instruction::ReturnVoid, clo, clo);
            },
        },
        parsing::Statement::While { condition, block } => {
            lemma_step_inner_cf_while(m, condition, block);
        },
        parsing::Statement::If { condition, block } => {
            lemma_step_inner_cf_if(m, condition, block);
        },
        parsing::Statement::VariableDeclaration { identifier, var_type, value } => {
            match resolve_type(var_type) {
                Err(_f) => {},
                Ok(t) => {
                    match find_var_in(m.scopes.last(), identifier@) {
                        Some(existing) => {
                            if spec_compatible(t, existing.typ) {
                                match value {
                                    None => {
                                        assert(m.ir.subrange(0, lo) =~= m.ir);
                                        assert(m.ir.subrange(lo, lo) =~= Seq::<
                                            Instruction,
                                        >::empty());
                                        lemma_no_control_cf(Seq::empty(), clo, clo);
                                    },
                                    Some(init) => {
                                        let out = expect_expr(m.env(), init, t);
                                        lemma_expect_expr_no_control(m.env(), init, t);
                                        match out.result {
                                            Err(_f) => {},
                                            Ok(_p) => {
                                                let st_m = m.emit_all(out.emitted).emit(
                                                    Instruction::Store(existing.id),
                                                );
                                                let span = out.emitted.push(
                                                    Instruction::Store(existing.id),
                                                );
                                                assert(st_m.ir =~= m.ir + span);
                                                assert(st_m.ir.subrange(0, lo) =~= m.ir);
                                                assert(st_m.ir.subrange(
                                                    lo,
                                                    st_m.ir.len() as int,
                                                ) =~= span);
                                                lemma_no_control_push(
                                                    out.emitted,
                                                    Instruction::Store(existing.id),
                                                );
                                                lemma_no_control_cf(span, clo, clo);
                                            },
                                        }
                                    },
                                }
                            }
                        },
                        None => {
                            let (md, id) = declare_var(m, identifier@, t, value is Some);
                            let m1 = md.emit(Instruction::Local(id));
                            assert(md.ir == m.ir);
                            assert(md.counter >= m.counter);
                            match value {
                                None => {
                                    assert(m1.ir =~= m.ir + seq![Instruction::Local(id)]);
                                    assert(m1.ir.subrange(0, lo) =~= m.ir);
                                    assert(m1.ir.subrange(lo, m1.ir.len() as int) =~= seq![
                                        Instruction::Local(id),
                                    ]);
                                    lemma_no_control_one(
                                        Instruction::Local(id),
                                        clo,
                                        md.counter as int,
                                    );
                                },
                                Some(init) => {
                                    let out = expect_expr(m1.env(), init, t);
                                    lemma_expect_expr_no_control(m1.env(), init, t);
                                    match out.result {
                                        Err(_f) => {},
                                        Ok(_p) => {
                                            let st_m = m1.emit_all(out.emitted).emit(
                                                Instruction::Store(id),
                                            );
                                            let span = seq![Instruction::Local(id)] + out.emitted.push(
                                                Instruction::Store(id),
                                            );
                                            assert(st_m.ir =~= m.ir + span);
                                            assert(st_m.ir.subrange(0, lo) =~= m.ir);
                                            assert(st_m.ir.subrange(
                                                lo,
                                                st_m.ir.len() as int,
                                            ) =~= span);
                                            lemma_no_control_push(
                                                out.emitted,
                                                Instruction::Store(id),
                                            );
                                            lemma_no_control_one(Instruction::Local(id), 0, 0);
                                            lemma_no_control_concat(
                                                seq![Instruction::Local(id)],
                                                out.emitted.push(Instruction::Store(id)),
                                            );
                                            lemma_no_control_cf(span, clo, md.counter as int);
                                        },
                                    }
                                },
                            }
                        },
                    }
                },
            }
        },
        parsing::Statement::VariableAssignment { identifier, assign_to } => {
            let out = check_expr(m.env(), assign_to);
            lemma_check_expr_no_control(m.env(), assign_to);
            match out.result {
                Err(_f) => {},
                Ok((t, p)) => {
                    let m1 = m.emit_all(out.emitted);
                    match lookup_var(m1.scopes, identifier@) {
                        None => {},
                        Some(d) => {
                            if spec_compatible(d.typ, t) {
                                let st_m = m1.emit(Instruction::Store(d.id));
                                let span = out.emitted.push(Instruction::Store(d.id));
                                assert(st_m.ir =~= m.ir + span);
                                assert(st_m.ir.subrange(0, lo) =~= m.ir);
                                assert(st_m.ir.subrange(lo, st_m.ir.len() as int) =~= span);
                                lemma_no_control_push(out.emitted, Instruction::Store(d.id));
                                lemma_no_control_cf(span, clo, clo);
                            }
                        },
                    }
                },
            }
        },
        parsing::Statement::FunctionDefinition { .. } => {},
    }
}

/// See [`lemma_step_inner_cf`]: running a block's statements appends one
/// sound span.
proof fn lemma_run_block_cf(m: Model, stmts: Seq<parsing::Statement>, cur: Option<Type>)
    requires
        run_block(m, stmts, cur).m.counter <= usize::MAX,
    ensures
        ({
            let rb = run_block(m, stmts, cur);
            rb.result is Ok ==> {
                &&& m.ir.len() <= rb.m.ir.len()
                &&& m.counter <= rb.m.counter
                &&& rb.m.ir.subrange(0, m.ir.len() as int) == m.ir
                &&& control_flow_ok(
                    rb.m.ir.subrange(m.ir.len() as int, rb.m.ir.len() as int),
                    m.counter as int,
                    rb.m.counter as int,
                )
            }
        }),
    decreases stmts, 1nat,
{
    let lo = m.ir.len() as int;
    if stmts.len() == 0 {
        assert(m.ir.subrange(0, lo) =~= m.ir);
        assert(m.ir.subrange(lo, lo) =~= Seq::<Instruction>::empty());
        lemma_no_control_cf(Seq::empty(), m.counter as int, m.counter as int);
    } else {
        let st = step_inner_stmt(m, stmts[0]);
        match st.result {
            Err(_f) => {},
            Ok(None) => {
                lemma_run_block_counter(st.m, stmts.drop_first(), cur);
                lemma_step_inner_cf(m, stmts[0]);
                lemma_run_block_cf(st.m, stmts.drop_first(), cur);
                let rb = run_block(st.m, stmts.drop_first(), cur);
                if rb.result is Ok {
                    lemma_cf_chain(m, st.m, rb.m);
                }
            },
            Ok(Some((new_t, p))) => match cur {
                None => {
                    lemma_run_block_counter(st.m, stmts.drop_first(), Some(new_t));
                    lemma_step_inner_cf(m, stmts[0]);
                    lemma_run_block_cf(st.m, stmts.drop_first(), Some(new_t));
                    let rb = run_block(st.m, stmts.drop_first(), Some(new_t));
                    if rb.result is Ok {
                        lemma_cf_chain(m, st.m, rb.m);
                    }
                },
                Some(cur_t) => {
                    if spec_compatible(cur_t, new_t) {
                        lemma_run_block_counter(st.m, stmts.drop_first(), Some(cur_t));
                        lemma_step_inner_cf(m, stmts[0]);
                        lemma_run_block_cf(st.m, stmts.drop_first(), Some(cur_t));
                        let rb = run_block(st.m, stmts.drop_first(), Some(cur_t));
                        if rb.result is Ok {
                            lemma_cf_chain(m, st.m, rb.m);
                        }
                    }
                },
            },
        }
    }
}

/// See [`lemma_step_inner_cf`]: a successfully checked block appends one
/// sound span.
proof fn lemma_check_block_cf(m: Model, stmts: Seq<parsing::Statement>, params: Seq<(Seq<char>, Type)>)
    requires
        check_block(m, stmts, params).m.counter <= usize::MAX,
    ensures
        ({
            let bc = check_block(m, stmts, params);
            bc.result is Ok ==> {
                &&& m.ir.len() <= bc.m.ir.len()
                &&& m.counter <= bc.m.counter
                &&& bc.m.ir.subrange(0, m.ir.len() as int) == m.ir
                &&& control_flow_ok(
                    bc.m.ir.subrange(m.ir.len() as int, bc.m.ir.len() as int),
                    m.counter as int,
                    bc.m.counter as int,
                )
            }
        }),
    decreases stmts, 2nat,
{
    let lo = m.ir.len() as int;
    let m0 = m.push_scope();
    lemma_declare_params_no_control(m0, params);
    super::model::lemma_declare_params_counter(m0, params);
    let m1 = declare_params(m0, params);
    lemma_no_control_cf(
        m1.ir.subrange(m0.ir.len() as int, m1.ir.len() as int),
        m.counter as int,
        m1.counter as int,
    );
    let rb = run_block(m1, stmts, None);
    assert(rb.m.counter == check_block(m, stmts, params).m.counter);
    lemma_run_block_counter(m1, stmts, None);
    lemma_run_block_cf(m1, stmts, None);
    if rb.result is Ok {
        assert(m1.ir.subrange(0, lo) =~= m.ir);
        lemma_cf_chain(m, m1, rb.m);
    }
}

/// A successfully checked top-level statement appends one sound span.
pub proof fn lemma_step_top_cf(m: Model, s: parsing::Statement)
    requires
        !(s is VariableDeclaration),
        step_top_stmt(m, s).m.counter <= usize::MAX,
    ensures
        ({
            let st = step_top_stmt(m, s);
            st.result is Ok ==> {
                &&& m.ir.len() <= st.m.ir.len()
                &&& m.counter <= st.m.counter
                &&& st.m.ir.subrange(0, m.ir.len() as int) == m.ir
                &&& control_flow_ok(
                    st.m.ir.subrange(m.ir.len() as int, st.m.ir.len() as int),
                    m.counter as int,
                    st.m.counter as int,
                )
            }
        }),
{
    let lo = m.ir.len() as int;
    match s {
        parsing::Statement::FunctionDefinition { pos, identifier, parameters, return_type, body } => {
            let id = m.mint();
            let m1 = m.bump().emit(Instruction::Function(id));
            let ret = (match return_type {
                Some(ann) => match resolve_type(ann) {
                    Ok(t) => Ok(Some(t)),
                    Err(f) => Err(f),
                },
                None => Ok(None),
            });
            match ret {
                Err(_f) => {},
                Ok(checked_ret) => match resolve_params(parameters@, Seq::empty()) {
                    Err(_f) => {},
                    Ok(pairs) => {
                        let param_types = pair_types(pairs);
                        if lookup_fun(m1.functions, identifier@, param_types) is Some {
                        } else {
                            let def = super::FnDefV {
                                name: identifier@,
                                params: param_types,
                                ret: checked_ret,
                                id,
                            };
                            let m2 = Model { functions: m1.functions.push(def), ..m1 };
                            let bc = check_block(m2, body@, pairs);
                            assert(bc.m.counter == step_top_stmt(m, s).m.counter);
                            lemma_check_block_counter(m2, body@, pairs);
                            lemma_check_block_cf(m2, body@, pairs);
                            if bc.result is Ok {
                                assert(m2.ir =~= m.ir + seq![Instruction::Function(id)]);
                                assert(m2.ir.subrange(0, lo) =~= m.ir);
                                assert(m2.ir.subrange(lo, m2.ir.len() as int) =~= seq![
                                    Instruction::Function(id),
                                ]);
                                lemma_no_control_one(
                                    Instruction::Function(id),
                                    m.counter as int,
                                    m2.counter as int,
                                );
                                lemma_cf_chain(m, m2, bc.m);
                            }
                        }
                    },
                },
            }
        },
        _ => {},
    }
}

/// Checking a whole statement stream appends one sound span to an empty
/// output.
proof fn lemma_run_top_cf(m: Model, stmts: Seq<parsing::Statement>)
    requires
        top_level_supported(stmts),
        run_top_stmts(m, stmts).m.counter <= usize::MAX,
    ensures
        ({
            let tc = run_top_stmts(m, stmts);
            tc.result is Ok ==> {
                &&& m.ir.len() <= tc.m.ir.len()
                &&& m.counter <= tc.m.counter
                &&& tc.m.ir.subrange(0, m.ir.len() as int) == m.ir
                &&& control_flow_ok(
                    tc.m.ir.subrange(m.ir.len() as int, tc.m.ir.len() as int),
                    m.counter as int,
                    tc.m.counter as int,
                )
            }
        }),
    decreases stmts.len(),
{
    let lo = m.ir.len() as int;
    if stmts.len() == 0 {
        assert(m.ir.subrange(0, lo) =~= m.ir);
        assert(m.ir.subrange(lo, lo) =~= Seq::<Instruction>::empty());
        lemma_no_control_cf(Seq::empty(), m.counter as int, m.counter as int);
    } else {
        assert(!(stmts[0] is VariableDeclaration));
        let st = step_top_stmt(m, stmts[0]);
        match st.result {
            Err(_f) => {
                lemma_step_top_cf(m, stmts[0]);
            },
            Ok(_u) => {
                assert forall|k: int| 0 <= k < stmts.drop_first().len() implies !(
                #[trigger] stmts.drop_first()[k] is VariableDeclaration) by {
                    assert(stmts.drop_first()[k] == stmts[k + 1]);
                }
                lemma_run_top_counter(st.m, stmts.drop_first());
                lemma_step_top_cf(m, stmts[0]);
                lemma_run_top_cf(st.m, stmts.drop_first());
                let tc = run_top_stmts(st.m, stmts.drop_first());
                if tc.result is Ok {
                    lemma_cf_chain(m, st.m, tc.m);
                }
            },
        }
    }
}

/// Structural soundness of the emitted control flow, for the whole
/// program: in the instructions a program checks to, no two labels share
/// an id, and every jump — conditional or not — targets a label that the
/// instruction sequence contains. The id budget must fit the machine's
/// integers, as it does for any statement stream that exists in memory.
pub proof fn lemma_control_flow_sound(stmts: Seq<parsing::Statement>, ir: Seq<Instruction>)
    requires
        top_level_supported(stmts),
        check_program(stmts) == Ok::<Seq<Instruction>, FailureV>(ir),
        stmts_ids(stmts) <= usize::MAX,
    ensures
        span_labels_distinct(ir),
        span_jumps_resolved_in(ir, ir),
{
    let tc = run_top_stmts(Model::init(), stmts);
    assert(tc.m.ir == ir);
    lemma_run_top_counter(Model::init(), stmts);
    lemma_run_top_cf(Model::init(), stmts);
    assert(tc.m.ir.subrange(0, 0) =~= Seq::<Instruction>::empty());
    assert(tc.m.ir.subrange(0, tc.m.ir.len() as int) =~= tc.m.ir);
}

/// Ids are minted once and never repeat: every mint advances the counter,
/// so the next id is strictly larger — also when nothing is emitted in
/// between, as when two variables are declared back to back. The counter
/// must have machine headroom left, which the checker's operations demand
/// of their callers.
pub proof fn lemma_minted_ids_distinct(m: Model, name1: Seq<char>, name2: Seq<char>, t1: Type, t2: Type)
    requires
        m.counter + 2 <= usize::MAX,
        m.scopes.len() > 0,
    ensures
        m.bump().mint() == m.mint() + 1,
        ({
            let (m1, id1) = declare_var(m, name1, t1, false);
            let (_m2, id2) = declare_var(m1, name2, t2, false);
            id2 == id1 + 1
        }),
{
}
} // verus!
