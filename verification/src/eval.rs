//! The evaluator: a tree-walking interpreter over `Expr`.
//!
//! Dispatch is on the shape of the node and, for lists, on the head symbol:
//! binary operators, the special forms `val`, `if`, `empty?`, `pair`, `fn`,
//! or a function call. A list whose head is not a symbol is an implicit
//! sequence: every element is evaluated left to right in the same scope and
//! the non-`Nil` results are collected.
//!
//! Every executable function is proved equal to a fueled mathematical model
//! of itself. The fuel is the explicit evaluation-depth counter: each
//! descent into a subexpression spends one unit, and running out reports
//! `StackDepthExceeded` instead of exhausting the host stack.

use vstd::prelude::*;

use crate::env::{lookup_in, Env, FrameV};
use crate::errors::{ErrV, EvalError};
use crate::expr::{expr_v, exprs_v, lemma_exprs_v, strs_v, Expr, ExprV};
use crate::parser::{parse, spec_parse};
use crate::tokenizer::str_eq;

verus! {

/// The default evaluation-depth budget used by `eval`.
pub const MAX_EVAL_DEPTH: u64 = 512;

/// The head symbols handled as binary operators.
pub open spec fn is_binop_sym(s: Seq<char>) -> bool {
    ||| s == "+"@
    ||| s == "-"@
    ||| s == "/"@
    ||| s == "<"@
    ||| s == ">"@
    ||| s == "="@
    ||| s == "!="@
    ||| s == "or"@
}

/// Signed 32-bit wrap-around addition, over unbounded integers.
pub open spec fn wrap_add(a: int, b: int) -> int {
    if a + b > 2147483647 {
        a + b - 4294967296
    } else if a + b < -2147483648 {
        a + b + 4294967296
    } else {
        a + b
    }
}

/// Signed 32-bit wrap-around subtraction, over unbounded integers.
pub open spec fn wrap_sub(a: int, b: int) -> int {
    if a - b > 2147483647 {
        a - b - 4294967296
    } else if a - b < -2147483648 {
        a - b + 4294967296
    } else {
        a - b
    }
}

/// Truncating (toward zero) integer division.
pub open spec fn div_trunc(a: int, b: int) -> int {
    let q = (vstd::math::abs(a) / vstd::math::abs(b)) as int;
    if (a < 0) != (b < 0) {
        -q
    } else {
        q
    }
}

/// Truncating division with the single 32-bit wrap-around case.
pub open spec fn wrap_div(a: int, b: int) -> int {
    if div_trunc(a, b) > 2147483647 {
        div_trunc(a, b) - 4294967296
    } else {
        div_trunc(a, b)
    }
}

/// What a binary operator yields on two evaluated operands: arithmetic and
/// comparison need two integers, `or` needs two booleans, and anything else
/// is a type mismatch. A zero divisor is reported, not a fault. Addition,
/// subtraction and division wrap around at 32 bits as the plain machine
/// operations do, so no input can make them fault either.
pub open spec fn binop_result(op: Seq<char>, l: ExprV, r: ExprV) -> Result<ExprV, ErrV> {
    if op == "or"@ {
        match (l, r) {
            (ExprV::Bool(a), ExprV::Bool(b)) => Ok(ExprV::Bool(a || b)),
            _ => Err(ErrV::TypeMismatch),
        }
    } else {
        match (l, r) {
            (ExprV::Int(a), ExprV::Int(b)) => {
                if op == "+"@ {
                    Ok(ExprV::Int(wrap_add(a, b)))
                } else if op == "-"@ {
                    Ok(ExprV::Int(wrap_sub(a, b)))
                } else if op == "/"@ {
                    if b == 0 {
                        Err(ErrV::DivisionByZero)
                    } else {
                        Ok(ExprV::Int(wrap_div(a, b)))
                    }
                } else if op == "<"@ {
                    Ok(ExprV::Bool(a < b))
                } else if op == ">"@ {
                    Ok(ExprV::Bool(a > b))
                } else if op == "="@ {
                    Ok(ExprV::Bool(a == b))
                } else {
                    Ok(ExprV::Bool(a != b))
                }
            },
            _ => Err(ErrV::TypeMismatch),
        }
    }
}

/// Symbol resolution: the innermost binding, or `UnboundSymbol`.
pub open spec fn eval_symbol_v(name: Seq<char>, env: Seq<FrameV>, sc: int) -> Result<
    ExprV,
    ErrV,
> {
    match lookup_in(env, sc, name) {
        Some(v) => Ok(v),
        None => Err(ErrV::UnboundSymbol(name)),
    }
}

/// The `empty?` form: true exactly when the unevaluated operand is itself a
/// literal empty list. A narrow syntactic check, not a general predicate.
pub open spec fn empty_result(es: Seq<ExprV>) -> Result<ExprV, ErrV> {
    if es.len() != 2 {
        Err(ErrV::ArityError)
    } else {
        Ok(ExprV::Bool(es[1] is List && es[1]->List_0.len() == 0))
    }
}

/// The `fn` form: the first operand must be a list of bare symbols (the
/// parameter names), the second a list (the body forms). The lambda carries
/// no reference to its defining scope.
pub open spec fn fndef_result(es: Seq<ExprV>) -> Result<ExprV, ErrV> {
    if es.len() != 3 {
        Err(ErrV::ArityError)
    } else {
        match (es[1], es[2]) {
            (ExprV::List(ps), ExprV::List(body)) => {
                if forall|i: int| 0 <= i < ps.len() ==> ps[i] is Symbol {
                    Ok(ExprV::Lambda(Seq::new(ps.len(), |i: int| ps[i]->Symbol_0), body))
                } else {
                    Err(ErrV::TypeMismatch)
                }
            },
            _ => Err(ErrV::TypeMismatch),
        }
    }
}

/// The model of evaluating one node: the result and the environment after.
/// Leaves evaluate to themselves; a bare lambda evaluates to `Nil`; a pair,
/// which only arises as an already-evaluated value, evaluates to itself.
pub open spec fn eval_obj_v(e: ExprV, env: Seq<FrameV>, sc: int, fuel: nat) -> (Result<
    ExprV,
    ErrV,
>, Seq<FrameV>)
    decreases fuel, 3nat, 0nat,
{
    match e {
        ExprV::Nil => (Ok(ExprV::Nil), env),
        ExprV::Int(n) => (Ok(ExprV::Int(n)), env),
        ExprV::Bool(b) => (Ok(ExprV::Bool(b)), env),
        ExprV::Lambda(ps, body) => (Ok(ExprV::Nil), env),
        ExprV::Pair(a, b) => (Ok(ExprV::Pair(a, b)), env),
        ExprV::Symbol(s) => (eval_symbol_v(s, env, sc), env),
        ExprV::List(es) => eval_list_v(es, env, sc, fuel),
    }
}

/// The model of evaluating a list form: dispatch on the head symbol, or an
/// implicit sequence when the head is not a symbol. The empty list is an
/// empty implicit sequence.
pub open spec fn eval_list_v(es: Seq<ExprV>, env: Seq<FrameV>, sc: int, fuel: nat) -> (Result<
    ExprV,
    ErrV,
>, Seq<FrameV>)
    decreases fuel, 2nat, 0nat,
{
    if es.len() == 0 {
        (Ok(ExprV::List(Seq::empty())), env)
    } else {
        match es[0] {
            ExprV::Symbol(s) => {
                if is_binop_sym(s) {
                    eval_binop_v(s, es, env, sc, fuel)
                } else if s == "val"@ {
                    eval_define_v(es, env, sc, fuel)
                } else if s == "if"@ {
                    eval_if_v(es, env, sc, fuel)
                } else if s == "empty?"@ {
                    (empty_result(es), env)
                } else if s == "pair"@ {
                    eval_pair_v(es, env, sc, fuel)
                } else if s == "fn"@ {
                    (fndef_result(es), env)
                } else {
                    eval_call_v(s, es, env, sc, fuel)
                }
            },
            _ => {
                let (r, env2) = eval_elems_v(es, 0, env, sc, fuel);
                match r {
                    Ok(vs) => (Ok(ExprV::List(vs)), env2),
                    Err(e) => (Err(e), env2),
                }
            },
        }
    }
}

/// The model of an implicit sequence from element `i` on: evaluate left to
/// right in the same scope, dropping `Nil` results.
pub open spec fn eval_elems_v(es: Seq<ExprV>, i: int, env: Seq<FrameV>, sc: int, fuel: nat) -> (
    Result<Seq<ExprV>, ErrV>,
    Seq<FrameV>,
)
    decreases fuel, 0nat, es.len() - i,
{
    if i < 0 || i >= es.len() {
        (Ok(Seq::empty()), env)
    } else if fuel == 0 {
        (Err(ErrV::StackDepthExceeded), env)
    } else {
        let (r0, env1) = eval_obj_v(es[i], env, sc, (fuel - 1) as nat);
        match r0 {
            Err(e) => (Err(e), env1),
            Ok(v) => {
                let (rr, env2) = eval_elems_v(es, i + 1, env1, sc, fuel);
                match rr {
                    Err(e) => (Err(e), env2),
                    Ok(vs) => (
                        Ok(
                            if v is Nil {
                                vs
                            } else {
                                seq![v] + vs
                            },
                        ),
                        env2,
                    ),
                }
            },
        }
    }
}

/// The model of a binary-operator form: evaluate both operands left to
/// right, then apply the operator to the two values.
pub open spec fn eval_binop_v(op: Seq<char>, es: Seq<ExprV>, env: Seq<FrameV>, sc: int, fuel: nat) -> (
    Result<ExprV, ErrV>,
    Seq<FrameV>,
)
    decreases fuel, 1nat, 0nat,
{
    if fuel == 0 {
        (Err(ErrV::StackDepthExceeded), env)
    } else if es.len() != 3 {
        (Err(ErrV::ArityError), env)
    } else {
        let (r1, env1) = eval_obj_v(es[1], env, sc, (fuel - 1) as nat);
        match r1 {
            Err(e) => (Err(e), env1),
            Ok(l) => {
                let (r2, env2) = eval_obj_v(es[2], env1, sc, (fuel - 1) as nat);
                match r2 {
                    Err(e) => (Err(e), env2),
                    Ok(r) => (binop_result(op, l, r), env2),
                }
            },
        }
    }
}

/// The model of `val`: evaluate the second operand and bind it under the
/// bare symbol in the *current* frame; the form itself yields `Nil`.
pub open spec fn eval_define_v(es: Seq<ExprV>, env: Seq<FrameV>, sc: int, fuel: nat) -> (Result<
    ExprV,
    ErrV,
>, Seq<FrameV>)
    decreases fuel, 1nat, 0nat,
{
    if fuel == 0 {
        (Err(ErrV::StackDepthExceeded), env)
    } else if es.len() != 3 {
        (Err(ErrV::ArityError), env)
    } else {
        match es[1] {
            ExprV::Symbol(name) => {
                let (r, env1) = eval_obj_v(es[2], env, sc, (fuel - 1) as nat);
                match r {
                    Err(e) => (Err(e), env1),
                    Ok(v) => (
                        Ok(ExprV::Nil),
                        env1.update(
                            sc,
                            FrameV { parent: env1[sc].parent, vars: env1[sc].vars.insert(name, v) },
                        ),
                    ),
                }
            },
            _ => (Err(ErrV::TypeMismatch), env),
        }
    }
}

/// The model of `if`: the condition must evaluate to a boolean; exactly one
/// branch is then evaluated, in the same scope.
pub open spec fn eval_if_v(es: Seq<ExprV>, env: Seq<FrameV>, sc: int, fuel: nat) -> (Result<
    ExprV,
    ErrV,
>, Seq<FrameV>)
    decreases fuel, 1nat, 0nat,
{
    if fuel == 0 {
        (Err(ErrV::StackDepthExceeded), env)
    } else if es.len() != 4 {
        (Err(ErrV::ArityError), env)
    } else {
        let (r1, env1) = eval_obj_v(es[1], env, sc, (fuel - 1) as nat);
        match r1 {
            Err(e) => (Err(e), env1),
            Ok(ExprV::Bool(true)) => eval_obj_v(es[2], env1, sc, (fuel - 1) as nat),
            Ok(ExprV::Bool(false)) => eval_obj_v(es[3], env1, sc, (fuel - 1) as nat),
            Ok(_) => (Err(ErrV::TypeMismatch), env1),
        }
    }
}

/// The model of `pair`: evaluate both operands left to right and build the
/// cons cell.
pub open spec fn eval_pair_v(es: Seq<ExprV>, env: Seq<FrameV>, sc: int, fuel: nat) -> (Result<
    ExprV,
    ErrV,
>, Seq<FrameV>)
    decreases fuel, 1nat, 0nat,
{
    if fuel == 0 {
        (Err(ErrV::StackDepthExceeded), env)
    } else if es.len() != 3 {
        (Err(ErrV::ArityError), env)
    } else {
        let (r1, env1) = eval_obj_v(es[1], env, sc, (fuel - 1) as nat);
        match r1 {
            Err(e) => (Err(e), env1),
            Ok(l) => {
                let (r2, env2) = eval_obj_v(es[2], env1, sc, (fuel - 1) as nat);
                match r2 {
                    Err(e) => (Err(e), env2),
                    Ok(r) => (Ok(ExprV::Pair(Box::new(l), Box::new(r))), env2),
                }
            },
        }
    }
}

/// The model of binding call arguments: evaluate each remaining list
/// element in the *caller's* scope and bind it, in order, into the child
/// frame.
pub open spec fn bind_args_v(
    ps: Seq<Seq<char>>,
    es: Seq<ExprV>,
    i: int,
    env: Seq<FrameV>,
    caller: int,
    child: int,
    fuel: nat,
) -> (Result<(), ErrV>, Seq<FrameV>)
    decreases fuel, 0nat, ps.len() - i,
{
    if i < 0 || i >= ps.len() {
        (Ok(()), env)
    } else if fuel == 0 {
        (Err(ErrV::StackDepthExceeded), env)
    } else {
        let (r, env1) = eval_obj_v(es[i + 1], env, caller, (fuel - 1) as nat);
        match r {
            Err(e) => (Err(e), env1),
            Ok(v) => bind_args_v(
                ps,
                es,
                i + 1,
                env1.update(
                    child,
                    FrameV { parent: env1[child].parent, vars: env1[child].vars.insert(ps[i], v) },
                ),
                caller,
                child,
                fuel,
            ),
        }
    }
}

/// The model of a function call: the head symbol must resolve to a lambda;
/// a new frame chained to the *caller's* frame receives the arguments, and
/// the body is evaluated there as an implicit sequence.
pub open spec fn eval_call_v(s: Seq<char>, es: Seq<ExprV>, env: Seq<FrameV>, sc: int, fuel: nat) -> (
    Result<ExprV, ErrV>,
    Seq<FrameV>,
)
    decreases fuel, 1nat, 0nat,
{
    if fuel == 0 {
        (Err(ErrV::StackDepthExceeded), env)
    } else {
        match lookup_in(env, sc, s) {
            None => (Err(ErrV::UnboundSymbol(s)), env),
            Some(ExprV::Lambda(ps, body)) => {
                if es.len() - 1 != ps.len() {
                    (Err(ErrV::ArityError), env)
                } else {
                    let child = env.len() as int;
                    let env1 = env.push(FrameV { parent: Some(sc), vars: Map::empty() });
                    let (r, env2) = bind_args_v(ps, es, 0, env1, sc, child, fuel);
                    match r {
                        Err(e) => (Err(e), env2),
                        Ok(u) => eval_obj_v(ExprV::List(body), env2, child, (fuel - 1) as nat),
                    }
                }
            },
            Some(other) => (Err(ErrV::NotCallable(s)), env),
        }
    }
}

/// The model of evaluating one line of source text at the root scope.
pub open spec fn eval_v(src: Seq<char>, env: Seq<FrameV>, sc: int, fuel: nat) -> (Result<
    ExprV,
    ErrV,
>, Seq<FrameV>) {
    match spec_parse(src) {
        Err(e) => (Err(e), env),
        Ok(ev) => eval_obj_v(ev, env, sc, fuel),
    }
}

/// Prepend one collected value to an implicit-sequence outcome.
pub open spec fn elems_cons(v: ExprV, t: (Result<Seq<ExprV>, ErrV>, Seq<FrameV>)) -> (Result<
    Seq<ExprV>,
    ErrV,
>, Seq<FrameV>) {
    match t.0 {
        Ok(vs) => (Ok(seq![v] + vs), t.1),
        Err(e) => (Err(e), t.1),
    }
}

/// Prepend the values already collected to an implicit-sequence outcome.
pub open spec fn elems_append(acc: Seq<ExprV>, t: (Result<Seq<ExprV>, ErrV>, Seq<FrameV>)) -> (
    Result<Seq<ExprV>, ErrV>,
    Seq<FrameV>,
) {
    match t.0 {
        Ok(vs) => (Ok(acc + vs), t.1),
        Err(e) => (Err(e), t.1),
    }
}

/// Collecting one more value commutes with prepending it to the remaining
/// sequence evaluation.
proof fn lemma_elems_append_cons(
    acc: Seq<ExprV>,
    v: ExprV,
    t: (Result<Seq<ExprV>, ErrV>, Seq<FrameV>),
)
    ensures
        elems_append(acc, elems_cons(v, t)) == elems_append(acc.push(v), t),
{
    match t.0 {
        Ok(vs) => {
            assert(acc + (seq![v] + vs) =~= acc.push(v) + vs);
        },
        Err(_) => {},
    }
}

/// Whether a symbol names a binary operator.
fn is_binop_str(s: &String) -> (r: bool)
    ensures
        r == is_binop_sym(s@),
{
    str_eq(s.as_str(), "+") || str_eq(s.as_str(), "-") || str_eq(s.as_str(), "/") || str_eq(
        s.as_str(),
        "<",
    ) || str_eq(s.as_str(), ">") || str_eq(s.as_str(), "=") || str_eq(s.as_str(), "!=") || str_eq(
        s.as_str(),
        "or",
    )
}

/// Truncating 32-bit division with the single wrap-around case.
fn div_i32(a: i32, b: i32) -> (r: i32)
    requires
        b != 0,
    ensures
        r as int == wrap_div(a as int, b as int),
{
    let neg = (a < 0) != (b < 0);
    let mag_a: u64 = if a >= 0 {
        a as u64
    } else {
        (-(a as i64)) as u64
    };
    let mag_b: u64 = if b >= 0 {
        b as u64
    } else {
        (-(b as i64)) as u64
    };
    let q = mag_a / mag_b;
    proof {
        assert(mag_a == vstd::math::abs(a as int));
        assert(mag_b == vstd::math::abs(b as int));
        vstd::arithmetic::div_mod::lemma_div_nonincreasing(mag_a as int, mag_b as int);
        assert(q <= mag_a);
    }
    if neg {
        if q == 2147483648 {
            i32::MIN
        } else {
            -(q as i32)
        }
    } else {
        if q >= 2147483648 {
            i32::MIN
        } else {
            q as i32
        }
    }
}

/// Resolve a symbol in the active scope chain.
pub fn eval_symbol(s: String, env: &Env, scope: usize) -> (r: Result<Expr, EvalError>)
    ensures
        match (eval_symbol_v(s@, env@, scope as int), r) {
            (Ok(v), Ok(e)) => e@ == v,
            (Err(ev), Err(e)) => e@ == ev,
            _ => false,
        },
{
    match env.lookup(scope, &s) {
        Some(v) => Ok(v),
        None => Err(EvalError::UnboundSymbol(s)),
    }
}

/// Evaluate one expression node against the environment, at the given
/// scope, with the given depth budget.
pub fn eval_obj(obj: &Expr, env: &mut Env, scope: usize, fuel: u64) -> (r: Result<Expr, EvalError>)
    requires
        scope < old(env)@.len(),
    ensures
        ({
            let (res, envv) = eval_obj_v(obj@, old(env)@, scope as int, fuel as nat);
            &&& final(env)@ == envv
            &&& final(env)@.len() >= old(env)@.len()
            &&& match (res, r) {
                (Ok(ev), Ok(e)) => e@ == ev,
                (Err(ev), Err(e)) => e@ == ev,
                _ => false,
            }
        }),
    decreases fuel, 2nat,
{
    match obj {
        Expr::Nil => Ok(Expr::Nil),
        Expr::Int(n) => Ok(Expr::Int(*n)),
        Expr::Bool(b) => Ok(Expr::Bool(*b)),
        Expr::Lambda(_, _) => Ok(Expr::Nil),
        Expr::Pair(_, _) => Ok(obj.duplicate()),
        Expr::Symbol(s) => eval_symbol(s.clone(), env, scope),
        Expr::List(lst) => eval_list(lst, env, scope, fuel),
    }
}

/// Evaluate a list form: dispatch on the head symbol, or evaluate an
/// implicit sequence when the head is not a symbol.
pub fn eval_list(list: &Vec<Expr>, env: &mut Env, scope: usize, fuel: u64) -> (r: Result<
    Expr,
    EvalError,
>)
    requires
        scope < old(env)@.len(),
    ensures
        ({
            let (res, envv) = eval_list_v(exprs_v(list@), old(env)@, scope as int, fuel as nat);
            &&& final(env)@ == envv
            &&& final(env)@.len() >= old(env)@.len()
            &&& match (res, r) {
                (Ok(ev), Ok(e)) => e@ == ev,
                (Err(ev), Err(e)) => e@ == ev,
                _ => false,
            }
        }),
    decreases fuel, 1nat,
{
    proof {
        lemma_exprs_v(list@);
    }
    if list.len() == 0 {
        proof {
            assert(exprs_v(list@) =~= Seq::<ExprV>::empty());
            assert(exprs_v(Seq::<Expr>::empty()) == Seq::<ExprV>::empty());
        }
        return Ok(Expr::List(Vec::new()));
    }
    match &list[0] {
        Expr::Symbol(s) => {
            if is_binop_str(s) {
                eval_binary_op(list, env, scope, fuel)
            } else if str_eq(s.as_str(), "val") {
                eval_define(list, env, scope, fuel)
            } else if str_eq(s.as_str(), "if") {
                eval_if(list, env, scope, fuel)
            } else if str_eq(s.as_str(), "empty?") {
                eval_empty(list)
            } else if str_eq(s.as_str(), "pair") {
                eval_pair(list, env, scope, fuel)
            } else if str_eq(s.as_str(), "fn") {
                eval_function_definition(list, env)
            } else {
                eval_function_call(s.clone(), list, env, scope, fuel)
            }
        },
        _ => {
            let ghost es = exprs_v(list@);
            let ghost env0 = env@;
            let mut new_list: Vec<Expr> = Vec::new();
            let mut i: usize = 0;
            proof {
                assert(exprs_v(new_list@) =~= Seq::<ExprV>::empty());
                match eval_elems_v(es, 0, env0, scope as int, fuel as nat).0 {
                    Ok(vs) => {
                        assert(Seq::<ExprV>::empty() + vs =~= vs);
                    },
                    Err(_) => {},
                }
            }
            while i < list.len()
                invariant
                    i <= list@.len(),
                    list@.len() > 0,
                    scope < env@.len(),
                    env@.len() >= env0.len(),
                    es == exprs_v(list@),
                    env0 == old(env)@,
                    es.len() == list@.len(),
                    forall|j: int| 0 <= j < list@.len() ==> es[j] == expr_v(list@[j]),
                    !(es[0] is Symbol),
                    eval_elems_v(es, 0, env0, scope as int, fuel as nat) == elems_append(
                        exprs_v(new_list@),
                        eval_elems_v(es, i as int, env@, scope as int, fuel as nat),
                    ),
                decreases list@.len() - i,
            {
                if fuel == 0 {
                    return Err(EvalError::StackDepthExceeded);
                }
                let ghost env_pre = env@;
                let result = match eval_obj(&list[i], env, scope, fuel - 1) {
                    Ok(v) => v,
                    Err(e) => {
                        return Err(e);
                    },
                };
                proof {
                    lemma_exprs_v(new_list@);
                    lemma_exprs_v(new_list@.push(result));
                    assert(exprs_v(new_list@.push(result)) =~= exprs_v(new_list@).push(result@));
                    lemma_elems_append_cons(
                        exprs_v(new_list@),
                        result@,
                        eval_elems_v(es, i as int + 1, env@, scope as int, fuel as nat),
                    );
                }
                match result {
                    Expr::Nil => {},
                    _ => {
                        new_list.push(result);
                    },
                }
                i = i + 1;
            }
            proof {
                match eval_elems_v(es, 0, env0, scope as int, fuel as nat).0 {
                    Ok(vs) => {
                        assert(exprs_v(new_list@) + Seq::<ExprV>::empty() =~= exprs_v(new_list@));
                    },
                    Err(_) => {},
                }
            }
            Ok(Expr::List(new_list))
        },
    }
}

/// Evaluate a binary-operator form: both operands first, left to right,
/// then the operator applied to the two values.
pub fn eval_binary_op(list: &Vec<Expr>, env: &mut Env, scope: usize, fuel: u64) -> (r: Result<
    Expr,
    EvalError,
>)
    requires
        scope < old(env)@.len(),
        list@.len() >= 1,
        list@[0] is Symbol,
        is_binop_sym(list@[0]->Symbol_0@),
    ensures
        ({
            let (res, envv) = eval_binop_v(
                list@[0]->Symbol_0@,
                exprs_v(list@),
                old(env)@,
                scope as int,
                fuel as nat,
            );
            &&& final(env)@ == envv
            &&& final(env)@.len() >= old(env)@.len()
            &&& match (res, r) {
                (Ok(ev), Ok(e)) => e@ == ev,
                (Err(ev), Err(e)) => e@ == ev,
                _ => false,
            }
        }),
    decreases fuel, 0nat,
{
    proof {
        lemma_exprs_v(list@);
    }
    if fuel == 0 {
        return Err(EvalError::StackDepthExceeded);
    }
    if list.len() != 3 {
        return Err(EvalError::ArityError);
    }
    let lhs = match eval_obj(&list[1], env, scope, fuel - 1) {
        Ok(v) => v,
        Err(e) => {
            return Err(e);
        },
    };
    let rhs = match eval_obj(&list[2], env, scope, fuel - 1) {
        Ok(v) => v,
        Err(e) => {
            return Err(e);
        },
    };
    let op = match &list[0] {
        Expr::Symbol(s) => s,
        _ => {
            // Unreachable: the precondition pins the head to a symbol.
            proof {
                assert(false);
            }
            return Err(EvalError::TypeMismatch);
        },
    };
    if str_eq(op.as_str(), "or") {
        match (lhs, rhs) {
            (Expr::Bool(a), Expr::Bool(b)) => Ok(Expr::Bool(a || b)),
            _ => Err(EvalError::TypeMismatch),
        }
    } else {
        let (a, b) = match (lhs, rhs) {
            (Expr::Int(a), Expr::Int(b)) => (a, b),
            _ => {
                return Err(EvalError::TypeMismatch);
            },
        };
        if str_eq(op.as_str(), "+") {
            Ok(Expr::Int(a.wrapping_add(b)))
        } else if str_eq(op.as_str(), "-") {
            Ok(Expr::Int(a.wrapping_sub(b)))
        } else if str_eq(op.as_str(), "/") {
            if b == 0 {
                Err(EvalError::DivisionByZero)
            } else {
                Ok(Expr::Int(div_i32(a, b)))
            }
        } else if str_eq(op.as_str(), "<") {
            Ok(Expr::Bool(a < b))
        } else if str_eq(op.as_str(), ">") {
            Ok(Expr::Bool(a > b))
        } else if str_eq(op.as_str(), "=") {
            Ok(Expr::Bool(a == b))
        } else {
            Ok(Expr::Bool(a != b))
        }
    }
}

/// Evaluate a `val` form: bind the evaluated second operand under the bare
/// symbol in the current frame; the form yields `Nil`.
pub fn eval_define(list: &Vec<Expr>, env: &mut Env, scope: usize, fuel: u64) -> (r: Result<
    Expr,
    EvalError,
>)
    requires
        scope < old(env)@.len(),
    ensures
        ({
            let (res, envv) = eval_define_v(exprs_v(list@), old(env)@, scope as int, fuel as nat);
            &&& final(env)@ == envv
            &&& final(env)@.len() >= old(env)@.len()
            &&& match (res, r) {
                (Ok(ev), Ok(e)) => e@ == ev,
                (Err(ev), Err(e)) => e@ == ev,
                _ => false,
            }
        }),
    decreases fuel, 0nat,
{
    proof {
        lemma_exprs_v(list@);
    }
    if fuel == 0 {
        return Err(EvalError::StackDepthExceeded);
    }
    if list.len() != 3 {
        return Err(EvalError::ArityError);
    }
    let name = match &list[1] {
        Expr::Symbol(n) => n.clone(),
        _ => {
            return Err(EvalError::TypeMismatch);
        },
    };
    let value = match eval_obj(&list[2], env, scope, fuel - 1) {
        Ok(v) => v,
        Err(e) => {
            return Err(e);
        },
    };
    env.define(scope, name, value);
    Ok(Expr::Nil)
}

/// Evaluate an `if` form: the condition must be a boolean; evaluate exactly
/// one branch, in the same scope.
pub fn eval_if(list: &Vec<Expr>, env: &mut Env, scope: usize, fuel: u64) -> (r: Result<
    Expr,
    EvalError,
>)
    requires
        scope < old(env)@.len(),
    ensures
        ({
            let (res, envv) = eval_if_v(exprs_v(list@), old(env)@, scope as int, fuel as nat);
            &&& final(env)@ == envv
            &&& final(env)@.len() >= old(env)@.len()
            &&& match (res, r) {
                (Ok(ev), Ok(e)) => e@ == ev,
                (Err(ev), Err(e)) => e@ == ev,
                _ => false,
            }
        }),
    decreases fuel, 0nat,
{
    proof {
        lemma_exprs_v(list@);
    }
    if fuel == 0 {
        return Err(EvalError::StackDepthExceeded);
    }
    if list.len() != 4 {
        return Err(EvalError::ArityError);
    }
    let cond = match eval_obj(&list[1], env, scope, fuel - 1) {
        Ok(v) => v,
        Err(e) => {
            return Err(e);
        },
    };
    match cond {
        Expr::Bool(true) => eval_obj(&list[2], env, scope, fuel - 1),
        Expr::Bool(false) => eval_obj(&list[3], env, scope, fuel - 1),
        _ => Err(EvalError::TypeMismatch),
    }
}

/// Evaluate an `empty?` form: true exactly when the unevaluated operand is
/// a literal empty list.
pub fn eval_empty(list: &Vec<Expr>) -> (r: Result<Expr, EvalError>)
    ensures
        match (empty_result(exprs_v(list@)), r) {
            (Ok(ev), Ok(e)) => e@ == ev,
            (Err(ev), Err(e)) => e@ == ev,
            _ => false,
        },
{
    proof {
        lemma_exprs_v(list@);
    }
    if list.len() != 2 {
        return Err(EvalError::ArityError);
    }
    let mut dummy = false;
    if let Expr::List(list_val) = &list[1] {
        proof {
            lemma_exprs_v(list_val@);
        }
        if list_val.len() == 0 {
            dummy = true;
        }
    }
    Ok(Expr::Bool(dummy))
}

/// Evaluate a `pair` form: both operands left to right, then the cons cell.
pub fn eval_pair(list: &Vec<Expr>, env: &mut Env, scope: usize, fuel: u64) -> (r: Result<
    Expr,
    EvalError,
>)
    requires
        scope < old(env)@.len(),
    ensures
        ({
            let (res, envv) = eval_pair_v(exprs_v(list@), old(env)@, scope as int, fuel as nat);
            &&& final(env)@ == envv
            &&& final(env)@.len() >= old(env)@.len()
            &&& match (res, r) {
                (Ok(ev), Ok(e)) => e@ == ev,
                (Err(ev), Err(e)) => e@ == ev,
                _ => false,
            }
        }),
    decreases fuel, 0nat,
{
    proof {
        lemma_exprs_v(list@);
    }
    if fuel == 0 {
        return Err(EvalError::StackDepthExceeded);
    }
    if list.len() != 3 {
        return Err(EvalError::ArityError);
    }
    let lhs = match eval_obj(&list[1], env, scope, fuel - 1) {
        Ok(v) => v,
        Err(e) => {
            return Err(e);
        },
    };
    let rhs = match eval_obj(&list[2], env, scope, fuel - 1) {
        Ok(v) => v,
        Err(e) => {
            return Err(e);
        },
    };
    Ok(Expr::Pair(Box::new(lhs), Box::new(rhs)))
}

/// Evaluate an `fn` form: build the lambda value from the parameter-name
/// list and the body list. The environment is untouched.
pub fn eval_function_definition(list: &Vec<Expr>, _env: &mut Env) -> (r: Result<Expr, EvalError>)
    ensures
        final(_env)@ == old(_env)@,
        match (fndef_result(exprs_v(list@)), r) {
            (Ok(ev), Ok(e)) => e@ == ev,
            (Err(ev), Err(e)) => e@ == ev,
            _ => false,
        },
{
    proof {
        lemma_exprs_v(list@);
    }
    if list.len() != 3 {
        return Err(EvalError::ArityError);
    }
    let params = match &list[1] {
        Expr::List(el) => {
            let mut args: Vec<String> = Vec::new();
            let mut i: usize = 0;
            proof {
                lemma_exprs_v(el@);
            }
            while i < el.len()
                invariant
                    i <= el@.len(),
                    args@.len() == i,
                    list@.len() == 3,
                    exprs_v(list@).len() == 3,
                    exprs_v(list@)[1] == ExprV::List(exprs_v(el@)),
                    exprs_v(el@).len() == el@.len(),
                    forall|j: int|
                        0 <= j < el@.len() ==> #[trigger] exprs_v(el@)[j] == expr_v(el@[j]),
                    forall|j: int| 0 <= j < i ==> (#[trigger] exprs_v(el@)[j]) is Symbol,
                    forall|j: int|
                        0 <= j < i ==> (#[trigger] args@[j])@ == exprs_v(el@)[j]->Symbol_0,
                decreases el@.len() - i,
            {
                match &el[i] {
                    Expr::Symbol(name) => {
                        let cloned = name.clone();
                        proof {
                            assert(exprs_v(el@)[i as int] == ExprV::Symbol(cloned@));
                        }
                        args.push(cloned);
                    },
                    _ => {
                        return Err(EvalError::TypeMismatch);
                    },
                }
                i = i + 1;
            }
            args
        },
        _ => {
            return Err(EvalError::TypeMismatch);
        },
    };
    proof {
        lemma_exprs_v(list@);
    }
    let body = match list[2].duplicate() {
        Expr::List(b) => b,
        _ => {
            return Err(EvalError::TypeMismatch);
        },
    };
    proof {
        lemma_exprs_v(list@);
        if let Expr::List(el) = list@[1] {
            assert(strs_v(params@) =~= Seq::new(
                exprs_v(el@).len(),
                |i: int| exprs_v(el@)[i]->Symbol_0,
            ));
        }
    }
    Ok(Expr::Lambda(params, body))
}

/// Evaluate a function call: resolve the head symbol to a lambda, bind the
/// evaluated arguments into a new frame chained to the caller's frame, and
/// evaluate the body there as an implicit sequence.
pub fn eval_function_call(s: String, list: &Vec<Expr>, env: &mut Env, scope: usize, fuel: u64) -> (r:
    Result<Expr, EvalError>)
    requires
        scope < old(env)@.len(),
    ensures
        ({
            let (res, envv) = eval_call_v(s@, exprs_v(list@), old(env)@, scope as int, fuel as nat);
            &&& final(env)@ == envv
            &&& final(env)@.len() >= old(env)@.len()
            &&& match (res, r) {
                (Ok(ev), Ok(e)) => e@ == ev,
                (Err(ev), Err(e)) => e@ == ev,
                _ => false,
            }
        }),
    decreases fuel, 0nat,
{
    proof {
        lemma_exprs_v(list@);
    }
    if fuel == 0 {
        return Err(EvalError::StackDepthExceeded);
    }
    match env.lookup(scope, &s) {
        None => Err(EvalError::UnboundSymbol(s)),
        Some(Expr::Lambda(params, body)) => {
            if list.len() == 0 || list.len() - 1 != params.len() {
                return Err(EvalError::ArityError);
            }
            let ghost ps = strs_v(params@);
            let ghost bodyv = exprs_v(body@);
            let ghost es = exprs_v(list@);
            let ghost env0 = old(env)@;
            let child = env.extend(scope);
            let ghost env1 = env@;
            let mut i: usize = 0;
            while i < params.len()
                invariant
                    i <= params@.len(),
                    list@.len() == params@.len() + 1,
                    fuel >= 1,
                    scope < env@.len(),
                    child < env@.len(),
                    child == env0.len(),
                    env@.len() >= env0.len(),
                    ps == strs_v(params@),
                    bodyv == exprs_v(body@),
                    es == exprs_v(list@),
                    env0 == old(env)@,
                    es.len() == list@.len(),
                    ps.len() == params@.len(),
                    lookup_in(env0, scope as int, s@) == Some(ExprV::Lambda(ps, bodyv)),
                    env1 == env0.push(
                        FrameV { parent: Some(scope as int), vars: Map::empty() },
                    ),
                    forall|j: int| 0 <= j < list@.len() ==> es[j] == expr_v(list@[j]),
                    forall|j: int| 0 <= j < params@.len() ==> ps[j] == #[trigger] params@[j]@,
                    bind_args_v(ps, es, 0, env1, scope as int, child as int, fuel as nat)
                        == bind_args_v(
                        ps,
                        es,
                        i as int,
                        env@,
                        scope as int,
                        child as int,
                        fuel as nat,
                    ),
                decreases params@.len() - i,
            {
                let v = match eval_obj(&list[i + 1], env, scope, fuel - 1) {
                    Ok(v) => v,
                    Err(e) => {
                        return Err(e);
                    },
                };
                env.define(child, params[i].clone(), v);
                i = i + 1;
            }
            let body_expr = Expr::List(body);
            eval_obj(&body_expr, env, child, fuel - 1)
        },
        Some(_) => Err(EvalError::NotCallable(s)),
    }
}

/// Evaluate one line of source text at the root scope of a long-lived
/// environment: parse, then walk the tree with the default depth budget.
pub fn eval(program: &str, env: &mut Env) -> (r: Result<Expr, EvalError>)
    requires
        old(env)@.len() >= 1,
    ensures
        ({
            let (res, envv) = eval_v(program@, old(env)@, 0, MAX_EVAL_DEPTH as nat);
            &&& final(env)@ == envv
            &&& final(env)@.len() >= old(env)@.len()
            &&& match (res, r) {
                (Ok(ev), Ok(e)) => e@ == ev,
                (Err(ev), Err(e)) => e@ == ev,
                _ => false,
            }
        }),
{
    let parsed = match parse(program) {
        Ok(e) => e,
        Err(err) => {
            return Err(err);
        },
    };
    eval_obj(&parsed, env, 0, MAX_EVAL_DEPTH)
}

/// Absence in every frame makes the chain lookup fail.
proof fn lemma_lookup_absent(env: Seq<FrameV>, sc: int, name: Seq<char>)
    requires
        forall|i: int| 0 <= i < env.len() ==> !(#[trigger] env[i]).vars.contains_key(name),
    ensures
        lookup_in(env, sc, name) is None,
    decreases sc,
{
    if 0 <= sc < env.len() && !env[sc].vars.contains_key(name) {
        match env[sc].parent {
            Some(p) => {
                if 0 <= p < sc {
                    lemma_lookup_absent(env, p, name);
                }
            },
            None => {},
        }
    }
}

/// Law: a symbol bound in no frame evaluates to the `UnboundSymbol`
/// failure, whatever scope the lookup starts from.
pub proof fn lemma_unbound_symbol_fails(name: Seq<char>, env: Seq<FrameV>, sc: int)
    requires
        forall|i: int| 0 <= i < env.len() ==> !(#[trigger] env[i]).vars.contains_key(name),
    ensures
        eval_symbol_v(name, env, sc) == Err::<ExprV, ErrV>(ErrV::UnboundSymbol(name)),
{
    lemma_lookup_absent(env, sc, name);
}

/// Law: an arithmetic or comparison form whose two operands evaluate to
/// values that are not both integers fails with `TypeMismatch` rather than
/// an uncontrolled fault.
pub proof fn lemma_binop_type_mismatch(
    op: Seq<char>,
    es: Seq<ExprV>,
    env: Seq<FrameV>,
    sc: int,
    fuel: nat,
)
    requires
        fuel > 0,
        es.len() == 3,
        is_binop_sym(op),
        op != "or"@,
        ({
            let (r1, env1) = eval_obj_v(es[1], env, sc, (fuel - 1) as nat);
            let (r2, env2) = eval_obj_v(es[2], env1, sc, (fuel - 1) as nat);
            r1 is Ok && r2 is Ok && !(r1->Ok_0 is Int && r2->Ok_0 is Int)
        }),
    ensures
        eval_binop_v(op, es, env, sc, fuel).0 == Err::<ExprV, ErrV>(ErrV::TypeMismatch),
{
}

/// Law: evaluating a symbol changes no binding, so reading the same
/// defined symbol twice in a row yields the same value and state.
pub proof fn lemma_symbol_read_idempotent(s: Seq<char>, env: Seq<FrameV>, sc: int, fuel: nat)
    ensures
        ({
            let (r1, env1) = eval_obj_v(ExprV::Symbol(s), env, sc, fuel);
            &&& env1 == env
            &&& eval_obj_v(ExprV::Symbol(s), env1, sc, fuel) == (r1, env1)
        }),
{
}

} // verus!
