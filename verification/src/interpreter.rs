//! The tree-walking evaluator, in two layers.
//!
//! The first layer is a specification-level big-step interpreter over the
//! mathematical shadows (`ExprV`, `StmtV`, `ValueV`, `EnvV`): a total
//! function from program and machine state to result and next state. It
//! is total because it runs under two explicit budgets: `depth` bounds
//! the recursion depth, standing in for the host call stack that bounds
//! any direct tree-walking evaluator, and each loop may run at most
//! `LOOP_LIMIT` iterations, an injected step counter. Exhausting either
//! yields the `OutOfFuel` fault instead of a crash or a hang.
//!
//! The second layer is the executable evaluator, proved to return exactly
//! what the specification interpreter says, state included. Determinism
//! of evaluation is therefore visible in the contracts themselves: the
//! result and the whole output are functions of the program and the
//! starting state alone.

use crate::ast::{view_exprs, view_stmts, lemma_view_exprs, lemma_view_stmts, Expr, ExprV, Lit,
    LitV, BinOp, LogicalOp, Stmt, StmtV, UnaryOp};
use crate::environment::{
    env_assign, env_define, env_push, env_wf, global_env_v, lemma_assign_wf, lemma_lookup_wf,
    lookup_in, spec_clock_value, spec_tick, val_wf, EnvV, Environment,
};
use crate::lox_object::{
    bool_v, clone_bytes, clone_names, spec_add_values, spec_div_values, spec_eq_values,
    spec_lt_values, spec_mul_values, spec_render_value, spec_sub_values, truthy, CallV, FunV,
    LoxCallable, LoxFunction, RuntimeError, ValueV, Values,
};
use vstd::prelude::*;

verus! {

/// The bound on evaluation recursion depth: the stand-in for the host's
/// call stack, which is what bounds an unbudgeted tree walk.
pub const EVAL_DEPTH: u64 = 256;

/// The bound on the iterations of any single loop.
pub const LOOP_LIMIT: u64 = 1_000_000;

/// What evaluating an expression yields: a value or a fault, and the
/// machine state after it.
pub struct ExprOut {
    pub res: Result<ValueV, RuntimeError>,
    pub env: EnvV,
}

/// What evaluating an argument list yields.
pub struct ArgsOut {
    pub res: Result<Seq<ValueV>, RuntimeError>,
    pub env: EnvV,
}

/// What executing a statement yields. `Ok(Some(v))` is the
/// return-propagation channel: a `return` statement produced `v`, and
/// every enclosing statement passes it up unchanged.
pub struct StmtOut {
    pub res: Result<Option<ValueV>, RuntimeError>,
    pub env: EnvV,
}

/// The value of a literal.
pub open spec fn lit_value(l: LitV) -> ValueV {
    match l {
        LitV::Number(n) => ValueV::Number(n),
        LitV::Text(t) => ValueV::Str(t),
        LitV::True => bool_v(true),
        LitV::False => bool_v(false),
        LitV::Nil => ValueV::Null,
    }
}

/// The table of the binary operators over two already-evaluated values.
pub open spec fn spec_binop(op: BinOp, a: ValueV, b: ValueV) -> Result<ValueV, RuntimeError> {
    match op {
        BinOp::Add => spec_add_values(a, b),
        BinOp::Sub => spec_sub_values(a, b),
        BinOp::Mul => spec_mul_values(a, b),
        BinOp::Div => spec_div_values(a, b),
        BinOp::Equal => Ok(bool_v(spec_eq_values(a, b))),
        BinOp::NotEqual => Ok(bool_v(!spec_eq_values(a, b))),
        BinOp::Less => match spec_lt_values(a, b) {
            Ok(x) => Ok(bool_v(x)),
            Err(e) => Err(e),
        },
        BinOp::Greater => match spec_lt_values(b, a) {
            Ok(x) => Ok(bool_v(x)),
            Err(e) => Err(e),
        },
        BinOp::LessEqual => match spec_lt_values(b, a) {
            Ok(x) => Ok(bool_v(!x)),
            Err(e) => Err(e),
        },
        BinOp::GreaterEqual => match spec_lt_values(a, b) {
            Ok(x) => Ok(bool_v(!x)),
            Err(e) => Err(e),
        },
    }
}

/// The table of the unary operators.
pub open spec fn spec_unop(op: UnaryOp, v: ValueV) -> Result<ValueV, RuntimeError> {
    match op {
        UnaryOp::Negative => match v {
            ValueV::Number(x) => Ok(ValueV::Number(crate::number::spec_neg(x))),
            _ => Err(RuntimeError::TypeMismatch),
        },
        UnaryOp::Not => Ok(bool_v(!truthy(v))),
    }
}

/// The machine state after one clock step.
pub open spec fn tick_env(m: EnvV) -> EnvV {
    EnvV { steps: spec_tick(m.steps), ..m }
}

/// The machine state with `cur` made the active scope again.
pub open spec fn restore(m: EnvV, cur: int) -> EnvV {
    EnvV { current: cur, ..m }
}

/// The text the `print` built-in writes for its arguments: each argument
/// rendered and followed by one space.
pub open spec fn args_text(vs: Seq<ValueV>) -> Seq<u8>
    decreases vs.len(),
{
    if vs.len() == 0 {
        Seq::empty()
    } else {
        spec_render_value(vs[0]) + seq![32u8] + args_text(vs.subrange(1, vs.len() as int))
    }
}

/// The machine state after the parameters are bound, positionally, in
/// the active scope.
pub open spec fn bind_params(m: EnvV, params: Seq<Seq<u8>>, vs: Seq<ValueV>) -> EnvV
    decreases params.len(),
{
    if params.len() == 0 || vs.len() == 0 {
        m
    } else {
        bind_params(
            env_define(m, params[0], vs[0]),
            params.subrange(1, params.len() as int),
            vs.subrange(1, vs.len() as int),
        )
    }
}

/// Evaluates one expression.
pub open spec fn spec_eval(e: ExprV, m: EnvV, depth: nat) -> ExprOut
    decreases depth, 1int, 0int,
{
    if depth == 0 {
        ExprOut { res: Err(RuntimeError::OutOfFuel), env: m }
    } else {
        let d = (depth - 1) as nat;
        match e {
            ExprV::Literal(l) => ExprOut { res: Ok(lit_value(l)), env: m },
            ExprV::Variable(n) => match lookup_in(m, m.current, n) {
                Some(v) => ExprOut { res: Ok(v), env: m },
                None => ExprOut { res: Err(RuntimeError::UndefinedVariable), env: m },
            },
            ExprV::Assign(n, sub) => {
                let o = spec_eval(*sub, m, d);
                match o.res {
                    Ok(v) => match env_assign(o.env, o.env.current, n, v) {
                        Some(m2) => ExprOut { res: Ok(ValueV::Null), env: m2 },
                        None => ExprOut { res: Err(RuntimeError::UndefinedVariable), env: o.env },
                    },
                    Err(er) => o,
                }
            },
            ExprV::Logical(l, op, r) => {
                let o = spec_eval(*l, m, d);
                match o.res {
                    Ok(lv) => {
                        if (op is Or && truthy(lv)) || (op is And && !truthy(lv)) {
                            ExprOut { res: Ok(lv), env: o.env }
                        } else {
                            spec_eval(*r, o.env, d)
                        }
                    },
                    Err(er) => o,
                }
            },
            ExprV::Binary(l, op, r) => {
                let o = spec_eval(*l, m, d);
                match o.res {
                    Ok(lv) => {
                        let o2 = spec_eval(*r, o.env, d);
                        match o2.res {
                            Ok(rv) => ExprOut { res: spec_binop(op, lv, rv), env: o2.env },
                            Err(er) => o2,
                        }
                    },
                    Err(er) => o,
                }
            },
            ExprV::Unary(op, sub) => {
                let o = spec_eval(*sub, m, d);
                match o.res {
                    Ok(v) => ExprOut { res: spec_unop(op, v), env: o.env },
                    Err(er) => o,
                }
            },
            ExprV::Grouping(sub) => spec_eval(*sub, m, d),
            ExprV::Call(callee, args) => {
                let o = spec_eval(*callee, m, d);
                match o.res {
                    Ok(cv) => {
                        let ao = spec_eval_args(args, o.env, d);
                        match ao.res {
                            Ok(vs) => spec_call(cv, vs, ao.env, d),
                            Err(er) => ExprOut { res: Err(er), env: ao.env },
                        }
                    },
                    Err(er) => o,
                }
            },
        }
    }
}

/// Evaluates an argument list, left to right, eagerly.
pub open spec fn spec_eval_args(args: Seq<ExprV>, m: EnvV, depth: nat) -> ArgsOut
    decreases depth, 0int, args.len(),
{
    if args.len() == 0 {
        ArgsOut { res: Ok(Seq::empty()), env: m }
    } else if depth == 0 {
        ArgsOut { res: Err(RuntimeError::OutOfFuel), env: m }
    } else {
        let o = spec_eval(args[0], m, (depth - 1) as nat);
        match o.res {
            Ok(v) => {
                let rest = spec_eval_args(args.subrange(1, args.len() as int), o.env, depth);
                match rest.res {
                    Ok(vs) => ArgsOut { res: Ok(seq![v] + vs), env: rest.env },
                    Err(er) => rest,
                }
            },
            Err(er) => ArgsOut { res: Err(er), env: o.env },
        }
    }
}

/// Calls an already-evaluated callee on already-evaluated arguments.
///
/// A non-function fails with `NotCallable`; an arity mismatch fails
/// before anything runs. `print` writes each argument followed by one
/// space and then a newline. `clock` yields the deterministic logical
/// time. A user function runs its body in a fresh scope whose parent is
/// the function's captured definition-time scope — lexical, not dynamic,
/// scoping — and the caller's active scope is restored on every exit,
/// the faulting one included; a body that falls through without
/// `return` yields `Null`.
pub open spec fn spec_call(cv: ValueV, vs: Seq<ValueV>, m: EnvV, depth: nat) -> ExprOut
    decreases depth, 4int, 0int,
{
    if depth == 0 {
        ExprOut { res: Err(RuntimeError::OutOfFuel), env: m }
    } else {
        match cv {
            ValueV::Fn(CallV::Print) => {
                let m1 = tick_env(m);
                ExprOut {
                    res: Ok(ValueV::Null),
                    env: EnvV { output: m1.output + args_text(vs) + seq![10u8], ..m1 },
                }
            },
            ValueV::Fn(CallV::Clock) => {
                if vs.len() != 0 {
                    ExprOut { res: Err(RuntimeError::ArityMismatch), env: m }
                } else {
                    let m1 = tick_env(m);
                    ExprOut { res: Ok(ValueV::Number(spec_clock_value(m1.steps))), env: m1 }
                }
            },
            ValueV::Fn(CallV::Function(f)) => {
                if vs.len() != f.params.len() {
                    ExprOut { res: Err(RuntimeError::ArityMismatch), env: m }
                } else if !(f.scope < m.frames.len()) {
                    ExprOut { res: Err(RuntimeError::NotCallable), env: m }
                } else {
                    let m1 = env_push(tick_env(m), f.scope as int);
                    let m2 = bind_params(m1, f.params, vs);
                    let o = spec_exec_list(f.body, m2, (depth - 1) as nat);
                    match o.res {
                        Ok(Some(v)) => ExprOut { res: Ok(v), env: restore(o.env, m.current) },
                        Ok(None) => ExprOut {
                            res: Ok(ValueV::Null),
                            env: restore(o.env, m.current),
                        },
                        Err(er) => ExprOut { res: Err(er), env: restore(o.env, m.current) },
                    }
                }
            },
            _ => ExprOut { res: Err(RuntimeError::NotCallable), env: m },
        }
    }
}

/// Executes one statement.
pub open spec fn spec_exec(s: StmtV, m: EnvV, depth: nat) -> StmtOut
    decreases depth, 3int, 0int,
{
    if depth == 0 {
        StmtOut { res: Err(RuntimeError::OutOfFuel), env: m }
    } else {
        let d = (depth - 1) as nat;
        match s {
            StmtV::Expression(e) => {
                let o = spec_eval(e, m, d);
                match o.res {
                    Ok(v) => StmtOut { res: Ok(None), env: o.env },
                    Err(er) => StmtOut { res: Err(er), env: o.env },
                }
            },
            StmtV::VarDecl(n, e) => {
                let o = spec_eval(e, m, d);
                match o.res {
                    Ok(v) => StmtOut { res: Ok(None), env: env_define(o.env, n, v) },
                    Err(er) => StmtOut { res: Err(er), env: o.env },
                }
            },
            StmtV::Block(body) => {
                let o = spec_exec_list(body, env_push(m, m.current), d);
                StmtOut { res: o.res, env: restore(o.env, m.current) }
            },
            StmtV::If(c, t, els) => {
                let o = spec_eval(c, m, d);
                match o.res {
                    Ok(cv) => {
                        if truthy(cv) {
                            spec_exec(*t, o.env, d)
                        } else {
                            match els {
                                Some(s2) => spec_exec(*s2, o.env, d),
                                None => StmtOut { res: Ok(None), env: o.env },
                            }
                        }
                    },
                    Err(er) => StmtOut { res: Err(er), env: o.env },
                }
            },
            StmtV::While(c, b) => spec_while(c, *b, m, d, LOOP_LIMIT as nat),
            StmtV::Function(n, ps, body) => {
                let f = ValueV::Fn(
                    CallV::Function(
                        FunV { name: n, params: ps, body: body, scope: m.current as nat },
                    ),
                );
                StmtOut { res: Ok(None), env: env_define(m, n, f) }
            },
            StmtV::Return(e) => {
                let o = spec_eval(e, m, d);
                match o.res {
                    Ok(v) => StmtOut { res: Ok(Some(v)), env: o.env },
                    Err(er) => StmtOut { res: Err(er), env: o.env },
                }
            },
        }
    }
}

/// Executes a statement list: each statement in order, stopping early
/// the moment one yields a propagating `return` value or a fault.
pub open spec fn spec_exec_list(stmts: Seq<StmtV>, m: EnvV, depth: nat) -> StmtOut
    decreases depth, 2int, stmts.len(),
{
    if stmts.len() == 0 {
        StmtOut { res: Ok(None), env: m }
    } else if depth == 0 {
        StmtOut { res: Err(RuntimeError::OutOfFuel), env: m }
    } else {
        let o = spec_exec(stmts[0], m, (depth - 1) as nat);
        match o.res {
            Ok(None) => spec_exec_list(stmts.subrange(1, stmts.len() as int), o.env, depth),
            _ => o,
        }
    }
}

/// Runs one loop: ticks the clock, evaluates the condition, and runs the
/// body while the condition stays truthy, at most `iters` times.
pub open spec fn spec_while(c: ExprV, b: StmtV, m: EnvV, depth: nat, iters: nat) -> StmtOut
    decreases depth, 5int, iters,
{
    if iters == 0 {
        StmtOut { res: Err(RuntimeError::OutOfFuel), env: m }
    } else if depth == 0 {
        StmtOut { res: Err(RuntimeError::OutOfFuel), env: m }
    } else {
        let o = spec_eval(c, tick_env(m), (depth - 1) as nat);
        match o.res {
            Ok(cv) => {
                if !truthy(cv) {
                    StmtOut { res: Ok(None), env: o.env }
                } else {
                    let o2 = spec_exec(b, o.env, (depth - 1) as nat);
                    match o2.res {
                        Ok(None) => spec_while(c, b, o2.env, depth, (iters - 1) as nat),
                        _ => o2,
                    }
                }
            },
            Err(er) => StmtOut { res: Err(er), env: o.env },
        }
    }
}

/// What interpreting a program does to a machine state.
pub open spec fn spec_interpret(prog: Seq<StmtV>, m: EnvV) -> StmtOut {
    spec_exec_list(prog, m, EVAL_DEPTH as nat)
}


/// The shadow of an expression result.
pub open spec fn expr_res_v(r: Result<Values, RuntimeError>) -> Result<ValueV, RuntimeError> {
    match r {
        Ok(v) => Ok(v.view()),
        Err(e) => Err(e),
    }
}

/// The shadow of a statement result.
pub open spec fn stmt_res_v(r: Result<Option<Values>, RuntimeError>) -> Result<
    Option<ValueV>,
    RuntimeError,
> {
    match r {
        Ok(Some(v)) => Ok(Some(v.view())),
        Ok(None) => Ok(None),
        Err(e) => Err(e),
    }
}

/// The shadows of a list of values.
pub open spec fn view_values(vs: Seq<Values>) -> Seq<ValueV>
    decreases vs.len(),
{
    if vs.len() == 0 {
        Seq::empty()
    } else {
        seq![vs[0].view()] + view_values(vs.subrange(1, vs.len() as int))
    }
}

/// `view_values`, element by element.
pub proof fn lemma_view_values(vs: Seq<Values>)
    ensures
        view_values(vs).len() == vs.len(),
        forall|i: int| 0 <= i < vs.len() ==> view_values(vs)[i] == #[trigger] vs[i].view(),
    decreases vs.len(),
{
    if vs.len() > 0 {
        let rest = vs.subrange(1, vs.len() as int);
        lemma_view_values(rest);
        assert forall|i: int| 0 <= i < vs.len() implies view_values(vs)[i] == #[trigger] vs[i].view() by {
            if i > 0 {
                assert(rest[i - 1] == vs[i]);
                assert(view_values(vs)[i] == view_values(rest)[i - 1]);
            }
        }
    }
}

/// Splitting the printed text of a list of arguments.
proof fn lemma_args_text_concat(a: Seq<ValueV>, b: Seq<ValueV>)
    ensures
        args_text(a + b) == args_text(a) + args_text(b),
    decreases a.len(),
{
    if a.len() == 0 {
        assert(a + b =~= b);
        assert(args_text(a) + args_text(b) =~= args_text(b));
    } else {
        let rest = a.subrange(1, a.len() as int);
        lemma_args_text_concat(rest, b);
        assert((a + b).subrange(1, (a + b).len() as int) =~= rest + b);
        assert((a + b)[0] == a[0]);
        assert(args_text(a + b) =~= args_text(a) + args_text(b));
    }
}

/// Evaluates one expression against the environment, returning exactly
/// what the specification interpreter says, next state included.
pub fn eval_expr(e: &Expr, env: &mut Environment, depth: u64) -> (r: Result<Values, RuntimeError>)
    requires
        old(env).wf(),
    ensures
        final(env).wf(),
        final(env).view().frames.len() >= old(env).view().frames.len(),
        spec_eval(e.view(), old(env).view(), depth as nat) == (ExprOut {
            res: expr_res_v(r),
            env: final(env).view(),
        }),
        r matches Ok(v) ==> val_wf(v.view(), final(env).view().frames.len() as int),
    decreases depth, 1int,
{
    if depth == 0 {
        return Err(RuntimeError::OutOfFuel);
    }
    let d = depth - 1;
    match e {
        Expr::Literal(l) => {
            match l {
                Lit::Number(n) => Ok(Values::Number(*n)),
                Lit::Text(s) => Ok(Values::Str(clone_bytes(s))),
                Lit::True => Ok(Values::Boolean(crate::number::SCALE)),
                Lit::False => Ok(Values::Boolean(0)),
                Lit::Nil => Ok(Values::Null),
            }
        },
        Expr::Variable(n) => {
            proof {
                env.lemma_wf_view();
                lemma_lookup_wf(env.view(), env.view().current, n@);
            }
            match env.get(n) {
                Some(v) => Ok(v),
                None => Err(RuntimeError::UndefinedVariable),
            }
        },
        Expr::Assign(n, sub) => {
            let v = match eval_expr(sub, env, d) {
                Ok(v) => v,
                Err(er) => {
                    return Err(er);
                },
            };
            proof {
                env.lemma_wf_view();
                lemma_assign_wf(env.view(), env.view().current, n@, v.view());
            }
            match env.redefine(n, v) {
                Ok(()) => Ok(Values::Null),
                Err(er) => Err(er),
            }
        },
        Expr::Logical(l, op, r) => {
            let lv = match eval_expr(l, env, d) {
                Ok(v) => v,
                Err(er) => {
                    return Err(er);
                },
            };
            let keep = match op {
                LogicalOp::Or => lv.is_truthy(),
                LogicalOp::And => !lv.is_truthy(),
            };
            if keep {
                Ok(lv)
            } else {
                eval_expr(r, env, d)
            }
        },
        Expr::Binary(l, op, r) => {
            let lv = match eval_expr(l, env, d) {
                Ok(v) => v,
                Err(er) => {
                    return Err(er);
                },
            };
            let rv = match eval_expr(r, env, d) {
                Ok(v) => v,
                Err(er) => {
                    return Err(er);
                },
            };
            match op {
                BinOp::Add => lv.add(rv),
                BinOp::Sub => lv.sub(rv),
                BinOp::Mul => lv.mul(rv),
                BinOp::Div => lv.div(rv),
                BinOp::Equal => Ok(lv.eq(&rv)),
                BinOp::NotEqual => Ok(lv.neq(&rv)),
                BinOp::Less => lv.less(&rv),
                BinOp::Greater => lv.greater(&rv),
                BinOp::LessEqual => lv.less_equal(&rv),
                BinOp::GreaterEqual => lv.greater_equal(&rv),
            }
        },
        Expr::Unary(op, sub) => {
            let v = match eval_expr(sub, env, d) {
                Ok(v) => v,
                Err(er) => {
                    return Err(er);
                },
            };
            match op {
                UnaryOp::Negative => v.negative(),
                UnaryOp::Not => {
                    match v.cast_to_boolean().not() {
                        Ok(b) => Ok(b),
                        Err(er) => Err(er),
                    }
                },
            }
        },
        Expr::Grouping(sub) => eval_expr(sub, env, d),
        Expr::Call(callee, args) => eval_call_expr(callee, args, env, d),
    }
}

/// Evaluates a call expression after the budget step: callee first, then
/// the arguments left to right, then the call itself.
fn eval_call_expr(callee: &Expr, args: &Vec<Expr>, env: &mut Environment, depth: u64) -> (r:
    Result<Values, RuntimeError>)
    requires
        old(env).wf(),
    ensures
        final(env).wf(),
        final(env).view().frames.len() >= old(env).view().frames.len(),
        ({
            let o = spec_eval(callee.view(), old(env).view(), depth as nat);
            let out = match o.res {
                Ok(cv) => {
                    let ao = spec_eval_args(view_exprs(args@), o.env, depth as nat);
                    match ao.res {
                        Ok(vs) => spec_call(cv, vs, ao.env, depth as nat),
                        Err(er) => ExprOut { res: Err(er), env: ao.env },
                    }
                },
                Err(er) => o,
            };
            out == (ExprOut { res: expr_res_v(r), env: final(env).view() })
        }),
        r matches Ok(v) ==> val_wf(v.view(), final(env).view().frames.len() as int),
    decreases depth, 2int,
{
    let cv = match eval_expr(callee, env, depth) {
        Ok(v) => v,
        Err(er) => {
            return Err(er);
        },
    };
    let ghost m1 = env.view();
    let ghost av = view_exprs(args@);
    proof {
        lemma_view_exprs(args@);
    }
    let mut vals: Vec<Values> = Vec::new();
    if args.len() > 0 && depth == 0 {
        return Err(RuntimeError::OutOfFuel);
    }
    let n = args.len();
    let mut i: usize = 0;
    proof {
        assert(av.subrange(0, n as int) =~= av);
        let rest0 = spec_eval_args(av, m1, depth as nat);
        match rest0.res {
            Ok(vs) => {
                assert(view_values(vals@) + vs =~= vs);
            },
            Err(_) => {},
        }
    }
    while i < n
        invariant
            env.wf(),
            n == args@.len(),
            0 <= i <= n,
            depth >= 1 || n == 0,
            av == view_exprs(args@),
            av.len() == n,
            forall|k: int| 0 <= k < n ==> av[k] == #[trigger] args@[k].view(),
            env.view().frames.len() >= old(env).view().frames.len(),
            env.view().frames.len() >= m1.frames.len(),
            spec_eval(callee.view(), old(env).view(), depth as nat) == (ExprOut {
                res: Ok::<ValueV, RuntimeError>(cv.view()),
                env: m1,
            }),
            val_wf(cv.view(), env.view().frames.len() as int),
            vals@.len() == i,
            forall|k: int|
                0 <= k < i ==> val_wf((#[trigger] vals@[k]).view(), env.view().frames.len() as int),
            ({
                let rest = spec_eval_args(av.subrange(i as int, n as int), env.view(), depth as nat);
                spec_eval_args(av, m1, depth as nat) == (match rest.res {
                    Ok(vs) => ArgsOut { res: Ok(view_values(vals@) + vs), env: rest.env },
                    Err(er) => ArgsOut { res: Err(er), env: rest.env },
                })
            }),
        decreases n - i,
    {
        let ghost suffix = av.subrange(i as int, n as int);
        proof {
            assert(suffix.len() == n - i);
            assert(suffix[0] == av[i as int]);
            assert(suffix.subrange(1, suffix.len() as int) =~= av.subrange(i + 1, n as int));
        }
        let v = match eval_expr(&args[i], env, depth - 1) {
            Ok(v) => v,
            Err(er) => {
                return Err(er);
            },
        };
        let ghost vv = v.view();
        let ghost vals_old = vals@;
        vals.push(v);
        proof {
            lemma_view_values(vals@);
            lemma_view_values(vals_old);
            assert(vals@[vals_old.len() as int].view() == vv);
            assert(forall|k: int| 0 <= k < vals_old.len() ==> vals@[k] == vals_old[k]);
            assert forall|k: int|
                0 <= k < vals@.len() implies view_values(vals@)[k] == view_values(vals_old).push(
                vv,
            )[k] by {
                assert(view_values(vals@)[k] == vals@[k].view());
                if k < vals_old.len() {
                    assert(view_values(vals_old)[k] == vals_old[k].view());
                }
            }
            assert(view_values(vals@) =~= view_values(vals_old).push(vv));
            let rest_next = spec_eval_args(av.subrange(i + 1, n as int), env.view(), depth as nat);
            match rest_next.res {
                Ok(vs2) => {
                    assert(view_values(vals@) + vs2 =~= view_values(vals_old) + (seq![vv] + vs2));
                },
                Err(_) => {},
            }
        }
        i += 1;
    }
    proof {
        assert(av.subrange(n as int, n as int) =~= Seq::<ExprV>::empty());
        assert(view_values(vals@) + Seq::<ValueV>::empty() =~= view_values(vals@));
        lemma_view_values(vals@);
    }
    call_value(cv, vals, env, depth)
}

/// Calls an already-evaluated callee on already-evaluated arguments,
/// returning exactly what the specification interpreter says.
fn call_value(cv: Values, args: Vec<Values>, env: &mut Environment, depth: u64) -> (r: Result<
    Values,
    RuntimeError,
>)
    requires
        old(env).wf(),
        val_wf(cv.view(), old(env).view().frames.len() as int),
        forall|k: int|
            0 <= k < args@.len() ==> val_wf(
                (#[trigger] args@[k]).view(),
                old(env).view().frames.len() as int,
            ),
    ensures
        final(env).wf(),
        final(env).view().frames.len() >= old(env).view().frames.len(),
        spec_call(cv.view(), view_values(args@), old(env).view(), depth as nat) == (ExprOut {
            res: expr_res_v(r),
            env: final(env).view(),
        }),
        r matches Ok(v) ==> val_wf(v.view(), final(env).view().frames.len() as int),
    decreases depth, 0int,
{
    if depth == 0 {
        return Err(RuntimeError::OutOfFuel);
    }
    proof {
        lemma_view_values(args@);
    }
    match cv {
        Values::Fn(LoxCallable::Print(_)) => {
            env.tick();
            let ghost m1 = env.view();
            let ghost vsv = view_values(args@);
            let n = args.len();
            let mut i: usize = 0;
            while i < n
                invariant
                    env.wf(),
                    n == args@.len(),
                    0 <= i <= n,
                    m1 == tick_env(old(env).view()),
                    vsv == view_values(args@),
                    vsv.len() == n,
                    forall|k: int| 0 <= k < n ==> vsv[k] == #[trigger] args@[k].view(),
                    env.view() == (EnvV {
                        output: m1.output + args_text(vsv.subrange(0, i as int)),
                        ..m1
                    }),
                decreases n - i,
            {
                let text = args[i].render();
                env.write(&text);
                env.write_byte(32);
                proof {
                    let pre = vsv.subrange(0, i as int);
                    let one = seq![vsv[i as int]];
                    lemma_args_text_concat(pre, one);
                    assert(vsv.subrange(0, i + 1) =~= pre + one);
                    assert(one.len() == 1);
                    assert(one[0] == vsv[i as int]);
                    assert(one.subrange(1, 1) =~= Seq::<ValueV>::empty());
                    assert(args_text(one.subrange(1, 1)) =~= Seq::<u8>::empty());
                    assert(args_text(one) =~= spec_render_value(vsv[i as int]) + seq![32u8]);
                    assert(env.view().output =~= m1.output + args_text(vsv.subrange(0, i + 1)));
                    assert(env.view() == (EnvV {
                        output: m1.output + args_text(vsv.subrange(0, i + 1)),
                        ..m1
                    }));
                }
                i += 1;
            }
            env.write_byte(10);
            proof {
                assert(vsv.subrange(0, n as int) =~= vsv);
                assert(env.view().output =~= m1.output + args_text(vsv) + seq![10u8]);
                assert(env.view() == (EnvV {
                    output: m1.output + args_text(vsv) + seq![10u8],
                    ..m1
                }));
            }
            Ok(Values::Null)
        },
        Values::Fn(LoxCallable::Clock(_)) => {
            if args.len() != 0 {
                return Err(RuntimeError::ArityMismatch);
            }
            env.tick();
            Ok(Values::Number(env.clock_value()))
        },
        Values::Fn(LoxCallable::Function(f)) => {
            if args.len() != f.arity() {
                return Err(RuntimeError::ArityMismatch);
            }
            env.tick();
            proof {
                env.lemma_wf_view();
            }
            let saved = env.get_current();
            env.push_scope(f.scope());
            let ghost m_pushed = env.view();
            let ghost pv = f.view().params;
            let ghost vsv = view_values(args@);
            let params = f.params();
            let n = params.len();
            let mut i: usize = 0;
            proof {
                assert(pv.subrange(0, n as int) =~= pv);
                assert(vsv.subrange(0, n as int) =~= vsv);
            }
            while i < n
                invariant
                    env.wf(),
                    n == params@.len(),
                    n == args@.len(),
                    0 <= i <= n,
                    pv == crate::ast::view_names(params@),
                    pv.len() == n,
                    vsv == view_values(args@),
                    vsv.len() == n,
                    forall|k: int| 0 <= k < n ==> vsv[k] == #[trigger] args@[k].view(),
                    forall|k: int| 0 <= k < n ==> pv[k] == (#[trigger] params@[k])@,
                    env.view().frames.len() == m_pushed.frames.len(),
                    m_pushed.frames.len() > old(env).view().frames.len(),
                    forall|k: int|
                        0 <= k < args@.len() ==> val_wf(
                            (#[trigger] args@[k]).view(),
                            env.view().frames.len() as int,
                        ),
                    bind_params(m_pushed, pv, vsv) == bind_params(
                        env.view(),
                        pv.subrange(i as int, n as int),
                        vsv.subrange(i as int, n as int),
                    ),
                decreases n - i,
            {
                proof {
                    env.lemma_wf_view();
                    let ps = pv.subrange(i as int, n as int);
                    let xs = vsv.subrange(i as int, n as int);
                    assert(ps[0] == pv[i as int]);
                    assert(xs[0] == vsv[i as int]);
                    assert(ps.subrange(1, ps.len() as int) =~= pv.subrange(i + 1, n as int));
                    assert(xs.subrange(1, xs.len() as int) =~= vsv.subrange(i + 1, n as int));
                }
                let pname = clone_bytes(&params[i]);
                let v = args[i].dup();
                env.define(pname, v);
                i += 1;
            }
            proof {
                assert(pv.subrange(n as int, n as int) =~= Seq::<Seq<u8>>::empty());
                assert(vsv.subrange(n as int, n as int) =~= Seq::<ValueV>::empty());
            }
            let body_rc = f.body();
            let body: &Vec<Stmt> = &*body_rc;
            let res = exec_stmts(body, env, depth - 1);
            env.restore_scope(saved);
            match res {
                Ok(Some(v)) => Ok(v),
                Ok(None) => Ok(Values::Null),
                Err(er) => Err(er),
            }
        },
        _ => Err(RuntimeError::NotCallable),
    }
}

/// Executes one statement, returning exactly what the specification
/// interpreter says.
pub fn exec_stmt(s: &Stmt, env: &mut Environment, depth: u64) -> (r: Result<
    Option<Values>,
    RuntimeError,
>)
    requires
        old(env).wf(),
    ensures
        final(env).wf(),
        final(env).view().frames.len() >= old(env).view().frames.len(),
        spec_exec(s.view(), old(env).view(), depth as nat) == (StmtOut {
            res: stmt_res_v(r),
            env: final(env).view(),
        }),
        r matches Ok(Some(v)) ==> val_wf(v.view(), final(env).view().frames.len() as int),
    decreases depth, 0int,
{
    if depth == 0 {
        return Err(RuntimeError::OutOfFuel);
    }
    let d = depth - 1;
    match s {
        Stmt::Expression(e) => {
            match eval_expr(e, env, d) {
                Ok(_) => Ok(None),
                Err(er) => Err(er),
            }
        },
        Stmt::VarDecl(n, e) => {
            let v = match eval_expr(e, env, d) {
                Ok(v) => v,
                Err(er) => {
                    return Err(er);
                },
            };
            proof {
                env.lemma_wf_view();
            }
            env.define(clone_bytes(n), v);
            Ok(None)
        },
        Stmt::Block(body) => {
            proof {
                env.lemma_wf_view();
            }
            let saved = env.get_current();
            env.create_sub_values();
            let res = exec_stmts(body, env, d);
            env.restore_scope(saved);
            match res {
                Err(er) => Err(er),
                Ok(out) => Ok(out),
            }
        },
        Stmt::If(c, t, els) => {
            let cv = match eval_expr(c, env, d) {
                Ok(v) => v,
                Err(er) => {
                    return Err(er);
                },
            };
            if cv.is_truthy() {
                exec_stmt(t, env, d)
            } else {
                match els {
                    Some(s2) => exec_stmt(s2, env, d),
                    None => Ok(None),
                }
            }
        },
        Stmt::While(c, b) => exec_while_loop(c, b, env, d),
        Stmt::Function(n, params, body) => {
            proof {
                env.lemma_wf_view();
            }
            let scope = env.get_current();
            let f = LoxFunction::new(
                clone_bytes(n),
                clone_names(params),
                crate::lox_object::share_body(body),
                scope.index,
            );
            proof {
                env.lemma_wf_view();
            }
            env.define(clone_bytes(n), Values::Fn(LoxCallable::Function(f)));
            Ok(None)
        },
        Stmt::Return(e) => {
            match eval_expr(e, env, d) {
                Ok(v) => Ok(Some(v)),
                Err(er) => Err(er),
            }
        },
    }
}

/// Executes a statement list in order, stopping early on a propagating
/// `return` value or a fault, exactly as the specification interpreter
/// says.
pub fn exec_stmts(stmts: &Vec<Stmt>, env: &mut Environment, depth: u64) -> (r: Result<
    Option<Values>,
    RuntimeError,
>)
    requires
        old(env).wf(),
    ensures
        final(env).wf(),
        final(env).view().frames.len() >= old(env).view().frames.len(),
        spec_exec_list(view_stmts(stmts@), old(env).view(), depth as nat) == (StmtOut {
            res: stmt_res_v(r),
            env: final(env).view(),
        }),
        r matches Ok(Some(v)) ==> val_wf(v.view(), final(env).view().frames.len() as int),
    decreases depth, 0int,
{
    let ghost sv = view_stmts(stmts@);
    let ghost m0 = env.view();
    proof {
        lemma_view_stmts(stmts@);
    }
    let n = stmts.len();
    if n > 0 && depth == 0 {
        return Err(RuntimeError::OutOfFuel);
    }
    let mut i: usize = 0;
    proof {
        assert(sv.subrange(0, n as int) =~= sv);
    }
    while i < n
        invariant
            env.wf(),
            n == stmts@.len(),
            0 <= i <= n,
            depth >= 1 || n == 0,
            sv == view_stmts(stmts@),
            sv.len() == n,
            forall|k: int| 0 <= k < n ==> sv[k] == #[trigger] stmts@[k].view(),
            m0 == old(env).view(),
            env.view().frames.len() >= m0.frames.len(),
            spec_exec_list(sv, m0, depth as nat) == spec_exec_list(
                sv.subrange(i as int, n as int),
                env.view(),
                depth as nat,
            ),
        decreases n - i,
    {
        let ghost suffix = sv.subrange(i as int, n as int);
        proof {
            assert(suffix[0] == sv[i as int]);
            assert(suffix.subrange(1, suffix.len() as int) =~= sv.subrange(i + 1, n as int));
        }
        match exec_stmt(&stmts[i], env, depth - 1) {
            Ok(None) => {},
            Ok(Some(v)) => {
                return Ok(Some(v));
            },
            Err(er) => {
                return Err(er);
            },
        }
        i += 1;
    }
    proof {
        assert(sv.subrange(n as int, n as int) =~= Seq::<StmtV>::empty());
    }
    Ok(None)
}

/// Runs one `while` loop against the environment, exactly as the
/// specification interpreter says.
fn exec_while_loop(c: &Expr, b: &Stmt, env: &mut Environment, depth: u64) -> (r: Result<
    Option<Values>,
    RuntimeError,
>)
    requires
        old(env).wf(),
    ensures
        final(env).wf(),
        final(env).view().frames.len() >= old(env).view().frames.len(),
        spec_while(c.view(), b.view(), old(env).view(), depth as nat, LOOP_LIMIT as nat)
            == (StmtOut { res: stmt_res_v(r), env: final(env).view() }),
        r matches Ok(Some(v)) ==> val_wf(v.view(), final(env).view().frames.len() as int),
    decreases depth, 0int,
{
    let ghost m0 = env.view();
    let mut iters: u64 = LOOP_LIMIT;
    loop
        invariant
            env.wf(),
            m0 == old(env).view(),
            env.view().frames.len() >= m0.frames.len(),
            spec_while(c.view(), b.view(), m0, depth as nat, LOOP_LIMIT as nat) == spec_while(
                c.view(),
                b.view(),
                env.view(),
                depth as nat,
                iters as nat,
            ),
        decreases iters,
    {
        if iters == 0 {
            return Err(RuntimeError::OutOfFuel);
        }
        if depth == 0 {
            return Err(RuntimeError::OutOfFuel);
        }
        env.tick();
        let cv = match eval_expr(c, env, depth - 1) {
            Ok(v) => v,
            Err(er) => {
                return Err(er);
            },
        };
        if !cv.is_truthy() {
            return Ok(None);
        }
        match exec_stmt(b, env, depth - 1) {
            Ok(None) => {},
            Ok(Some(v)) => {
                return Ok(Some(v));
            },
            Err(er) => {
                return Err(er);
            },
        }
        iters = iters - 1;
    }
}


/// The interpreter: an environment that lives across `interpret` calls,
/// so that top-level declarations persist (the base of REPL use).
pub struct Interpreter {
    env: Environment,
}

impl Interpreter {
    /// The machine state.
    pub closed spec fn view(&self) -> EnvV {
        self.env.view()
    }

    /// The representation invariant.
    pub closed spec fn wf(&self) -> bool {
        self.env.wf()
    }

    /// A fresh interpreter over the global scope with the two built-ins.
    pub fn new() -> (r: Self)
        ensures
            r.wf(),
            r.view() == global_env_v(),
    {
        Interpreter { env: Environment::global_env() }
    }

    /// Runs a program against the interpreter's environment. The result
    /// and the new state — output included — are exactly what the
    /// specification interpreter says of the program and the old state
    /// alone: evaluation is deterministic.
    pub fn interpret(&mut self, program: &Vec<Stmt>) -> (r: Result<(), RuntimeError>)
        requires
            old(self).wf(),
        ensures
            final(self).wf(),
            ({
                let o = spec_interpret(view_stmts(program@), old(self).view());
                final(self).view() == o.env && r == (match o.res {
                    Ok(_) => Ok::<(), RuntimeError>(()),
                    Err(e) => Err::<(), RuntimeError>(e),
                })
            }),
    {
        self.interpret_with_depth(program, EVAL_DEPTH)
    }

    /// Runs a program under a caller-chosen budget on recursion depth
    /// and loop nesting: the externally injected bound on execution.
    /// `interpret` picks `EVAL_DEPTH` for callers with no opinion.
    pub fn interpret_with_depth(&mut self, program: &Vec<Stmt>, depth: u64) -> (r: Result<
        (),
        RuntimeError,
    >)
        requires
            old(self).wf(),
        ensures
            final(self).wf(),
            ({
                let o = spec_exec_list(view_stmts(program@), old(self).view(), depth as nat);
                final(self).view() == o.env && r == (match o.res {
                    Ok(_) => Ok::<(), RuntimeError>(()),
                    Err(e) => Err::<(), RuntimeError>(e),
                })
            }),
    {
        match exec_stmts(program, &mut self.env, depth) {
            Ok(_) => Ok(()),
            Err(e) => Err(e),
        }
    }

    /// Pre-pushes one scope, so that successive single-line programs
    /// share their top-level declarations.
    pub fn repl_mode(&mut self)
        requires
            old(self).wf(),
        ensures
            final(self).wf(),
            final(self).view() == env_push(old(self).view(), old(self).view().current),
    {
        self.env.create_sub_values();
    }

    /// Everything `print` has written so far.
    pub fn output_bytes(&self) -> (r: &Vec<u8>)
        ensures
            r@ == self.view().output,
    {
        self.env.output()
    }

    /// The output as text (the output of an ASCII program is ASCII).
    pub fn output_string(&self) -> (r: String)
        ensures
            (forall|i: int| 0 <= i < self.view().output.len() ==> self.view().output[i] < 128)
                ==> r@.len() == self.view().output.len() && (forall|i: int|
                0 <= i < self.view().output.len() ==> r@[i] == self.view().output[i] as char),
    {
        crate::basic_function::bytes_to_string(self.env.output())
    }
}

/// Law: `and` short-circuits. When the left operand evaluates to a falsy
/// value, the whole `and` yields that value and that state, whatever the
/// right operand is: the right operand is never evaluated.
pub proof fn lemma_and_short_circuits(l: ExprV, r1: ExprV, r2: ExprV, m: EnvV, depth: nat)
    requires
        depth > 0,
        spec_eval(l, m, (depth - 1) as nat).res matches Ok(v) && !truthy(v),
    ensures
        spec_eval(ExprV::Logical(Box::new(l), LogicalOp::And, Box::new(r1)), m, depth) == spec_eval(
            ExprV::Logical(Box::new(l), LogicalOp::And, Box::new(r2)),
            m,
            depth,
        ),
        spec_eval(ExprV::Logical(Box::new(l), LogicalOp::And, Box::new(r1)), m, depth) == (ExprOut {
            res: spec_eval(l, m, (depth - 1) as nat).res,
            env: spec_eval(l, m, (depth - 1) as nat).env,
        }),
{
}

/// Law: `or` short-circuits. When the left operand evaluates to a truthy
/// value, the whole `or` yields that value and that state, whatever the
/// right operand is: the right operand is never evaluated.
pub proof fn lemma_or_short_circuits(l: ExprV, r1: ExprV, r2: ExprV, m: EnvV, depth: nat)
    requires
        depth > 0,
        spec_eval(l, m, (depth - 1) as nat).res matches Ok(v) && truthy(v),
    ensures
        spec_eval(ExprV::Logical(Box::new(l), LogicalOp::Or, Box::new(r1)), m, depth) == spec_eval(
            ExprV::Logical(Box::new(l), LogicalOp::Or, Box::new(r2)),
            m,
            depth,
        ),
        spec_eval(ExprV::Logical(Box::new(l), LogicalOp::Or, Box::new(r1)), m, depth) == (ExprOut {
            res: spec_eval(l, m, (depth - 1) as nat).res,
            env: spec_eval(l, m, (depth - 1) as nat).env,
        }),
{
}

/// Law: evaluation is deterministic. Interpreting a program is a
/// function of the program and the starting state alone, so two runs
/// from equal fresh states produce identical results and identical
/// output — here including the `clock` built-in, which reads the
/// deterministic step counter.
pub proof fn lemma_interpret_deterministic(prog: Seq<StmtV>, m1: EnvV, m2: EnvV)
    requires
        m1 == m2,
    ensures
        spec_interpret(prog, m1) == spec_interpret(prog, m2),
        spec_interpret(prog, m1).env.output == spec_interpret(prog, m2).env.output,
{
}


/// Law: the return-propagation channel. The moment one statement of a
/// list yields a propagating `return` value, the list stops: no sibling
/// after it runs, and the value and state pass up unchanged. Nested
/// blocks, conditionals and loops forward the value the same way, so a
/// `return` unwinds out of any nesting without a separate control-flow
/// construct.
pub proof fn lemma_return_stops_siblings(stmts: Seq<StmtV>, m: EnvV, depth: nat)
    requires
        stmts.len() > 0,
        depth > 0,
        spec_exec(stmts[0], m, (depth - 1) as nat).res matches Ok(o) && o is Some,
    ensures
        spec_exec_list(stmts, m, depth) == spec_exec(stmts[0], m, (depth - 1) as nat),
{
}

/// Two environments whose lower frames agree look the same to a lookup
/// that starts in those lower frames.
proof fn lemma_lookup_agrees(m1: EnvV, m2: EnvV, idx: int, name: Seq<u8>)
    requires
        0 <= idx < m1.frames.len(),
        m1.frames.len() <= m2.frames.len(),
        forall|i: int| 0 <= i < m1.frames.len() ==> m2.frames[i] == #[trigger] m1.frames[i],
    ensures
        lookup_in(m2, idx, name) == lookup_in(m1, idx, name),
    decreases idx,
{
    if m1.frames[idx].vars.dom().contains(name) {
    } else {
        match m1.frames[idx].parent {
            Some(p) => {
                if 0 <= p < idx {
                    lemma_lookup_agrees(m1, m2, p, name);
                }
            },
            None => {},
        }
    }
}

/// Law: shadowing. Defining a name in a freshly pushed inner scope hides
/// an outer binding without touching it: inside the inner scope the name
/// reads as the inner value, and as soon as the inner scope is left the
/// name reads exactly as it did before.
pub proof fn lemma_shadowing(m: EnvV, name: Seq<u8>, v: ValueV)
    requires
        env_wf(m),
    ensures
        ({
            let defined = env_define(env_push(m, m.current), name, v);
            lookup_in(defined, defined.current, name) == Some(v) && lookup_in(
                restore(defined, m.current),
                m.current,
                name,
            ) == lookup_in(m, m.current, name)
        }),
{
    let pushed = env_push(m, m.current);
    let defined = env_define(pushed, name, v);
    assert(defined.frames[defined.current].vars.dom().contains(name));
    assert(defined.frames[defined.current].vars[name] == v);
    let back = restore(defined, m.current);
    assert(back.frames.len() == m.frames.len() + 1);
    assert(forall|i: int| 0 <= i < m.frames.len() ==> back.frames[i] == #[trigger] m.frames[i]);
    lemma_lookup_agrees(m, back, m.current, name);
}

/// Law: a function declaration captures its defining scope. Executing
/// the declaration binds the name, in the scope that is active at that
/// moment, to a function value whose captured scope is exactly that
/// active scope — by-reference capture of the defining environment.
pub proof fn lemma_function_captures_defining_scope(
    n: Seq<u8>,
    ps: Seq<Seq<u8>>,
    body: Seq<StmtV>,
    m: EnvV,
    depth: nat,
)
    requires
        depth > 0,
        env_wf(m),
    ensures
        ({
            let o = spec_exec(StmtV::Function(n, ps, body), m, depth);
            let f = ValueV::Fn(CallV::Function(FunV { name: n, params: ps, body, scope: m.current as nat }));
            o.res == Ok::<Option<ValueV>, RuntimeError>(None) && o.env.current == m.current
                && lookup_in(o.env, o.env.current, n) == Some(f)
        }),
{
    let o = spec_exec(StmtV::Function(n, ps, body), m, depth);
    assert(o.env == env_define(m, n, ValueV::Fn(CallV::Function(FunV { name: n, params: ps, body, scope: m.current as nat }))));
    assert(o.env.frames[o.env.current].vars.dom().contains(n));
}
} // verus!
