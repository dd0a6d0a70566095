//! The evaluator: runs a postfix program, claiming operands by scanning backward for
//! slots not yet consumed.
//!
//! Binary64 arithmetic, the host's own functions and the clock are provided by the host.
//! An evaluation pass is given the host's answers to the calls made so far, in order;
//! when it needs one more, it stops and names the call (`EvalStep::Need`). The host
//! answers it and runs the pass again with one more answer.
use crate::catalog::{FnKind, OpKind};
use crate::error::{ExErr, RpnError};
use crate::expression::Expression;
use crate::token::{Def, TokKind, Token};
use crate::value::{
    float_is_zero, host, spec_add, spec_compare, spec_max, spec_min, spec_pow, spec_div, spec_mul,
    spec_sub, Calc, EVar, FloatCall, FloatOp, MAGNITUDE_MASK,
};
use vstd::prelude::*;

verus! {

/// A call for the host to answer.
#[derive(Debug)]
pub enum HostCall {
    /// A binary64 operation; the answer is its value.
    Float(FloatCall),
    /// A function of the evaluation context, by position, with its arguments in the
    /// order they were claimed (nearest first); the answer is its value.
    User { index: usize, args: Vec<EVar> },
    /// The clock; the answer is the current Unix time in whole seconds, an integer.
    Clock,
}

pub ghost enum CallView {
    Float(FloatCall),
    User(usize, Seq<EVar>),
    Clock,
}

impl View for HostCall {
    type V = CallView;

    open spec fn view(&self) -> CallView {
        match self {
            HostCall::Float(c) => CallView::Float(*c),
            HostCall::User { index, args } => CallView::User(*index, args@),
            HostCall::Clock => CallView::Clock,
        }
    }
}

/// Where an evaluation pass stopped: with its outcome, or at a call for the host.
#[derive(Debug)]
pub enum EvalStep {
    Done(Result<Option<EVar>, RpnError>),
    Need(HostCall),
}

pub ghost enum StepView {
    Done(Result<Option<EVar>, RpnError>),
    Need(CallView),
}

impl View for EvalStep {
    type V = StepView;

    open spec fn view(&self) -> StepView {
        match self {
            EvalStep::Done(r) => StepView::Done(*r),
            EvalStep::Need(c) => StepView::Need(c@),
        }
    }
}

pub open spec fn fail(e: ExErr) -> StepView {
    StepView::Done(Err(RpnError::Exec(e)))
}

/// The answer to `call`: the next of the host's answers, or a stop at `call`.
pub open spec fn ask_spec(ans: Seq<EVar>, used: int, call: CallView) -> (Result<EVar, StepView>, int) {
    if 0 <= used < ans.len() {
        (Ok(ans[used]), used + 1)
    } else {
        (Err(StepView::Need(call)), used)
    }
}

pub open spec fn settle_spec(c: Calc, ans: Seq<EVar>, used: int) -> (Result<EVar, StepView>, int) {
    match c {
        Calc::Val(v) => (Ok(v), used),
        Calc::Host(fc) => ask_spec(ans, used, CallView::Float(fc)),
    }
}

/// A non-float value standing for `x` in integer operations: a float is truncated by the
/// host (an answer that is itself a float counts as 0).
pub open spec fn int_operand_spec(x: EVar, ans: Seq<EVar>, used: int) -> (Result<EVar, StepView>, int) {
    if x is FVal {
        let (r, u) = ask_spec(ans, used, CallView::Float(FloatCall { op: FloatOp::Trunc, lhs: x, rhs: EVar::IVal(0) }));
        match r {
            Ok(a) => (Ok(if a is FVal { EVar::IVal(0) } else { a }), u),
            Err(s) => (Err(s), u),
        }
    } else {
        (Ok(x), used)
    }
}

/// An outcome of exec code seen as its plain value.
pub open spec fn lift(r: Result<EVar, EvalStep>) -> Result<EVar, StepView> {
    match r {
        Ok(v) => Ok(v),
        Err(s) => Err(s@),
    }
}

fn ask(answers: &Vec<EVar>, used: &mut usize, call: HostCall) -> (r: Result<EVar, EvalStep>)
    requires
        *old(used) <= answers@.len(),
    ensures
        *final(used) <= answers@.len(),
        (lift(r), *final(used) as int) == ask_spec(answers@, *old(used) as int, call@),
{
    if *used < answers.len() {
        let v = answers[*used].duplicate();
        *used = *used + 1;
        Ok(v)
    } else {
        Err(EvalStep::Need(call))
    }
}

/// A divisor that division rejects: a zero number, `false`, or any string.
pub open spec fn zero_divisor(x: EVar) -> bool {
    match x {
        EVar::IVal(i) => i == 0,
        EVar::FVal(bits) => float_is_zero(bits),
        EVar::BVal(b) => !b,
        EVar::SVal(_) => true,
    }
}

/// How many operands a definition claims when executed with `nb` parameters.
pub open spec fn claim_count(def: Def, nb: u32) -> nat {
    match def {
        Def::Op(k) => match k {
            OpKind::Plus | OpKind::Minus => if nb == 1 {
                1
            } else {
                2
            },
            OpKind::LogNot | OpKind::BitNot => 1,
            _ => 2,
        },
        Def::Func(f) => match f {
            FnKind::Pow => 2,
            FnKind::Max | FnKind::Min | FnKind::Avg => nb as nat,
            FnKind::Now => 0,
            _ => 1,
        },
        Def::User(_) => nb as nat,
        _ => 0,
    }
}

/// The float operation of a one-argument function.
pub open spec fn unary_float_op(f: FnKind) -> FloatOp {
    match f {
        FnKind::Sin => FloatOp::Sin,
        FnKind::Cos => FloatOp::Cos,
        FnKind::Tan => FloatOp::Tan,
        FnKind::Sqrt => FloatOp::Sqrt,
        FnKind::Cbrt => FloatOp::Cbrt,
        FnKind::Exp => FloatOp::Exp,
        FnKind::Ln => FloatOp::Ln,
        _ => FloatOp::Log10,
    }
}

/// The float operation of a comparison operator.
pub open spec fn comparison_op(k: OpKind) -> FloatOp {
    match k {
        OpKind::Eq => FloatOp::Eq,
        OpKind::Neq => FloatOp::Ne,
        OpKind::InfEq => FloatOp::Le,
        OpKind::SupEq => FloatOp::Ge,
        OpKind::Inf => FloatOp::Lt,
        _ => FloatOp::Gt,
    }
}

pub open spec fn is_comparison_op(k: OpKind) -> bool {
    k == OpKind::Eq || k == OpKind::Neq || k == OpKind::InfEq || k == OpKind::SupEq || k
        == OpKind::Inf || k == OpKind::Sup
}

/// The integer result of a bitwise operator on two non-float values.
pub open spec fn bitwise_spec(k: OpKind, x: EVar, y: EVar) -> i64 {
    let (a, b) = (x.spec_to_int(), y.spec_to_int());
    match k {
        OpKind::BitAnd => a & b,
        OpKind::BitOr => a | b,
        OpKind::BitXor => a ^ b,
        OpKind::Shl => a.wrapping_shl(crate::value::shift_amount(b)),
        _ => a.wrapping_shr(crate::value::shift_amount(b)),
    }
}

/// Folds `max`, `min` or the sum of `avg` over `rest`, left to right, from `acc`.
pub open spec fn fold_spec(f: FnKind, acc: EVar, rest: Seq<EVar>, ans: Seq<EVar>, used: int) -> (
    Result<EVar, StepView>,
    int,
)
    decreases rest.len(),
{
    if rest.len() == 0 {
        (Ok(acc), used)
    } else {
        let c = match f {
            FnKind::Max => spec_max(acc, rest[0]),
            FnKind::Min => spec_min(acc, rest[0]),
            _ => spec_add(acc, rest[0]),
        };
        let (r, u) = settle_spec(c, ans, used);
        match r {
            Ok(v) => fold_spec(f, v, rest.drop_first(), ans, u),
            Err(s) => (Err(s), u),
        }
    }
}

/// The value a definition computes from its claimed operands `args` (nearest first, so
/// `args[1] op args[0]` for a binary operator).
pub open spec fn compute_spec(def: Def, nb: u32, args: Seq<EVar>, ans: Seq<EVar>, used: int) -> (
    Result<EVar, StepView>,
    int,
) {
    match def {
        Def::Op(k) => {
            if k == OpKind::Plus {
                if nb == 1 {
                    (Ok(args[0]), used)
                } else {
                    settle_spec(spec_add(args[1], args[0]), ans, used)
                }
            } else if k == OpKind::Minus {
                if nb == 1 {
                    settle_spec(spec_sub(EVar::IVal(0), args[0]), ans, used)
                } else {
                    settle_spec(spec_sub(args[1], args[0]), ans, used)
                }
            } else if k == OpKind::Mul {
                settle_spec(spec_mul(args[1], args[0]), ans, used)
            } else if k == OpKind::Div {
                settle_spec(spec_div(args[1], args[0]), ans, used)
            } else if is_comparison_op(k) {
                settle_spec(spec_compare(comparison_op(k), args[1], args[0]), ans, used)
            } else if k == OpKind::LogNot {
                (Ok(EVar::BVal(!(args[0] is SVal) && !args[0].spec_to_bool())), used)
            } else if k == OpKind::BitNot {
                let (r, u) = int_operand_spec(args[0], ans, used);
                match r {
                    Ok(x) => (Ok(EVar::IVal(if x is SVal { 0 } else { !x.spec_to_int() })), u),
                    Err(s) => (Err(s), u),
                }
            } else if k == OpKind::And {
                (Ok(EVar::BVal(args[1].spec_to_bool() && args[0].spec_to_bool())), used)
            } else if k == OpKind::Or {
                (Ok(EVar::BVal(args[1].spec_to_bool() || args[0].spec_to_bool())), used)
            } else {
                let (r1, u1) = int_operand_spec(args[1], ans, used);
                match r1 {
                    Ok(x) => {
                        let (r2, u2) = int_operand_spec(args[0], ans, u1);
                        match r2 {
                            Ok(y) => (Ok(EVar::IVal(bitwise_spec(k, x, y))), u2),
                            Err(s) => (Err(s), u2),
                        }
                    },
                    Err(s) => (Err(s), u1),
                }
            }
        },
        Def::Func(f) => {
            if f == FnKind::Pow {
                settle_spec(spec_pow(args[1], args[0]), ans, used)
            } else if f == FnKind::Max || f == FnKind::Min {
                if nb == 0 {
                    (Err(fail(ExErr::EvalMaxParam)), used)
                } else {
                    fold_spec(f, args[0], args.drop_first(), ans, used)
                }
            } else if f == FnKind::Avg {
                if nb == 0 {
                    (Err(fail(ExErr::EvalAvgParam)), used)
                } else {
                    let (r, u) = fold_spec(f, args[0], args.drop_first(), ans, used);
                    match r {
                        Ok(sum) => ask_spec(
                            ans,
                            u,
                            CallView::Float(host_call_value(FloatOp::Div, sum, EVar::IVal(nb as i64))),
                        ),
                        Err(s) => (Err(s), u),
                    }
                }
            } else if f == FnKind::Now {
                ask_spec(ans, used, CallView::Clock)
            } else {
                ask_spec(
                    ans,
                    used,
                    CallView::Float(host_call_value(unary_float_op(f), args[0], EVar::IVal(0))),
                )
            }
        },
        Def::User(i) => ask_spec(ans, used, CallView::User(i, args)),
        _ => (Err(fail(ExErr::EvalNullFn)), used),
    }
}

pub open spec fn host_call_value(op: FloatOp, x: EVar, y: EVar) -> FloatCall {
    FloatCall { op, lhs: x, rhs: y }
}

fn settle(c: Calc, answers: &Vec<EVar>, used: &mut usize) -> (r: Result<EVar, EvalStep>)
    requires
        *old(used) <= answers@.len(),
    ensures
        *final(used) <= answers@.len(),
        (lift(r), *final(used) as int) == settle_spec(c, answers@, *old(used) as int),
{
    match c {
        Calc::Val(v) => Ok(v),
        Calc::Host(fc) => ask(answers, used, HostCall::Float(fc)),
    }
}

fn int_operand(x: &EVar, answers: &Vec<EVar>, used: &mut usize) -> (r: Result<EVar, EvalStep>)
    requires
        *old(used) <= answers@.len(),
    ensures
        *final(used) <= answers@.len(),
        (lift(r), *final(used) as int) == int_operand_spec(*x, answers@, *old(used) as int),
        r matches Ok(v) ==> !v.spec_is_float(),
{
    if x.is_float() {
        let call = HostCall::Float(FloatCall { op: FloatOp::Trunc, lhs: x.duplicate(), rhs: EVar::IVal(0) });
        match ask(answers, used, call) {
            Ok(a) => if a.is_float() {
                Ok(EVar::IVal(0))
            } else {
                Ok(a)
            },
            Err(s) => Err(s),
        }
    } else {
        Ok(x.duplicate())
    }
}

fn fold(f: FnKind, args: &Vec<EVar>, answers: &Vec<EVar>, used: &mut usize) -> (r: Result<EVar, EvalStep>)
    requires
        args@.len() > 0,
        *old(used) <= answers@.len(),
    ensures
        *final(used) <= answers@.len(),
        (lift(r), *final(used) as int) == fold_spec(f, args@[0], args@.drop_first(), answers@, *old(used) as int),
{
    let mut acc = args[0].duplicate();
    let mut k: usize = 1;
    while k < args.len()
        invariant
            1 <= k <= args@.len(),
            *used <= answers@.len(),
            fold_spec(f, args@[0], args@.drop_first(), answers@, *old(used) as int) == fold_spec(
                f,
                acc,
                args@.subrange(k as int, args@.len() as int),
                answers@,
                *used as int,
            ),
        decreases args@.len() - k,
    {
        let ghost rest = args@.subrange(k as int, args@.len() as int);
        assert(rest[0] == args@[k as int]);
        assert(rest.drop_first() =~= args@.subrange(k + 1, args@.len() as int));
        let c = match f {
            FnKind::Max => acc.max(&args[k]),
            FnKind::Min => acc.min(&args[k]),
            _ => acc.ev_add(&args[k]),
        };
        match settle(c, answers, used) {
            Ok(v) => {
                acc = v;
            },
            Err(s) => {
                return Err(s);
            },
        }
        k = k + 1;
    }
    assert(args@.subrange(k as int, args@.len() as int).len() == 0);
    assert(args@.drop_first() =~= args@.subrange(1, args@.len() as int));
    Ok(acc)
}

/// Computes what `def` gives on the claimed operands `args` (nearest first).
pub fn compute(def: Def, nb: u32, args: &Vec<EVar>, answers: &Vec<EVar>, used: &mut usize) -> (r:
    Result<EVar, EvalStep>)
    requires
        args@.len() == claim_count(def, nb),
        def == Def::Op(OpKind::Div) ==> !zero_divisor(args@[0]),
        *old(used) <= answers@.len(),
    ensures
        *final(used) <= answers@.len(),
        (lift(r), *final(used) as int) == compute_spec(def, nb, args@, answers@, *old(used) as int),
{
    match def {
        Def::Op(k) => {
            match k {
                OpKind::Plus => {
                    if nb == 1 {
                        Ok(args[0].duplicate())
                    } else {
                        settle(args[1].ev_add(&args[0]), answers, used)
                    }
                },
                OpKind::Minus => {
                    if nb == 1 {
                        settle(EVar::IVal(0).ev_sub(&args[0]), answers, used)
                    } else {
                        settle(args[1].ev_sub(&args[0]), answers, used)
                    }
                },
                OpKind::Mul => settle(args[1].ev_mul(&args[0]), answers, used),
                OpKind::Div => settle(args[1].ev_div(&args[0]), answers, used),
                OpKind::Eq => settle(args[1].ev_eq(&args[0]), answers, used),
                OpKind::Neq => settle(args[1].ev_compare(FloatOp::Ne, &args[0]), answers, used),
                OpKind::InfEq => settle(args[1].ev_infeq(&args[0]), answers, used),
                OpKind::SupEq => settle(args[1].ev_supeq(&args[0]), answers, used),
                OpKind::Inf => settle(args[1].ev_inf(&args[0]), answers, used),
                OpKind::Sup => settle(args[1].ev_sup(&args[0]), answers, used),
                OpKind::LogNot => Ok(EVar::BVal(args[0].ev_lognot())),
                OpKind::BitNot => {
                    let x = int_operand(&args[0], answers, used)?;
                    Ok(EVar::IVal(x.ev_bitnot()))
                },
                OpKind::And => Ok(EVar::BVal(args[1].to_bool() && args[0].to_bool())),
                OpKind::Or => Ok(EVar::BVal(args[1].to_bool() || args[0].to_bool())),
                _ => {
                    let x = int_operand(&args[1], answers, used)?;
                    let y = int_operand(&args[0], answers, used)?;
                    let v = match k {
                        OpKind::BitAnd => x.ev_band(&y),
                        OpKind::BitOr => x.ev_bor(&y),
                        OpKind::BitXor => x.ev_bitxor(&y),
                        OpKind::Shl => x.ev_shl(&y),
                        _ => x.ev_shr(&y),
                    };
                    Ok(EVar::IVal(v))
                },
            }
        },
        Def::Func(f) => {
            match f {
                FnKind::Pow => settle(args[1].pow(&args[0]), answers, used),
                FnKind::Max | FnKind::Min => {
                    if nb == 0 {
                        return Err(EvalStep::Done(Err(RpnError::Exec(ExErr::EvalMaxParam))));
                    }
                    fold(f, args, answers, used)
                },
                FnKind::Avg => {
                    if nb == 0 {
                        return Err(EvalStep::Done(Err(RpnError::Exec(ExErr::EvalAvgParam))));
                    }
                    let sum = fold(f, args, answers, used)?;
                    let call = FloatCall { op: FloatOp::Div, lhs: sum, rhs: EVar::IVal(nb as i64) };
                    ask(answers, used, HostCall::Float(call))
                },
                FnKind::Now => ask(answers, used, HostCall::Clock),
                FnKind::Sin => settle(args[0].sin(), answers, used),
                FnKind::Cos => settle(args[0].cos(), answers, used),
                FnKind::Tan => settle(args[0].tan(), answers, used),
                FnKind::Sqrt => settle(args[0].sqrt(), answers, used),
                FnKind::Cbrt => settle(args[0].cbrt(), answers, used),
                FnKind::Exp => settle(args[0].exp(), answers, used),
                FnKind::Ln => settle(args[0].ln(), answers, used),
                FnKind::Log10 => settle(args[0].log10(), answers, used),
            }
        },
        Def::User(i) => {
            let mut copy: Vec<EVar> = Vec::new();
            let mut j: usize = 0;
            while j < args.len()
                invariant
                    j <= args@.len(),
                    copy@ == args@.subrange(0, j as int),
                decreases args@.len() - j,
            {
                copy.push(args[j].duplicate());
                j = j + 1;
                assert(copy@ =~= args@.subrange(0, j as int));
            }
            assert(copy@ =~= args@);
            ask(answers, used, HostCall::User { index: i, args: copy })
        },
        _ => Err(EvalStep::Done(Err(RpnError::Exec(ExErr::EvalNullFn)))),
    }
}

/// A slot that the evaluator executes: an operator, or a function given parameters.
pub open spec fn eligible(t: Token) -> bool {
    t.kind == TokKind::Operator || (t.kind == TokKind::Function && t.nb_param > 0)
}

/// Claims `n` operands from the top of `stack` (slot positions with their values), the
/// claiming slot standing at `from`. Gives the values in claim order, what is left of the
/// stack and the position of the last slot claimed.
pub open spec fn claim_spec(stack: Seq<(int, EVar)>, from: int, n: nat) -> Result<
    (Seq<EVar>, Seq<(int, EVar)>, int),
    ExErr,
>
    decreases n,
{
    if n == 0 {
        Ok((Seq::empty(), stack, from))
    } else if from == 0 {
        Err(ExErr::GetOperandStart)
    } else if stack.len() == 0 {
        Err(ExErr::GetOperandMissing)
    } else {
        match claim_spec(stack.drop_last(), stack.last().0, (n - 1) as nat) {
            Ok((vs, rest, p)) => Ok((seq![stack.last().1] + vs, rest, p)),
            Err(e) => Err(e),
        }
    }
}

/// The operands a slot claims: for a division, the divisor is checked before the
/// dividend is claimed.
pub open spec fn claims_of(t: Token, k: int, stack: Seq<(int, EVar)>) -> Result<
    (Seq<EVar>, Seq<(int, EVar)>, int),
    ExErr,
> {
    if t.def == Def::Op(OpKind::Div) {
        match claim_spec(stack, k, 1) {
            Ok((a, s1, p1)) => if zero_divisor(a[0]) {
                Err(ExErr::EvalDiv0)
            } else {
                match claim_spec(s1, p1, 1) {
                    Ok((b, s2, p2)) => Ok((a + b, s2, p2)),
                    Err(e) => Err(e),
                }
            },
            Err(e) => Err(e),
        }
    } else {
        claim_spec(stack, k, claim_count(t.def, t.nb_param))
    }
}

/// Executes the slot `t` at position `k` on `stack`: its value and what is left of the
/// stack.
pub open spec fn slot_spec(t: Token, k: int, stack: Seq<(int, EVar)>, ans: Seq<EVar>, used: int) -> (
    Result<(EVar, Seq<(int, EVar)>), StepView>,
    int,
) {
    match claims_of(t, k, stack) {
        Err(e) => (Err(fail(e)), used),
        Ok((args, rest, _)) => {
            let (r, u) = compute_spec(t.def, t.nb_param, args, ans, used);
            match r {
                Ok(v) => (Ok((v, rest)), u),
                Err(s) => (Err(s), u),
            }
        },
    }
}

/// Runs the program from slot `k` on: each executed slot pushes its value, every other
/// slot pushes its own. The outcome is the value of the last executed slot.
pub open spec fn run_spec(
    prog: Seq<Token>,
    vals: Seq<EVar>,
    k: int,
    stack: Seq<(int, EVar)>,
    ans: Seq<EVar>,
    used: int,
    last: Option<EVar>,
) -> StepView
    decreases prog.len() - k,
{
    if k >= prog.len() || k < 0 {
        StepView::Done(Ok(last))
    } else if eligible(prog[k]) {
        let (r, u) = slot_spec(prog[k], k, stack, ans, used);
        match r {
            Ok((v, rest)) => run_spec(prog, vals, k + 1, rest.push((k, v)), ans, u, Some(v)),
            Err(s) => s,
        }
    } else {
        run_spec(prog, vals, k + 1, stack.push((k, vals[k])), ans, used, last)
    }
}

/// A number written as a float literal, whose value the host reads from its text.
pub open spec fn is_float_literal(t: Token) -> bool {
    t.float_lit && t.kind == TokKind::Number
}

/// The values of the first `n` slots: a float literal's is asked of the host; a slot that
/// executes gets its value when it runs.
pub open spec fn load_spec(prog: Seq<Token>, ans: Seq<EVar>, n: int) -> (Result<Seq<EVar>, StepView>, int)
    decreases n,
{
    if n <= 0 {
        (Ok(Seq::empty()), 0)
    } else {
        let (r, u) = load_spec(prog, ans, n - 1);
        match r {
            Ok(vs) => if is_float_literal(prog[n - 1]) {
                let (a, u2) = ask_spec(
                    ans,
                    u,
                    CallView::Float(host_call_value(FloatOp::ToFloat, prog[n - 1].val, EVar::IVal(0))),
                );
                match a {
                    Ok(v) => (Ok(vs.push(v)), u2),
                    Err(s) => (Err(s), u2),
                }
            } else if eligible(prog[n - 1]) {
                (Ok(vs.push(EVar::IVal(0))), u)
            } else {
                (Ok(vs.push(prog[n - 1].val)), u)
            },
            Err(s) => (Err(s), u),
        }
    }
}

/// The outcome of an evaluation pass over the postfix program `prog` with the host's
/// answers `ans`.
pub open spec fn eval_spec(prog: Seq<Token>, ans: Seq<EVar>) -> StepView {
    let (loaded, u) = load_spec(prog, ans, prog.len() as int);
    match loaded {
        Err(s) => s,
        Ok(vals) => if forall|j: int| 0 <= j < prog.len() ==> !eligible(#[trigger] prog[j]) {
            if prog.len() == 1 {
                let t = prog[0];
                if t.kind == TokKind::Number || t.kind == TokKind::Constant {
                    StepView::Done(Ok(Some(vals[0])))
                } else if t.kind == TokKind::Function {
                    let (r, _) = slot_spec(t, 0, Seq::empty(), ans, u);
                    match r {
                        Ok((v, _)) => StepView::Done(Ok(Some(v))),
                        Err(s) => s,
                    }
                } else {
                    fail(ExErr::StartWrongToken)
                }
            } else {
                fail(ExErr::WrongStackLen)
            }
        } else if eligible(prog[0]) {
            fail(ExErr::StartOperandMissing)
        } else {
            run_spec(prog, vals, 0, Seq::empty(), ans, u, None)
        },
    }
}

/// The operands not yet claimed among the first `k` slots, oldest first.
pub open spec fn live(ts: Seq<Token>, vals: Seq<EVar>, k: int) -> Seq<(int, EVar)>
    decreases k,
{
    if k <= 0 {
        Seq::empty()
    } else if !ts[k - 1].consumed {
        live(ts, vals, k - 1).push((k - 1, vals[k - 1]))
    } else {
        live(ts, vals, k - 1)
    }
}

proof fn lemma_live_frame(t1: Seq<Token>, v1: Seq<EVar>, t2: Seq<Token>, v2: Seq<EVar>, k: int)
    requires
        0 <= k <= t1.len(),
        k <= t2.len(),
        k <= v1.len(),
        k <= v2.len(),
        forall|j: int| 0 <= j < k ==> #[trigger] t1[j].consumed == t2[j].consumed && v1[j] == v2[j],
    ensures
        live(t1, v1, k) == live(t2, v2, k),
    decreases k,
{
    if k > 0 {
        lemma_live_frame(t1, v1, t2, v2, k - 1);
    }
}

proof fn lemma_live_skip(ts: Seq<Token>, vals: Seq<EVar>, a: int, b: int)
    requires
        0 <= a <= b <= ts.len(),
        forall|j: int| a <= j < b ==> ts[j].consumed,
    ensures
        live(ts, vals, b) == live(ts, vals, a),
    decreases b - a,
{
    if a < b {
        lemma_live_skip(ts, vals, a, b - 1);
    }
}

/// Claims the nearest slot before `istart` that is not yet consumed, and marks it
/// consumed.
pub fn get_operand(istart: usize, tokens: &mut Vec<Token>) -> (r: Result<usize, RpnError>)
    requires
        istart <= old(tokens)@.len(),
    ensures
        istart == 0 ==> r == Err::<usize, RpnError>(RpnError::Exec(ExErr::GetOperandStart)),
        r matches Err(e) ==> final(tokens)@ == old(tokens)@ && ((istart == 0 && e == RpnError::Exec(
            ExErr::GetOperandStart,
        )) || (e == RpnError::Exec(ExErr::GetOperandMissing) && istart > 0 && forall|j: int|
            0 <= j < istart ==> old(tokens)@[j].consumed)),
        r matches Ok(i) ==> {
            &&& i < istart
            &&& !old(tokens)@[i as int].consumed
            &&& forall|j: int| i < j < istart ==> old(tokens)@[j].consumed
            &&& final(tokens)@ == old(tokens)@.update(
                i as int,
                Token { consumed: true, ..old(tokens)@[i as int] },
            )
        },
{
    if istart == 0 {
        return Err(RpnError::Exec(ExErr::GetOperandStart));
    }
    let mut i: usize = istart;
    while i > 0
        invariant
            i <= istart <= tokens@.len(),
            tokens@ == old(tokens)@,
            forall|j: int| i <= j < istart ==> tokens@[j].consumed,
        decreases i,
    {
        i = i - 1;
        if !tokens[i].consumed {
            tokens[i].consumed = true;
            return Ok(i);
        }
    }
    Err(RpnError::Exec(ExErr::GetOperandMissing))
}

proof fn lemma_claim_len(s: Seq<(int, EVar)>, from: int, n: nat)
    ensures
        claim_spec(s, from, n) matches Ok((vs, _, _)) ==> vs.len() == n,
    decreases n,
{
    if n > 0 && from != 0 && s.len() > 0 {
        lemma_claim_len(s.drop_last(), s.last().0, (n - 1) as nat);
    }
}

/// Puts `args` before the values that a claim gives.
pub open spec fn prepend(args: Seq<EVar>, r: Result<(Seq<EVar>, Seq<(int, EVar)>, int), ExErr>) -> Result<
    (Seq<EVar>, Seq<(int, EVar)>, int),
    ExErr,
> {
    match r {
        Ok((vs, rest, p)) => Ok((args + vs, rest, p)),
        Err(e) => Err(e),
    }
}

proof fn lemma_prepend_empty(r: Result<(Seq<EVar>, Seq<(int, EVar)>, int), ExErr>)
    ensures
        prepend(Seq::empty(), r) == r,
{
    match r {
        Ok((vs, rest, p)) => {
            assert(Seq::<EVar>::empty() + vs =~= vs);
        },
        Err(e) => {},
    }
}

proof fn lemma_claim_pop(s: Seq<(int, EVar)>, from: int, m: nat, args: Seq<EVar>)
    requires
        from != 0,
        s.len() > 0,
        m > 0,
    ensures
        prepend(args, claim_spec(s, from, m)) == prepend(
            args.push(s.last().1),
            claim_spec(s.drop_last(), s.last().0, (m - 1) as nat),
        ),
{
    match claim_spec(s.drop_last(), s.last().0, (m - 1) as nat) {
        Ok((vs, rest, p)) => {
            assert(args + (seq![s.last().1] + vs) =~= args.push(s.last().1) + vs);
        },
        Err(e) => {},
    }
}

/// `b` is `a` with, at most, other `consumed` flags.
pub open spec fn same_but_consumed(a: Seq<Token>, b: Seq<Token>) -> bool {
    &&& a.len() == b.len()
    &&& forall|j: int| 0 <= j < a.len() ==> same_slot(a[j], #[trigger] b[j])
}

/// Two slots that agree on all an evaluation pass reads but their flags.
pub open spec fn same_slot(a: Token, b: Token) -> bool {
    &&& a.kind == b.kind && a.def == b.def && a.nb_param == b.nb_param
    &&& a.float_lit == b.float_lit && a.val == b.val && a.executed == b.executed
    &&& a.text@ == b.text@ && a.unary == b.unary
}

/// Claims one operand for the slot at `k`, scanning back from `from`; every slot from
/// `from` up to `k` is already consumed.
fn claim_one(from: usize, k: usize, tokens: &mut Vec<Token>, values: &Vec<EVar>) -> (r: Result<usize, RpnError>)
    requires
        from <= k < old(tokens)@.len(),
        values@.len() == old(tokens)@.len(),
        forall|j: int| from <= j < k ==> old(tokens)@[j].consumed,
    ensures
        same_but_consumed(old(tokens)@, final(tokens)@),
        forall|j: int| k <= j < old(tokens)@.len() ==> final(tokens)@[j].consumed == old(tokens)@[j].consumed,
        r matches Ok(i) ==> {
            let s = live(old(tokens)@, values@, k as int);
            &&& from != 0 && s.len() > 0
            &&& s.last() == (i as int, values@[i as int])
            &&& live(final(tokens)@, values@, k as int) == s.drop_last()
            &&& i < from
            &&& forall|j: int| i <= j < k ==> final(tokens)@[j].consumed
        },
        r matches Err(e) ==> final(tokens)@ == old(tokens)@ && ((from == 0 && e == RpnError::Exec(
            ExErr::GetOperandStart,
        )) || (from != 0 && live(old(tokens)@, values@, k as int).len() == 0 && e == RpnError::Exec(
            ExErr::GetOperandMissing,
        ))),
{
    let ghost t0 = tokens@;
    let r = get_operand(from, tokens);
    proof {
        lemma_live_skip(t0, values@, from as int, k as int);
        match r {
            Ok(i) => {
                let t1 = tokens@;
                lemma_live_skip(t0, values@, i + 1, from as int);
                assert(live(t0, values@, i + 1) == live(t0, values@, i as int).push((i as int, values@[i as int])));
                assert forall|j: int| i <= j < k implies t1[j].consumed by {
                    if j > i && j < from {
                        assert(t0[j].consumed);
                    }
                }
                lemma_live_skip(t1, values@, i as int, k as int);
                lemma_live_frame(t1, values@, t0, values@, i as int);
                assert(live(t0, values@, i as int).push((i as int, values@[i as int])).drop_last()
                    =~= live(t0, values@, i as int));
                assert forall|j: int| 0 <= j < t0.len() implies same_slot(t0[j], #[trigger] t1[j]) by {
                    if j != i {
                        assert(t1[j] == t0[j]);
                    }
                }
            },
            Err(e) => {
                if from != 0 {
                    lemma_live_skip(t0, values@, 0, from as int);
                }
            },
        }
    }
    r
}

/// The number of operands a definition claims.
fn claims_needed(def: Def, nb: u32) -> (r: u32)
    ensures
        r == claim_count(def, nb),
{
    match def {
        Def::Op(k) => match k {
            OpKind::Plus | OpKind::Minus => if nb == 1 {
                1
            } else {
                2
            },
            OpKind::LogNot | OpKind::BitNot => 1,
            _ => 2,
        },
        Def::Func(f) => match f {
            FnKind::Pow => 2,
            FnKind::Max | FnKind::Min | FnKind::Avg => nb,
            FnKind::Now => 0,
            _ => 1,
        },
        Def::User(_) => nb,
        _ => 0,
    }
}

pub fn is_zero_divisor(x: &EVar) -> (r: bool)
    ensures
        r == zero_divisor(*x),
{
    match x {
        EVar::IVal(i) => *i == 0,
        EVar::FVal(bits) => *bits & MAGNITUDE_MASK == 0,
        EVar::BVal(b) => !*b,
        EVar::SVal(_) => true,
    }
}

/// Claims `n` operands for the slot at `k`, nearest first.
fn claim_n(n: u32, k: usize, tokens: &mut Vec<Token>, values: &Vec<EVar>) -> (r: Result<Vec<EVar>, RpnError>)
    requires
        k < old(tokens)@.len(),
        values@.len() == old(tokens)@.len(),
    ensures
        same_but_consumed(old(tokens)@, final(tokens)@),
        forall|j: int| k <= j < old(tokens)@.len() ==> final(tokens)@[j].consumed == old(tokens)@[j].consumed,
        match claim_spec(live(old(tokens)@, values@, k as int), k as int, n as nat) {
            Ok((vs, rest, _)) => (r matches Ok(a) && a@ == vs) && live(final(tokens)@, values@, k as int) == rest,
            Err(e) => r == Err::<Vec<EVar>, RpnError>(RpnError::Exec(e)),
        },
{
    let ghost t0 = tokens@;
    let ghost s0 = live(t0, values@, k as int);
    let mut args: Vec<EVar> = Vec::new();
    let mut from: usize = k;
    let mut c: u32 = 0;
    proof {
        lemma_prepend_empty(claim_spec(s0, k as int, n as nat));
    }
    while c < n
        invariant
            t0 == old(tokens)@,
            s0 == live(t0, values@, k as int),
            c <= n,
            from <= k < tokens@.len(),
            values@.len() == tokens@.len(),
            same_but_consumed(t0, tokens@),
            forall|j: int| k <= j < t0.len() ==> tokens@[j].consumed == t0[j].consumed,
            forall|j: int| from <= j < k ==> tokens@[j].consumed,
            claim_spec(s0, k as int, n as nat) == prepend(
                args@,
                claim_spec(live(tokens@, values@, k as int), from as int, (n - c) as nat),
            ),
        decreases n - c,
    {
        let ghost tb = tokens@;
        let ghost sb = live(tb, values@, k as int);
        let ghost fb = from;
        let ghost ab = args@;
        match claim_one(from, k, tokens, values) {
            Ok(i) => {
                proof {
                    lemma_claim_pop(sb, fb as int, (n - c) as nat, ab);
                    assert forall|j: int| 0 <= j < t0.len() implies same_slot(t0[j], #[trigger] tokens@[j]) by {
                        assert(same_slot(t0[j], tb[j]));
                        assert(same_slot(tb[j], tokens@[j]));
                    }
                }
                args.push(values[i].duplicate());
                from = i;
            },
            Err(e) => {
                return Err(e);
            },
        }
        c = c + 1;
    }
    proof {
        assert(args@ + Seq::<EVar>::empty() =~= args@);
        assert(claim_spec(live(tokens@, values@, k as int), from as int, 0) == Ok::<_, ExErr>((Seq::<EVar>::empty(), live(tokens@, values@, k as int), from as int)));
    }
    Ok(args)
}

/// The outcome of exec code for a slot, seen as its plain value.
pub open spec fn slot_matches(
    r: Result<EVar, EvalStep>,
    s: Result<(EVar, Seq<(int, EVar)>), StepView>,
    rest: Seq<(int, EVar)>,
) -> bool {
    match (r, s) {
        (Ok(v), Ok((sv, srest))) => v == sv && rest == srest,
        (Err(e), Err(se)) => e@ == se,
        _ => false,
    }
}

/// Claims the operands of the slot at `k` and computes its value.
fn exec_slot(k: usize, tokens: &mut Vec<Token>, values: &Vec<EVar>, answers: &Vec<EVar>, used: &mut usize) -> (r:
    Result<EVar, EvalStep>)
    requires
        k < old(tokens)@.len(),
        values@.len() == old(tokens)@.len(),
        *old(used) <= answers@.len(),
    ensures
        *final(used) <= answers@.len(),
        same_but_consumed(old(tokens)@, final(tokens)@),
        forall|j: int| k <= j < old(tokens)@.len() ==> final(tokens)@[j].consumed == old(tokens)@[j].consumed,
        ({
            let (sr, su) = slot_spec(
                old(tokens)@[k as int],
                k as int,
                live(old(tokens)@, values@, k as int),
                answers@,
                *old(used) as int,
            );
            su == *final(used) as int && slot_matches(r, sr, live(final(tokens)@, values@, k as int))
        }),
{
    let ghost t0 = tokens@;
    let ghost s0 = live(t0, values@, k as int);
    let def = tokens[k].def;
    let nb = tokens[k].nb_param;
    let mut args: Vec<EVar> = Vec::new();
    let mut from: usize = k;
    if def == Def::Op(OpKind::Div) {
        let i = match claim_one(from, k, tokens, values) {
            Ok(i) => i,
            Err(e) => return Err(EvalStep::Done(Err(e))),
        };
        let ghost s1 = live(tokens@, values@, k as int);
        proof {
            lemma_claim_pop(s0, k as int, 1, Seq::empty());
            lemma_prepend_empty(claim_spec(s0, k as int, 1));
            assert(Seq::<EVar>::empty().push(values@[i as int]) =~= seq![values@[i as int]]);
            assert(claim_spec(s1, i as int, 0) == Ok::<_, ExErr>((Seq::<EVar>::empty(), s1, i as int)));
            assert(seq![values@[i as int]] + Seq::<EVar>::empty() =~= seq![values@[i as int]]);
        }
        if is_zero_divisor(&values[i]) {
            return Err(EvalStep::Done(Err(RpnError::Exec(ExErr::EvalDiv0))));
        }
        args.push(values[i].duplicate());
        from = i;
        let j = match claim_one(from, k, tokens, values) {
            Ok(j) => j,
            Err(e) => {
                return Err(EvalStep::Done(Err(e)));
            },
        };
        args.push(values[j].duplicate());
        proof {
            lemma_claim_pop(s1, i as int, 1, Seq::empty());
            lemma_prepend_empty(claim_spec(s1, i as int, 1));
            assert(claim_spec(s1.drop_last(), j as int, 0) == Ok::<_, ExErr>((Seq::<EVar>::empty(), s1.drop_last(), j as int)));
            assert(Seq::<EVar>::empty().push(values@[j as int]) + Seq::<EVar>::empty() =~= seq![values@[j as int]]);
            assert(seq![values@[i as int]] + seq![values@[j as int]] =~= args@);
        }
    } else {
        let n = claims_needed(def, nb);
        proof {
            lemma_claim_len(s0, k as int, n as nat);
        }
        args = match claim_n(n, k, tokens, values) {
            Ok(v) => v,
            Err(e) => return Err(EvalStep::Done(Err(e))),
        };
    }
    compute(def, nb, &args, answers, used)
}

/// Two programs that an evaluation pass cannot tell apart: they agree slot by slot on all
/// but the flags and the values that executed slots hold.
pub open spec fn same_program(a: Seq<Token>, b: Seq<Token>) -> bool {
    &&& a.len() == b.len()
    &&& forall|j: int|
        0 <= j < a.len() ==> {
            &&& (#[trigger] a[j]).kind == b[j].kind && a[j].def == b[j].def
            &&& a[j].nb_param == b[j].nb_param && a[j].float_lit == b[j].float_lit
            &&& a[j].text@ == b[j].text@ && a[j].unary == b[j].unary
            &&& !eligible(a[j]) ==> a[j].val == b[j].val
        }
}

proof fn lemma_load_same(a: Seq<Token>, b: Seq<Token>, ans: Seq<EVar>, n: int)
    requires
        same_program(a, b),
        n <= a.len(),
    ensures
        load_spec(a, ans, n) == load_spec(b, ans, n),
    decreases n,
{
    if n > 0 {
        lemma_load_same(a, b, ans, n - 1);
        assert(a[n - 1].kind == b[n - 1].kind);
    }
}

proof fn lemma_run_same(
    a: Seq<Token>,
    b: Seq<Token>,
    vals: Seq<EVar>,
    k: int,
    stack: Seq<(int, EVar)>,
    ans: Seq<EVar>,
    used: int,
    last: Option<EVar>,
)
    requires
        same_program(a, b),
    ensures
        run_spec(a, vals, k, stack, ans, used, last) == run_spec(b, vals, k, stack, ans, used, last),
    decreases a.len() - k,
{
    if 0 <= k < a.len() {
        let (r, u) = slot_spec(a[k], k, stack, ans, used);
        assert(slot_spec(a[k], k, stack, ans, used) == slot_spec(b[k], k, stack, ans, used));
        match r {
            Ok((v, rest)) => lemma_run_same(a, b, vals, k + 1, rest.push((k, v)), ans, u, Some(v)),
            Err(s) => {},
        }
        lemma_run_same(a, b, vals, k + 1, stack.push((k, vals[k])), ans, used, last);
    }
}

/// An evaluation pass reads nothing that an earlier pass wrote: on programs it cannot tell
/// apart, with the same answers from the host, it ends the same way.
pub proof fn law_eval_repeatable(a: Seq<Token>, b: Seq<Token>, ans: Seq<EVar>)
    requires
        same_program(a, b),
    ensures
        eval_spec(a, ans) == eval_spec(b, ans),
{
    lemma_load_same(a, b, ans, a.len() as int);
    let (loaded, u) = load_spec(a, ans, a.len() as int);
    if a.len() > 0 {
        assert(a[0].kind == b[0].kind);
        assert(slot_spec(a[0], 0, Seq::empty(), ans, u) == slot_spec(b[0], 0, Seq::empty(), ans, u));
    }
    if forall|j: int| 0 <= j < a.len() ==> !eligible(#[trigger] a[j]) {
        assert forall|j: int| 0 <= j < b.len() implies !eligible(#[trigger] b[j]) by {
            assert(!eligible(a[j]));
        }
    } else {
        let j = choose|j: int| 0 <= j < a.len() && eligible(#[trigger] a[j]);
        assert(eligible(b[j]));
    }
    match loaded {
        Ok(vals) => lemma_run_same(a, b, vals, 0, Seq::empty(), ans, u, None),
        Err(_) => {},
    }
}

pub fn is_eligible(t: &Token) -> (r: bool)
    ensures
        r == eligible(*t),
{
    t.kind == TokKind::Operator || (t.kind == TokKind::Function && t.nb_param > 0)
}

/// Clears the pass flags of every slot.
fn reset_flags(tokens: &mut Vec<Token>)
    ensures
        final(tokens)@.len() == old(tokens)@.len(),
        forall|j: int|
            0 <= j < old(tokens)@.len() ==> #[trigger] final(tokens)@[j] == (Token {
                consumed: false,
                executed: false,
                ..old(tokens)@[j]
            }),
{
    let n = tokens.len();
    let mut i: usize = 0;
    while i < n
        invariant
            n == old(tokens)@.len(),
            tokens@.len() == n,
            i <= n,
            forall|j: int|
                0 <= j < i ==> #[trigger] tokens@[j] == (Token {
                    consumed: false,
                    executed: false,
                    ..old(tokens)@[j]
                }),
            forall|j: int| i <= j < n ==> #[trigger] tokens@[j] == old(tokens)@[j],
        decreases n - i,
    {
        tokens[i].consumed = false;
        tokens[i].executed = false;
        i = i + 1;
    }
}

/// The values of the slots: a float literal's is asked of the host; a slot that executes
/// gets its value when it runs.
fn load_values(tokens: &Vec<Token>, answers: &Vec<EVar>, used: &mut usize) -> (r: Result<
    Vec<EVar>,
    EvalStep,
>)
    requires
        *old(used) == 0,
    ensures
        *final(used) <= answers@.len(),
        ({
            let (l, u) = load_spec(tokens@, answers@, tokens@.len() as int);
            &&& u == *final(used) as int
            &&& match (r, l) {
                (Ok(v), Ok(vs)) => v@ == vs,
                (Err(s), Err(ls)) => s@ == ls,
                _ => false,
            }
        }),
{
    let mut values: Vec<EVar> = Vec::new();
    let n = tokens.len();
    let mut i: usize = 0;
    while i < n
        invariant
            n == tokens@.len(),
            i <= n,
            *used <= answers@.len(),
            load_spec(tokens@, answers@, i as int) == (Ok::<Seq<EVar>, StepView>(values@), *used as int),
        decreases n - i,
    {
        let t = &tokens[i];
        if t.float_lit && t.kind == TokKind::Number {
            let call = FloatCall { op: FloatOp::ToFloat, lhs: t.val.duplicate(), rhs: EVar::IVal(0) };
            match ask(answers, used, HostCall::Float(call)) {
                Ok(v) => values.push(v),
                Err(s) => {
                    proof {
                        lemma_load_stops(tokens@, answers@, i as int + 1, n as int);
                    }
                    return Err(s);
                },
            }
        } else if is_eligible(t) {
            values.push(EVar::IVal(0));
        } else {
            values.push(t.val.duplicate());
        }
        i = i + 1;
    }
    Ok(values)
}

proof fn lemma_load_len(prog: Seq<Token>, ans: Seq<EVar>, n: int)
    requires
        0 <= n,
    ensures
        load_spec(prog, ans, n).0 matches Ok(vs) ==> vs.len() == n,
    decreases n,
{
    if n > 0 {
        lemma_load_len(prog, ans, n - 1);
    }
}

proof fn lemma_load_stops(prog: Seq<Token>, ans: Seq<EVar>, m: int, n: int)
    requires
        0 <= m <= n,
        load_spec(prog, ans, m).0 is Err,
    ensures
        load_spec(prog, ans, n) == load_spec(prog, ans, m),
    decreases n - m,
{
    if m < n {
        lemma_load_stops(prog, ans, m, n - 1);
    }
}

fn copy_result(r: &Result<Option<EVar>, RpnError>) -> (o: Result<Option<EVar>, RpnError>)
    ensures
        o == *r,
{
    match r {
        Ok(Some(v)) => Ok(Some(v.duplicate())),
        Ok(None) => Ok(None),
        Err(e) => Err(*e),
    }
}

proof fn lemma_live_extend(ts: Seq<Token>, vals: Seq<EVar>, k: int)
    requires
        0 <= k < ts.len(),
        k < vals.len(),
        !ts[k].consumed,
    ensures
        live(ts, vals, k + 1) == live(ts, vals, k).push((k, vals[k])),
{
}

/// Runs the slots in order, executing each operator and each function given parameters.
fn run_slots(tokens: &mut Vec<Token>, values: &mut Vec<EVar>, answers: &Vec<EVar>, used: &mut usize) -> (r:
    EvalStep)
    requires
        old(values)@.len() == old(tokens)@.len(),
        *old(used) <= answers@.len(),
        forall|j: int| 0 <= j < old(tokens)@.len() ==> !(#[trigger] old(tokens)@[j]).consumed,
    ensures
        r@ == run_spec(old(tokens)@, old(values)@, 0, Seq::empty(), answers@, *old(used) as int, None),
        same_program(old(tokens)@, final(tokens)@),
{
    let ghost prog = tokens@;
    let ghost vals = values@;
    let ghost u0 = *used;
    let n = tokens.len();
    let mut last: Option<EVar> = None;
    let mut k: usize = 0;
    proof {
        assert(live(tokens@, values@, 0) == Seq::<(int, EVar)>::empty());
    }
    while k < n
        invariant
            n == tokens@.len(),
            n == prog.len(),
            prog == old(tokens)@,
            vals == old(values)@,
            u0 == *old(used),
            values@.len() == n,
            k <= n,
            *used <= answers@.len(),
            same_program(prog, tokens@),
            forall|j: int| k <= j < n ==> !(#[trigger] tokens@[j]).consumed,
            forall|j: int| k <= j < n ==> values@[j] == #[trigger] vals[j],
            run_spec(prog, vals, 0, Seq::empty(), answers@, u0 as int, None) == run_spec(
                prog,
                vals,
                k as int,
                live(tokens@, values@, k as int),
                answers@,
                *used as int,
                last,
            ),
        decreases n - k,
    {
        if is_eligible(&tokens[k]) {
            let ghost tb = tokens@;
            let ghost ub = *used;
            proof {
                assert(slot_spec(tb[k as int], k as int, live(tb, values@, k as int), answers@, ub as int)
                    == slot_spec(prog[k as int], k as int, live(tb, values@, k as int), answers@, ub as int));
            }
            match exec_slot(k, tokens, values, answers, used) {
                Ok(v) => {
                    let ghost tc = tokens@;
                    let ghost vc = values@;
                    values.set(k, v.duplicate());
                    tokens[k].val = v.duplicate();
                    tokens[k].executed = true;
                    last = Some(v);
                    proof {
                        assert forall|j: int| 0 <= j < k implies #[trigger] tokens@[j].consumed == tc[j].consumed && values@[j] == vc[j] by {
                            assert(tokens@[j] == tc[j]);
                        }
                        lemma_live_frame(tokens@, values@, tc, vc, k as int);
                        lemma_live_extend(tokens@, values@, k as int);
                        assert forall|j: int| 0 <= j < n implies {
                            &&& (#[trigger] prog[j]).kind == tokens@[j].kind
                            &&& prog[j].def == tokens@[j].def
                            &&& prog[j].nb_param == tokens@[j].nb_param
                            &&& prog[j].float_lit == tokens@[j].float_lit
                            &&& prog[j].text@ == tokens@[j].text@ && prog[j].unary == tokens@[j].unary
                            &&& !eligible(prog[j]) ==> prog[j].val == tokens@[j].val
                        } by {
                            assert(same_slot(tb[j], tc[j]));
                            if j != k {
                                assert(tokens@[j] == tc[j]);
                            }
                        }
                    }
                },
                Err(s) => {
                    proof {
                        assert forall|j: int| 0 <= j < n implies {
                            &&& (#[trigger] prog[j]).kind == tokens@[j].kind
                            &&& prog[j].def == tokens@[j].def
                            &&& prog[j].nb_param == tokens@[j].nb_param
                            &&& prog[j].float_lit == tokens@[j].float_lit
                            &&& prog[j].text@ == tokens@[j].text@ && prog[j].unary == tokens@[j].unary
                            &&& !eligible(prog[j]) ==> prog[j].val == tokens@[j].val
                        } by {
                            assert(same_slot(tb[j], tokens@[j]));
                        }
                    }
                    return s;
                },
            }
        } else {
            proof {
                lemma_live_extend(tokens@, values@, k as int);
            }
        }
        k = k + 1;
    }
    EvalStep::Done(Ok(last))
}

impl<'a> Expression<'a> {
    /// Runs one evaluation pass over the postfix program, with the host's answers to the
    /// calls made so far. A pass that needs one more answer stops at that call.
    pub fn eval(&mut self, answers: &Vec<EVar>) -> (r: EvalStep)
        ensures
            final(self).context == old(self).context,
            final(self).tokens@ == old(self).tokens@,
            final(self).tokenized == old(self).tokenized,
            final(self).parsed == old(self).parsed,
            !old(self).parsed && old(self).res is Err ==> r@ == fail(ExErr::NotParsed),
            old(self).parsed || old(self).res is Ok ==> r@ == eval_spec(
                old(self).parse_stack@,
                answers@,
            ),
            old(self).parsed || old(self).res is Ok ==> same_program(
                old(self).parse_stack@,
                final(self).parse_stack@,
            ),
            old(self).parsed || old(self).res is Ok ==> (r matches EvalStep::Done(res)
                ==> final(self).res == res),
    {
        if !self.parsed {
            if self.res.is_err() {
                return EvalStep::Done(Err(RpnError::Exec(ExErr::NotParsed)));
            }
        }
        let step = self.pass(answers);
        if let EvalStep::Done(res) = &step {
            self.res = copy_result(res);
        }
        step
    }

    fn pass(&mut self, answers: &Vec<EVar>) -> (r: EvalStep)
        ensures
            final(self).context == old(self).context,
            final(self).tokens@ == old(self).tokens@,
            final(self).tokenized == old(self).tokenized,
            final(self).parsed == old(self).parsed,
            final(self).res == old(self).res,
            r@ == eval_spec(old(self).parse_stack@, answers@),
            same_program(old(self).parse_stack@, final(self).parse_stack@),
    {
        let ghost prog = self.parse_stack@;
        reset_flags(&mut self.parse_stack);
        proof {
            assert forall|j: int| 0 <= j < prog.len() implies {
                &&& (#[trigger] prog[j]).kind == self.parse_stack@[j].kind
                &&& prog[j].def == self.parse_stack@[j].def
                &&& prog[j].nb_param == self.parse_stack@[j].nb_param
                &&& prog[j].float_lit == self.parse_stack@[j].float_lit
                &&& prog[j].text@ == self.parse_stack@[j].text@ && prog[j].unary == self.parse_stack@[j].unary
                &&& !eligible(prog[j]) ==> prog[j].val == self.parse_stack@[j].val
            } by {
                assert(self.parse_stack@[j] == (Token { consumed: false, executed: false, ..prog[j] }));
            }
            assert(same_program(prog, self.parse_stack@));
            lemma_load_same(prog, self.parse_stack@, answers@, prog.len() as int);
        }
        let mut used: usize = 0;
        let mut values = match load_values(&self.parse_stack, answers, &mut used) {
            Ok(v) => v,
            Err(s) => {
                return s;
            },
        };
        let n = self.parse_stack.len();
        proof {
            lemma_load_len(self.parse_stack@, answers@, n as int);
        }
        let mut first: usize = 0;
        while first < n && !is_eligible(&self.parse_stack[first])
            invariant
                first <= n,
                n == self.parse_stack@.len(),
                forall|j: int| 0 <= j < first ==> !eligible(#[trigger] self.parse_stack@[j]),
            decreases n - first,
        {
            first = first + 1;
        }
        proof {
            if first == n {
                assert forall|j: int| 0 <= j < prog.len() implies !eligible(#[trigger] prog[j]) by {
                    assert(!eligible(self.parse_stack@[j]));
                }
            } else {
                assert(eligible(prog[first as int]));
            }
        }
        if first == n {
            if n == 1 {
                let kind = self.parse_stack[0].kind;
                if kind == TokKind::Number || kind == TokKind::Constant {
                    return EvalStep::Done(Ok(Some(values[0].duplicate())));
                } else if kind == TokKind::Function {
                    if self.parse_stack[0].nb_param > 0 {
                        return EvalStep::Done(Err(RpnError::Exec(ExErr::TooManyParams)));
                    }
                    let ghost t1 = self.parse_stack@;
                    proof {
                        assert(slot_spec(t1[0], 0, live(t1, values@, 0), answers@, used as int)
                            == slot_spec(prog[0], 0, Seq::empty(), answers@, used as int));
                    }
                    let r = match exec_slot(0, &mut self.parse_stack, &values, answers, &mut used) {
                        Ok(v) => EvalStep::Done(Ok(Some(v))),
                        Err(s) => s,
                    };
                    proof {
                        assert forall|j: int| 0 <= j < prog.len() implies {
                            &&& (#[trigger] prog[j]).kind == self.parse_stack@[j].kind
                            &&& prog[j].def == self.parse_stack@[j].def
                            &&& prog[j].nb_param == self.parse_stack@[j].nb_param
                            &&& prog[j].float_lit == self.parse_stack@[j].float_lit
                            &&& prog[j].text@ == self.parse_stack@[j].text@ && prog[j].unary == self.parse_stack@[j].unary
                            &&& !eligible(prog[j]) ==> prog[j].val == self.parse_stack@[j].val
                        } by {
                            assert(same_slot(t1[j], self.parse_stack@[j]));
                        }
                    }
                    return r;
                } else {
                    return EvalStep::Done(Err(RpnError::Exec(ExErr::StartWrongToken)));
                }
            } else {
                return EvalStep::Done(Err(RpnError::Exec(ExErr::WrongStackLen)));
            }
        }
        if first == 0 {
            return EvalStep::Done(Err(RpnError::Exec(ExErr::StartOperandMissing)));
        }
        let ghost t1 = self.parse_stack@;
        let ghost v1 = values@;
        let ghost u1 = used;
        let r = run_slots(&mut self.parse_stack, &mut values, answers, &mut used);
        proof {
            lemma_run_same(prog, t1, v1, 0, Seq::empty(), answers@, u1 as int, None);
            assert forall|j: int| 0 <= j < prog.len() implies {
                &&& (#[trigger] prog[j]).kind == self.parse_stack@[j].kind
                &&& prog[j].def == self.parse_stack@[j].def
                &&& prog[j].nb_param == self.parse_stack@[j].nb_param
                &&& prog[j].float_lit == self.parse_stack@[j].float_lit
                &&& prog[j].text@ == self.parse_stack@[j].text@ && prog[j].unary == self.parse_stack@[j].unary
                &&& !eligible(prog[j]) ==> prog[j].val == self.parse_stack@[j].val
            } by {
                assert(t1[j].kind == self.parse_stack@[j].kind);
            }
        }
        r
    }
}

/// Division by a zero number, by `false` or by any string fails with `EvalDiv0` before the
/// dividend is even claimed, whatever the dividend is.
pub proof fn law_divide_by_zero(t: Token, k: int, stack: Seq<(int, EVar)>, ans: Seq<EVar>, used: int)
    requires
        t.def == Def::Op(OpKind::Div),
        k != 0,
        stack.len() > 0,
        zero_divisor(stack.last().1),
    ensures
        slot_spec(t, k, stack, ans, used) == (Err::<(EVar, Seq<(int, EVar)>), StepView>(
            fail(ExErr::EvalDiv0),
        ), used),
{
    let s = stack.drop_last();
    assert(claim_spec(s, stack.last().0, 0) == Ok::<_, ExErr>((Seq::<EVar>::empty(), s, stack.last().0)));
    assert(seq![stack.last().1] + Seq::<EVar>::empty() =~= seq![stack.last().1]);
}

} // verus!
