//! The type checker for expressions.
//!
//! The type of a name is the type the context gives it. A forall is a type
//! (of type `Type0`) when its parameter types and its output are types. A
//! function's type is the forall of its normalised parameter types and
//! return type; its body is checked with the function itself in scope (so
//! that it may call itself), against the return type. A call's callee must
//! have a forall type; each argument is checked against its parameter's
//! type with the earlier arguments put in for the earlier parameters, and
//! the call's type is the forall's output with all the arguments put in.
//! A check expression has the type of its output. Where a type is compared
//! with another, both are first rewritten with the equations that the
//! substitution context holds.
//!
//! Evaluation takes a fuel (see `eval`), and so does the type checker: it
//! hands the fuel to every evaluation and rewriting it starts.
//!
//! Matches are outside what this checker covers: `type_of` gives no answer
//! for them (`Halt::Stuck`), so the checking functions' preconditions leave
//! them out, as they leave out labeled calls to functions with labeled
//! parameters.

use vstd::prelude::*;
use crate::ast::{
    Term, ArgList, ParamTerm, IdName, ReservedIdentifierName, Expression, Call, CallArgList, Fun,
    Forall, Param, exprs_view, params_view, copy_identifier, copy_optional_identifier,
};
use crate::context::{Context, ContextEntry, ContextEntryDefinition, DefinitionView, TYPE0_LEVEL, TYPE1_LEVEL};
use crate::equality::{copy_expression, expressions_equal};
use crate::eval::{
    Evaluation, eval, eval_terms, push_params, none_labeled, all_labeled, name_term, substituted,
    evaluate_well_typed_expression, eval_exprs, name_of,
};
use crate::misc::{NormalFormId, TypeCheckError, TypeCheckErrorView};
use crate::normal_form::{head_lookup_ok, as_adt, type0_expression, is_term_equal_to_type0_or_type1, is_term_equal_to_a_trivially_empty_type};
use crate::shift::{UpshiftFn, term_fits};
use crate::shift_trait::{ShiftDbIndices, upshift_term};
use crate::substitute::{Substitution, substitutions_view, subst_all};
use crate::substitution_application::{
    Halt, Tagged, apply_context_equations, apply_substitutions_from_substitution_context, exprs_seq, as_unapplied, is_first_unapplied,
};
use crate::substitution_context::SubstitutionContext;

verus! {

// ---------------------------------------------------------------------
// The model
// ---------------------------------------------------------------------

/// What checking gives: a value, or a type error, or no answer.
pub type Checked<T> = Result<Result<T, TypeCheckErrorView>, Halt>;

/// The term `t` evaluated: its normal form, or why there is none.
pub open spec fn norm(ctx: Seq<(Term, DefinitionView)>, t: Term, fuel: nat) -> Result<Term, Halt> {
    match eval(ctx, t, fuel) {
        Evaluation::Value(v) => Ok(v),
        Evaluation::OutOfFuel => Err(Halt::OutOfFuel),
        Evaluation::Stuck => Err(Halt::Stuck),
    }
}

/// `t` is the name `Type0` or the name `Type1`.
pub open spec fn is_universe(ctx: Seq<(Term, DefinitionView)>, t: Term) -> bool {
    t matches Term::Name { index, .. } && (index == ctx.len() - 1 - TYPE0_LEVEL || index == ctx.len() - 1 - TYPE1_LEVEL)
}

/// The name `Type`, which refers to `Type0`.
pub open spec fn type0_term(ctx: Seq<(Term, DefinitionView)>) -> Term {
    Term::Name {
        components: seq![IdName::Reserved(ReservedIdentifierName::TypeTitleCase)],
        index: (ctx.len() - 1 - TYPE0_LEVEL) as nat,
    }
}

/// The context can give the type of the variable with this index.
pub open spec fn name_type_ok(ctx: Seq<(Term, DefinitionView)>, index: nat) -> bool {
    &&& index < ctx.len()
    &&& ctx.len() - index - 1 != TYPE1_LEVEL
    &&& index + 1 <= usize::MAX
    &&& term_fits(ctx[ctx.len() - index - 1].0, UpshiftFn((index + 1) as usize), 0)
}

/// The type of the variable with this index, relative to the top of the
/// context.
pub open spec fn name_type(ctx: Seq<(Term, DefinitionView)>, index: nat) -> Term {
    upshift_term(ctx[ctx.len() - index - 1].0, (index + 1) as usize, 0)
}

/// Whether a value of type `l` may stand where one of type `r` is
/// expected: after rewriting both with the substitution context's
/// equations, they are equal, or `l` is an ADT without variants; and
/// always where an equation explodes (the place cannot be reached).
pub open spec fn assignable(
    ctx: Seq<(Term, DefinitionView)>,
    sctx: Seq<(nat, Seq<(Term, Term)>)>,
    l: Term,
    r: Term,
    fuel: nat,
) -> Result<bool, Halt> {
    match apply_context_equations(ctx, sctx, seq![l, r], fuel) {
        Err(h) => Err(h),
        Ok(None) => Ok(true),
        Ok(Some(ts)) => if ts.len() != 2 {
            Err(Halt::Stuck)
        } else if ts[0] == ts[1] {
            Ok(true)
        } else if !head_lookup_ok(ctx, ts[0]) {
            Err(Halt::Stuck)
        } else {
            Ok(as_adt(ctx, ts[0]) matches Some(a) && a.1.len() == 0)
        },
    }
}

/// The first `i` arguments put in for the first `i` parameters of a
/// forall in a term that sits under those `i` parameters: the `j`-th
/// parameter, index `i - j - 1`, is replaced by the `j`-th argument shifted
/// past the `i` parameters, and the result is shifted back down.
pub open spec fn instantiation_subs(ps: Seq<ParamTerm>, vals: Seq<Term>, i: nat) -> Seq<(Term, Term)> {
    Seq::new(i, |j: int| (name_term(ps[j].name, (i - j - 1) as nat), upshift_term(vals[j], i as usize, 0)))
}

pub open spec fn instantiation_fits(vals: Seq<Term>, i: nat) -> bool {
    &&& i <= usize::MAX
    &&& i <= vals.len()
    &&& forall|j: int| 0 <= j < i ==> term_fits(#[trigger] vals[j], UpshiftFn(i as usize), 0)
}

/// `body` with the first `i` arguments put in, evaluated.
pub open spec fn instantiate(
    ctx: Seq<(Term, DefinitionView)>,
    ps: Seq<ParamTerm>,
    vals: Seq<Term>,
    body: Term,
    i: nat,
    fuel: nat,
) -> Result<Term, Halt> {
    if instantiation_fits(vals, i) && i <= ps.len() {
        match substituted(body, instantiation_subs(ps, vals, i), i) {
            None => Err(Halt::Stuck),
            Some(b) => norm(ctx, b, fuel),
        }
    } else {
        Err(Halt::Stuck)
    }
}

/// The type of `t` in the context `ctx` under the substitution context
/// `sctx`.
pub open spec fn type_of(ctx: Seq<(Term, DefinitionView)>, sctx: Seq<(nat, Seq<(Term, Term)>)>, t: Term, fuel: nat) -> Checked<Term>
    decreases t, 0int,
{
    if ctx.len() <= TYPE0_LEVEL {
        Err(Halt::Stuck)
    } else {
        match t {
            Term::Name { index, .. } => if name_type_ok(ctx, index) {
                Ok(Ok(name_type(ctx, index)))
            } else {
                Err(Halt::Stuck)
            },
            Term::Call { callee, args } => match type_of(ctx, sctx, *callee, fuel) {
                Err(h) => Err(h),
                Ok(Err(e)) => Ok(Err(e)),
                Ok(Ok(ct)) => match ct {
                    Term::Forall { params: fps, output } => match args {
                        ArgList::Labeled(_) => if all_labeled(fps) {
                            Err(Halt::Stuck)
                        } else {
                            Ok(Err(TypeCheckErrorView::CallLabelednessMismatch { call: t }))
                        },
                        ArgList::Unlabeled(ts) => if !none_labeled(fps) {
                            Ok(Err(TypeCheckErrorView::CallLabelednessMismatch { call: t }))
                        } else if fps.len() != ts.len() {
                            Ok(Err(TypeCheckErrorView::WrongNumberOfArguments { call: t, expected: fps.len(), actual: ts.len() }))
                        } else {
                            match eval_terms(ctx, ts, fuel) {
                                Err(Evaluation::OutOfFuel) => Err(Halt::OutOfFuel),
                                Err(_) => Err(Halt::Stuck),
                                Ok(vals) => match check_args(ctx, sctx, fps, vals, ts, fuel) {
                                    Err(h) => Err(h),
                                    Ok(Err(e)) => Ok(Err(e)),
                                    Ok(Ok(())) => match instantiate(ctx, fps, vals, *output, fps.len(), fuel) {
                                        Err(h) => Err(h),
                                        Ok(o) => Ok(Ok(o)),
                                    },
                                },
                            }
                        },
                    },
                    _ => Ok(Err(TypeCheckErrorView::IllegalCallee(*callee))),
                },
            },
            Term::Fun { name, params, return_type, body, skip_type_checking_body } => match type_params(ctx, sctx, params, fuel) {
                Err(h) => Err(h),
                Ok(Err(e)) => Ok(Err(e)),
                Ok(Ok(ps)) => {
                    let inner = push_params(ctx, ps);
                    let n = params.len();
                    match type_of(inner, sctx, *return_type, fuel) {
                        Err(h) => Err(h),
                        Ok(Err(e)) => Ok(Err(e)),
                        Ok(Ok(rtt)) => if !is_universe(inner, rtt) {
                            Ok(Err(TypeCheckErrorView::IllegalTypeExpression(*return_type)))
                        } else {
                            match norm(inner, *return_type, fuel) {
                                Err(h) => Err(h),
                                Ok(rt) => {
                                    let fun_type = Term::Forall { params: ps, output: Box::new(rt) };
                                    if !(n <= usize::MAX && term_fits(fun_type, UpshiftFn(n as usize), 0) && term_fits(
                                        t,
                                        UpshiftFn(n as usize),
                                        0,
                                    ) && term_fits(*return_type, UpshiftFn(1), 0)) {
                                        Err(Halt::Stuck)
                                    } else {
                                        match norm(inner, body_skipped(upshift_term(t, n as usize, 0)), fuel) {
                                            Err(h) => Err(h),
                                            Ok(fv) => {
                                                let inner2 = inner.push((upshift_term(fun_type, n as usize, 0), DefinitionView::Alias(fv)));
                                                match norm(inner2, upshift_term(*return_type, 1, 0), fuel) {
                                                    Err(h) => Err(h),
                                                    Ok(rt2) => if skip_type_checking_body {
                                                        Ok(Ok(fun_type))
                                                    } else {
                                                        match type_of(inner2, sctx, *body, fuel) {
                                                            Err(h) => Err(h),
                                                            Ok(Err(e)) => Ok(Err(e)),
                                                            Ok(Ok(bt)) => match assignable(inner2, sctx, bt, rt2, fuel) {
                                                                Err(h) => Err(h),
                                                                Ok(true) => Ok(Ok(fun_type)),
                                                                Ok(false) => Ok(Err(TypeCheckErrorView::TypeMismatch {
                                                                    expression: *body,
                                                                    expected_type: rt2,
                                                                    actual_type: bt,
                                                                })),
                                                            },
                                                        }
                                                    },
                                                }
                                            },
                                        }
                                    }
                                },
                            }
                        },
                    }
                },
            },
            Term::Match { .. } => Err(Halt::Stuck),
            Term::Forall { params, output } => match type_params(ctx, sctx, params, fuel) {
                Err(h) => Err(h),
                Ok(Err(e)) => Ok(Err(e)),
                Ok(Ok(ps)) => match type_of(push_params(ctx, ps), sctx, *output, fuel) {
                    Err(h) => Err(h),
                    Ok(Err(e)) => Ok(Err(e)),
                    Ok(Ok(ot)) => if is_universe(push_params(ctx, ps), ot) {
                        Ok(Ok(type0_term(ctx)))
                    } else {
                        Ok(Err(TypeCheckErrorView::IllegalTypeExpression(*output)))
                    },
                },
            },
            Term::Check { output, .. } => type_of(ctx, sctx, *output, fuel),
        }
    }
}

/// A function whose body is not to be checked.
pub open spec fn body_skipped(f: Term) -> Term {
    match f {
        Term::Fun { name, params, return_type, body, .. } => Term::Fun { name, params, return_type, body, skip_type_checking_body: true },
        _ => f,
    }
}

/// The parameters checked in order, each in the context of the ones before
/// it: its type must have type `Type0` or `Type1`, and it is replaced by
/// its normal form.
pub open spec fn type_params(ctx: Seq<(Term, DefinitionView)>, sctx: Seq<(nat, Seq<(Term, Term)>)>, ps: Seq<ParamTerm>, fuel: nat) -> Checked<Seq<ParamTerm>>
    decreases ps, 0int,
{
    if ps.len() == 0 {
        Ok(Ok(seq![]))
    } else {
        match type_params(ctx, sctx, ps.drop_last(), fuel) {
            Err(h) => Err(h),
            Ok(Err(e)) => Ok(Err(e)),
            Ok(Ok(prefix)) => {
                let c = push_params(ctx, prefix);
                match type_of(c, sctx, ps.last().type_, fuel) {
                    Err(h) => Err(h),
                    Ok(Err(e)) => Ok(Err(e)),
                    Ok(Ok(tt)) => if !is_universe(c, tt) {
                        Ok(Err(TypeCheckErrorView::IllegalTypeExpression(ps.last().type_)))
                    } else {
                        match norm(c, ps.last().type_, fuel) {
                            Err(h) => Err(h),
                            Ok(v) => Ok(Ok(prefix.push(ParamTerm { type_: v, ..ps.last() }))),
                        }
                    },
                }
            },
        }
    }
}

/// The arguments `ts` (normal forms `vals`) checked in order against the
/// forall parameters `ps`.
pub open spec fn check_args(
    ctx: Seq<(Term, DefinitionView)>,
    sctx: Seq<(nat, Seq<(Term, Term)>)>,
    ps: Seq<ParamTerm>,
    vals: Seq<Term>,
    ts: Seq<Term>,
    fuel: nat,
) -> Checked<()>
    decreases ts, 0int,
{
    if ts.len() == 0 {
        Ok(Ok(()))
    } else {
        match check_args(ctx, sctx, ps, vals, ts.drop_last(), fuel) {
            Err(h) => Err(h),
            Ok(Err(e)) => Ok(Err(e)),
            Ok(Ok(())) => arg_check(ctx, sctx, ps, vals, ts.last(), (ts.len() - 1) as nat, fuel),
        }
    }
}

/// The argument `t`, the `i`-th, checked against its parameter's type with
/// the arguments before it put in for the parameters before it.
#[verifier::opaque]
pub open spec fn arg_check(
    ctx: Seq<(Term, DefinitionView)>,
    sctx: Seq<(nat, Seq<(Term, Term)>)>,
    ps: Seq<ParamTerm>,
    vals: Seq<Term>,
    t: Term,
    i: nat,
    fuel: nat,
) -> Checked<()>
    decreases t, 1int,
{
    match instantiate(ctx, ps, vals, ps[i as int].type_, i, fuel) {
        Err(h) => Err(h),
        Ok(expected) => match type_of(ctx, sctx, t, fuel) {
            Err(h) => Err(h),
            Ok(Err(e)) => Ok(Err(e)),
            Ok(Ok(actual)) => match assignable(ctx, sctx, actual, expected, fuel) {
                Err(h) => Err(h),
                Ok(true) => Ok(Ok(())),
                Ok(false) => Ok(Err(TypeCheckErrorView::TypeMismatch { expression: t, expected_type: expected, actual_type: actual })),
            },
        },
    }
}

/// `r` is what checking gave, where it gave an answer; `None` where the
/// fuel ran out. Where checking found an error, nothing is said of the
/// state it left.
pub open spec fn checked<T: View>(r: Option<Result<T, TypeCheckError>>, x: Checked<T::V>) -> bool {
    match r {
        Some(Ok(v)) => x == Ok::<Result<T::V, TypeCheckErrorView>, Halt>(Ok(v@)),
        Some(Err(e)) => x == Ok::<Result<T::V, TypeCheckErrorView>, Halt>(Err(e@)),
        None => x == Err::<Result<T::V, TypeCheckErrorView>, Halt>(Halt::OutOfFuel),
    }
}


// ---------------------------------------------------------------------
// Checking
// ---------------------------------------------------------------------

/// An error in a prefix of the parameters is the error of all of them.
proof fn lemma_type_params_prefix(ctx: Seq<(Term, DefinitionView)>, sctx: Seq<(nat, Seq<(Term, Term)>)>, ps: Seq<ParamTerm>, fuel: nat, k: int)
    requires
        0 <= k <= ps.len(),
        !(type_params(ctx, sctx, ps.take(k), fuel) is Ok && type_params(ctx, sctx, ps.take(k), fuel)->Ok_0 is Ok),
    ensures
        type_params(ctx, sctx, ps, fuel) == type_params(ctx, sctx, ps.take(k), fuel),
    decreases ps.len() - k,
{
    if k < ps.len() {
        assert(ps.take(k + 1).drop_last() =~= ps.take(k));
        lemma_type_params_prefix(ctx, sctx, ps, fuel, k + 1);
    } else {
        assert(ps.take(k) =~= ps);
    }
}

/// One more argument checked: the check of the prefix one longer.
proof fn lemma_check_args_step(
    ctx: Seq<(Term, DefinitionView)>,
    sctx: Seq<(nat, Seq<(Term, Term)>)>,
    ps: Seq<ParamTerm>,
    vals: Seq<Term>,
    ts: Seq<Term>,
    fuel: nat,
    k: int,
)
    requires
        0 <= k < ts.len(),
        check_args(ctx, sctx, ps, vals, ts.take(k), fuel) == Ok::<Result<(), TypeCheckErrorView>, Halt>(Ok(())),
    ensures
        check_args(ctx, sctx, ps, vals, ts.take(k + 1), fuel) == arg_check(ctx, sctx, ps, vals, ts[k], k as nat, fuel),
{
    let t2 = ts.take(k + 1);
    assert(t2.drop_last() =~= ts.take(k));
    assert(t2.last() == ts[k]);
    assert((t2.len() - 1) as nat == k as nat);
    assert(check_args(ctx, sctx, ps, vals, t2, fuel) == arg_check(ctx, sctx, ps, vals, t2.last(), (t2.len() - 1) as nat, fuel)) by {
        reveal(arg_check);
        reveal_with_fuel(check_args, 2);
    }
}

/// An error in a prefix of the arguments is the error of all of them.
proof fn lemma_check_args_prefix(
    ctx: Seq<(Term, DefinitionView)>,
    sctx: Seq<(nat, Seq<(Term, Term)>)>,
    ps: Seq<ParamTerm>,
    vals: Seq<Term>,
    ts: Seq<Term>,
    fuel: nat,
    k: int,
)
    requires
        0 <= k <= ts.len(),
        check_args(ctx, sctx, ps, vals, ts.take(k), fuel) != Ok::<Result<(), TypeCheckErrorView>, Halt>(Ok(())),
    ensures
        check_args(ctx, sctx, ps, vals, ts, fuel) == check_args(ctx, sctx, ps, vals, ts.take(k), fuel),
    decreases ts.len() - k,
{
    if k < ts.len() {
        assert(ts.take(k + 1).drop_last() =~= ts.take(k));
        reveal_with_fuel(check_args, 2);
        assert(check_args(ctx, sctx, ps, vals, ts.take(k + 1), fuel) == check_args(ctx, sctx, ps, vals, ts.take(k), fuel));
        lemma_check_args_prefix(ctx, sctx, ps, vals, ts, fuel, k + 1);
    } else {
        assert(ts.take(k) =~= ts);
    }
}

/// Whether a value of type `l` may stand where one of type `r` is
/// expected (see `assignable`); `None` where the fuel ran out.
pub fn is_left_type_assignable_to_right_type(
    context: &mut Context,
    substitution_context: &SubstitutionContext,
    l: &NormalFormId,
    r: &NormalFormId,
    fuel: usize,
) -> (res: Option<bool>)
    requires
        !(assignable(old(context)@, substitution_context@, l@, r@, fuel as nat) matches Err(Halt::Stuck)),
    ensures
        final(context)@ == old(context)@,
        match res {
            Some(b) => assignable(old(context)@, substitution_context@, l@, r@, fuel as nat) == Ok::<bool, Halt>(b),
            None => assignable(old(context)@, substitution_context@, l@, r@, fuel as nat) == Err::<bool, Halt>(Halt::OutOfFuel),
        },
{
    let ts = vec![copy_expression(l.raw_ref()), copy_expression(r.raw_ref())];
    assert(exprs_seq(ts@) =~= seq![l@, r@]);
    match apply_substitutions_from_substitution_context(context, substitution_context, ts, fuel) {
        None => None,
        Some(None) => Some(true),
        Some(Some(v)) => {
            if v.len() != 2 {
                proof { assert(exprs_seq(v@).len() == v@.len()); }
                return vstd::pervasive::unreached();
            }
            assert(exprs_seq(v@)[0] == v@[0]@);
            assert(exprs_seq(v@)[1] == v@[1]@);
            if expressions_equal(&v[0], &v[1]) {
                Some(true)
            } else {
                Some(is_term_equal_to_a_trivially_empty_type(context, &NormalFormId::unchecked_new(copy_expression(&v[0]))))
            }
        },
    }
}

/// The term `body` with the first `i` arguments put in for the first `i`
/// parameters, evaluated (see `instantiate`); `None` where the fuel ran
/// out.
fn instantiate_exec(context: &mut Context, ps: &Vec<Param>, vals: &Vec<Expression>, body: &Expression, i: usize, fuel: usize) -> (r: Option<NormalFormId>)
    requires
        !(instantiate(old(context)@, params_view(ps@), exprs_view(vals@), body@, i as nat, fuel as nat) matches Err(Halt::Stuck)),
    ensures
        final(context)@ == old(context)@,
        match r {
            Some(v) => instantiate(old(context)@, params_view(ps@), exprs_view(vals@), body@, i as nat, fuel as nat) == Ok::<Term, Halt>(v@),
            None => instantiate(old(context)@, params_view(ps@), exprs_view(vals@), body@, i as nat, fuel as nat) == Err::<Term, Halt>(Halt::OutOfFuel),
        },
{
    let ghost pv = params_view(ps@);
    let ghost vv = exprs_view(vals@);
    let ghost spec_subs = instantiation_subs(pv, vv, i as nat);
    let mut subs: Vec<Substitution> = Vec::new();
    let mut j: usize = 0;
    while j < i
        invariant
            j <= i,
            i <= ps@.len(),
            i <= vals@.len(),
            pv == params_view(ps@),
            vv == exprs_view(vals@),
            spec_subs == instantiation_subs(pv, vv, i as nat),
            instantiation_fits(vv, i as nat),
            subs@.len() == j,
            forall|m: int| 0 <= m < j ==> (#[trigger] subs@[m])@ == spec_subs[m],
        decreases i - j,
    {
        assert(pv[j as int] == ps@[j as int]@);
        assert(vv[j as int] == vals@[j as int]@);
        assert(term_fits(vv[j as int], UpshiftFn(i), 0));
        let from = name_of(&ps[j].name, i - j - 1);
        let to = vals[j].upshift(i);
        subs.push(Substitution { from, to });
        j += 1;
    }
    assert(substitutions_view(subs@) =~= spec_subs);
    let substituted_body = subst_all(body, &subs);
    let b = substituted_body.downshift(i);
    evaluate_well_typed_expression(context, &b, fuel)
}

/// `a` is the same function with its body marked as not to be checked.
fn skip_body(e: Expression) -> (r: Expression)
    ensures
        r@ == body_skipped(e@),
{
    match e {
        Expression::Fun(f) => {
            let mut f = f;
            f.skip_type_checking_body = true;
            Expression::Fun(f)
        },
        other => other,
    }
}

/// The type of `e`, relative to the top of the context; `None` where the
/// fuel ran out. Where `e` has a type the context is as it was; where it
/// has none, the context may hold the variables of the binders that were
/// being checked.
pub fn get_type_of_expression_dirty(
    context: &mut Context,
    substitution_context: &SubstitutionContext,
    e: &Expression,
    fuel: usize,
) -> (r: Option<Result<NormalFormId, TypeCheckError>>)
    requires
        !(type_of(old(context)@, substitution_context@, e@, fuel as nat) matches Err(Halt::Stuck)),
    ensures
        checked(r, type_of(old(context)@, substitution_context@, e@, fuel as nat)),
        r matches Some(Ok(_)) ==> final(context)@ == old(context)@,
    decreases e, 0int,
{
    match e {
        Expression::Name(n) => Some(Ok(context.get_type(n.db_index))),
        Expression::Call(c) => get_type_of_call_dirty(context, substitution_context, e, c, fuel),
        Expression::Fun(f) => get_type_of_fun_dirty(context, substitution_context, e, f, fuel),
        Expression::Match(_) => vstd::pervasive::unreached(),
        Expression::Forall(f) => get_type_of_forall_dirty(context, substitution_context, e, f, fuel),
        Expression::Check(c) => get_type_of_expression_dirty(context, substitution_context, &c.output, fuel),
    }
}

/// The parameters checked in order and left in the context (see
/// `type_params`); `None` where the fuel ran out.
pub(crate) fn normalize_params_and_leave_params_in_context_dirty(
    context: &mut Context,
    substitution_context: &SubstitutionContext,
    v: &Vec<Param>,
    fuel: usize,
) -> (r: Option<Result<Vec<Param>, TypeCheckError>>)
    requires
        !(type_params(old(context)@, substitution_context@, params_view(v@), fuel as nat) matches Err(Halt::Stuck)),
    ensures
        match r {
            Some(Ok(ps)) => {
                &&& ps@.len() == v@.len()
                &&& type_params(old(context)@, substitution_context@, params_view(v@), fuel as nat)
                    == Ok::<Result<Seq<ParamTerm>, TypeCheckErrorView>, Halt>(Ok(params_view(ps@)))
                &&& final(context)@ == push_params(old(context)@, params_view(ps@))
            },
            Some(Err(x)) => type_params(old(context)@, substitution_context@, params_view(v@), fuel as nat)
                == Ok::<Result<Seq<ParamTerm>, TypeCheckErrorView>, Halt>(Err(x@)),
            None => type_params(old(context)@, substitution_context@, params_view(v@), fuel as nat)
                == Err::<Result<Seq<ParamTerm>, TypeCheckErrorView>, Halt>(Halt::OutOfFuel),
        },
    decreases v, 0int,
{
    let ghost s0 = context@;
    let ghost sv = substitution_context@;
    let ghost vv = params_view(v@);
    let mut out: Vec<Param> = Vec::new();
    let mut i: usize = 0;
    assert(vv.take(0) =~= Seq::<ParamTerm>::empty());
    assert(params_view(out@) =~= Seq::<ParamTerm>::empty());
    assert(push_params(s0, params_view(out@)) =~= s0);
    while i < v.len()
        invariant
            i <= v.len(),
            old(context)@ == s0,
            sv == substitution_context@,
            vv == params_view(v@),
            !(type_params(s0, sv, vv, fuel as nat) matches Err(Halt::Stuck)),
            type_params(s0, sv, vv.take(i as int), fuel as nat) == Ok::<Result<Seq<ParamTerm>, TypeCheckErrorView>, Halt>(Ok(params_view(out@))),
            context@ == push_params(s0, params_view(out@)),
            out@.len() == i,
        decreases v.len() - i,
    {
        assert(vv.take(i + 1).drop_last() =~= vv.take(i as int));
        assert(vv.take(i + 1).last() == vv[i as int]);
        assert(vv[i as int] == v@[i as int]@);
        assert(vv[i as int].type_ == v@[i as int].type_@);
        let ghost c = push_params(s0, params_view(out@));
        proof {
            let x = type_params(s0, sv, vv.take(i + 1), fuel as nat);
            if !(x is Ok && x->Ok_0 is Ok) {
                lemma_type_params_prefix(s0, sv, vv, fuel as nat, i + 1);
            }
        }
        let p = &v[i];
        let tt = match get_type_of_expression_dirty(context, substitution_context, &p.type_, fuel) {
            None => {
                proof { lemma_type_params_prefix(s0, sv, vv, fuel as nat, i + 1); }
                return None;
            },
            Some(Err(x)) => {
                proof { lemma_type_params_prefix(s0, sv, vv, fuel as nat, i + 1); }
                return Some(Err(x));
            },
            Some(Ok(t)) => t,
        };
        if !is_term_equal_to_type0_or_type1(context, &tt) {
            proof { lemma_type_params_prefix(s0, sv, vv, fuel as nat, i + 1); }
            return Some(Err(TypeCheckError::IllegalTypeExpression(copy_expression(&p.type_))));
        }
        let t = match evaluate_well_typed_expression(context, &p.type_, fuel) {
            None => {
                proof { lemma_type_params_prefix(s0, sv, vv, fuel as nat, i + 1); }
                return None;
            },
            Some(t) => t.raw(),
        };
        let ghost before = out@;
        let ghost tv = t@;
        context.push(ContextEntry { type_id: NormalFormId::unchecked_new(copy_expression(&t)), definition: ContextEntryDefinition::Uninterpreted });
        out.push(Param {
            label: copy_optional_identifier(&p.label),
            is_dashed: p.is_dashed,
            name: copy_identifier(&p.name),
            type_: t,
        });
        assert(params_view(out@) =~= params_view(before).push(ParamTerm { type_: tv, ..vv[i as int] }));
        assert(context@ =~= push_params(s0, params_view(out@)));
        i += 1;
    }
    assert(vv.take(v.len() as int) =~= vv);
    Some(Ok(out))
}

fn get_type_of_forall_dirty(
    context: &mut Context,
    substitution_context: &SubstitutionContext,
    e: &Expression,
    f: &Forall,
    fuel: usize,
) -> (r: Option<Result<NormalFormId, TypeCheckError>>)
    requires
        e@ == (Term::Forall { params: params_view(f.params@), output: Box::new(f.output@) }),
        !(type_of(old(context)@, substitution_context@, e@, fuel as nat) matches Err(Halt::Stuck)),
    ensures
        checked(r, type_of(old(context)@, substitution_context@, e@, fuel as nat)),
        r matches Some(Ok(_)) ==> final(context)@ == old(context)@,
    decreases f, 0int,
{
    let ghost s0 = context@;
    let n = f.params.len();
    let ps = match normalize_params_and_leave_params_in_context_dirty(context, substitution_context, &f.params, fuel) {
        None => return None,
        Some(Err(x)) => return Some(Err(x)),
        Some(Ok(ps)) => ps,
    };
    let ot = match get_type_of_expression_dirty(context, substitution_context, &f.output, fuel) {
        None => return None,
        Some(Err(x)) => return Some(Err(x)),
        Some(Ok(t)) => t,
    };
    if !is_term_equal_to_type0_or_type1(context, &ot) {
        return Some(Err(TypeCheckError::IllegalTypeExpression(copy_expression(&f.output))));
    }
    assert(params_view(ps@).len() == n);
    context.pop_n(n);
    assert(context@ =~= s0);
    Some(Ok(type0_expression(context)))
}


fn get_type_of_fun_dirty(
    context: &mut Context,
    substitution_context: &SubstitutionContext,
    e: &Expression,
    f: &Fun,
    fuel: usize,
) -> (r: Option<Result<NormalFormId, TypeCheckError>>)
    requires
        e@ == (Term::Fun {
            name: f.name@,
            params: params_view(f.params@),
            return_type: Box::new(f.return_type@),
            body: Box::new(f.body@),
            skip_type_checking_body: f.skip_type_checking_body,
        }),
        !(type_of(old(context)@, substitution_context@, e@, fuel as nat) matches Err(Halt::Stuck)),
    ensures
        checked(r, type_of(old(context)@, substitution_context@, e@, fuel as nat)),
        r matches Some(Ok(_)) ==> final(context)@ == old(context)@,
    decreases f, 0int,
{
    let ghost s0 = context@;
    let ghost sv = substitution_context@;
    let n = f.params.len();
    let ps = match normalize_params_and_leave_params_in_context_dirty(context, substitution_context, &f.params, fuel) {
        None => return None,
        Some(Err(x)) => return Some(Err(x)),
        Some(Ok(ps)) => ps,
    };
    let ghost inner = context@;
    assert(params_view(ps@).len() == n);
    let rtt = match get_type_of_expression_dirty(context, substitution_context, &f.return_type, fuel) {
        None => return None,
        Some(Err(x)) => return Some(Err(x)),
        Some(Ok(t)) => t,
    };
    if !is_term_equal_to_type0_or_type1(context, &rtt) {
        return Some(Err(TypeCheckError::IllegalTypeExpression(copy_expression(&f.return_type))));
    }
    let rt = match evaluate_well_typed_expression(context, &f.return_type, fuel) {
        None => return None,
        Some(v) => v,
    };
    let fun_type = Expression::Forall(Box::new(Forall { params: ps, output: rt.raw() }));
    let shifted_fun_type = fun_type.upshift(n);
    let skipped = skip_body(e.upshift(n));
    let fv = match evaluate_well_typed_expression(context, &skipped, fuel) {
        None => return None,
        Some(v) => v,
    };
    context.push(ContextEntry { type_id: NormalFormId::unchecked_new(shifted_fun_type), definition: ContextEntryDefinition::Alias { value_id: fv } });
    let rt2 = match evaluate_well_typed_expression(context, &f.return_type.upshift(1), fuel) {
        None => return None,
        Some(v) => v,
    };
    if !f.skip_type_checking_body {
        let bt = match get_type_of_expression_dirty(context, substitution_context, &f.body, fuel) {
            None => return None,
            Some(Err(x)) => return Some(Err(x)),
            Some(Ok(t)) => t,
        };
        match is_left_type_assignable_to_right_type(context, substitution_context, &bt, &rt2, fuel) {
            None => { return None; },
            Some(false) => {
                return Some(Err(TypeCheckError::TypeMismatch { expression_id: copy_expression(&f.body), expected_type_id: rt2, actual_type_id: bt }));
            },
            Some(true) => {},
        }
    }
    context.pop_n(1);
    context.pop_n(n);
    assert(context@ =~= s0);
    Some(Ok(NormalFormId::unchecked_new(fun_type)))
}

/// Whether no parameter is labeled.
fn params_none_labeled(v: &Vec<Param>) -> (r: bool)
    ensures
        r == none_labeled(params_view(v@)),
{
    let mut i: usize = 0;
    while i < v.len()
        invariant
            i <= v.len(),
            forall|k: int| 0 <= k < i ==> (#[trigger] params_view(v@)[k]).label is None,
        decreases v.len() - i,
    {
        assert(params_view(v@)[i as int] == v@[i as int]@);
        if v[i].label.is_some() {
            return false;
        }
        i += 1;
    }
    true
}

/// Whether there are parameters and every one is labeled.
fn params_all_labeled(v: &Vec<Param>) -> (r: bool)
    ensures
        r == all_labeled(params_view(v@)),
{
    if v.len() == 0 {
        return false;
    }
    let mut i: usize = 0;
    while i < v.len()
        invariant
            i <= v.len(),
            forall|k: int| 0 <= k < i ==> (#[trigger] params_view(v@)[k]).label is Some,
        decreases v.len() - i,
    {
        assert(params_view(v@)[i as int] == v@[i as int]@);
        if v[i].label.is_none() {
            return false;
        }
        i += 1;
    }
    true
}

/// The `i`-th argument `t` checked against its parameter (see
/// `arg_check`); `None` where the fuel ran out.
fn check_call_arg_dirty(
    context: &mut Context,
    substitution_context: &SubstitutionContext,
    ps: &Vec<Param>,
    vals: &Vec<Expression>,
    t: &Expression,
    i: usize,
    fuel: usize,
) -> (r: Option<Result<(), TypeCheckError>>)
    requires
        i < ps@.len(),
        !(arg_check(old(context)@, substitution_context@, params_view(ps@), exprs_view(vals@), t@, i as nat, fuel as nat) matches Err(Halt::Stuck)),
    ensures
        match r {
            Some(Ok(())) => {
                &&& arg_check(old(context)@, substitution_context@, params_view(ps@), exprs_view(vals@), t@, i as nat, fuel as nat)
                    == Ok::<Result<(), TypeCheckErrorView>, Halt>(Ok(()))
                &&& final(context)@ == old(context)@
            },
            Some(Err(x)) => arg_check(old(context)@, substitution_context@, params_view(ps@), exprs_view(vals@), t@, i as nat, fuel as nat)
                == Ok::<Result<(), TypeCheckErrorView>, Halt>(Err(x@)),
            None => arg_check(old(context)@, substitution_context@, params_view(ps@), exprs_view(vals@), t@, i as nat, fuel as nat)
                == Err::<Result<(), TypeCheckErrorView>, Halt>(Halt::OutOfFuel),
        },
    decreases t, 1int,
{
    reveal(arg_check);
    assert(params_view(ps@)[i as int] == ps@[i as int]@);
    let expected = match instantiate_exec(context, ps, vals, &ps[i].type_, i, fuel) {
        None => return None,
        Some(x) => x,
    };
    let actual = match get_type_of_expression_dirty(context, substitution_context, t, fuel) {
        None => return None,
        Some(Err(x)) => return Some(Err(x)),
        Some(Ok(a)) => a,
    };
    match is_left_type_assignable_to_right_type(context, substitution_context, &actual, &expected, fuel) {
        None => None,
        Some(false) => Some(Err(TypeCheckError::TypeMismatch { expression_id: copy_expression(t), expected_type_id: expected, actual_type_id: actual })),
        Some(true) => Some(Ok(())),
    }
}

/// The arguments checked in order against the parameters (see
/// `check_args`); `None` where the fuel ran out.
fn check_call_args_dirty(
    context: &mut Context,
    substitution_context: &SubstitutionContext,
    ps: &Vec<Param>,
    vals: &Vec<Expression>,
    ts: &Vec<Expression>,
    fuel: usize,
) -> (r: Option<Result<(), TypeCheckError>>)
    requires
        ts@.len() <= ps@.len(),
        !(check_args(old(context)@, substitution_context@, params_view(ps@), exprs_view(vals@), exprs_view(ts@), fuel as nat) matches Err(Halt::Stuck)),
    ensures
        match r {
            Some(Ok(())) => {
                &&& check_args(old(context)@, substitution_context@, params_view(ps@), exprs_view(vals@), exprs_view(ts@), fuel as nat)
                    == Ok::<Result<(), TypeCheckErrorView>, Halt>(Ok(()))
                &&& final(context)@ == old(context)@
            },
            Some(Err(x)) => check_args(old(context)@, substitution_context@, params_view(ps@), exprs_view(vals@), exprs_view(ts@), fuel as nat)
                == Ok::<Result<(), TypeCheckErrorView>, Halt>(Err(x@)),
            None => check_args(old(context)@, substitution_context@, params_view(ps@), exprs_view(vals@), exprs_view(ts@), fuel as nat)
                == Err::<Result<(), TypeCheckErrorView>, Halt>(Halt::OutOfFuel),
        },
    decreases ts, 0int,
{
    let ghost s0 = context@;
    let ghost sv = substitution_context@;
    let ghost pv = params_view(ps@);
    let ghost vv = exprs_view(vals@);
    let ghost tv = exprs_view(ts@);
    let mut i: usize = 0;
    assert(tv.take(0) =~= Seq::<Term>::empty());
    while i < ts.len()
        invariant
            i <= ts.len(),
            old(context)@ == s0,
            context@ == s0,
            sv == substitution_context@,
            pv == params_view(ps@),
            vv == exprs_view(vals@),
            tv == exprs_view(ts@),
            ts@.len() <= ps@.len(),
            !(check_args(s0, sv, pv, vv, tv, fuel as nat) matches Err(Halt::Stuck)),
            check_args(s0, sv, pv, vv, tv.take(i as int), fuel as nat) == Ok::<Result<(), TypeCheckErrorView>, Halt>(Ok(())),
        decreases ts.len() - i,
    {
        assert(tv.take(i + 1).drop_last() =~= tv.take(i as int));
        assert(tv.take(i + 1).last() == tv[i as int]);
        assert(tv[i as int] == ts@[i as int]@);
        proof {
            lemma_check_args_step(s0, sv, pv, vv, tv, fuel as nat, i as int);
            if check_args(s0, sv, pv, vv, tv.take(i + 1), fuel as nat) != Ok::<Result<(), TypeCheckErrorView>, Halt>(Ok(())) {
                lemma_check_args_prefix(s0, sv, pv, vv, tv, fuel as nat, i + 1);
            }
        }
        match check_call_arg_dirty(context, substitution_context, ps, vals, &ts[i], i, fuel) {
            None => {
                proof { lemma_check_args_prefix(s0, sv, pv, vv, tv, fuel as nat, i + 1); }
                return None;
            },
            Some(Err(x)) => {
                proof { lemma_check_args_prefix(s0, sv, pv, vv, tv, fuel as nat, i + 1); }
                return Some(Err(x));
            },
            Some(Ok(())) => {},
        }
        i += 1;
    }
    assert(tv.take(ts.len() as int) =~= tv);
    Some(Ok(()))
}

fn get_type_of_call_dirty(
    context: &mut Context,
    substitution_context: &SubstitutionContext,
    e: &Expression,
    c: &Call,
    fuel: usize,
) -> (r: Option<Result<NormalFormId, TypeCheckError>>)
    requires
        e@ == (Term::Call { callee: Box::new(c.callee@), args: c.args@ }),
        !(type_of(old(context)@, substitution_context@, e@, fuel as nat) matches Err(Halt::Stuck)),
    ensures
        checked(r, type_of(old(context)@, substitution_context@, e@, fuel as nat)),
        r matches Some(Ok(_)) ==> final(context)@ == old(context)@,
    decreases c, 0int,
{
    let ct = match get_type_of_expression_dirty(context, substitution_context, &c.callee, fuel) {
        None => return None,
        Some(Err(x)) => return Some(Err(x)),
        Some(Ok(t)) => t.raw(),
    };
    match ct {
        Expression::Forall(fa) => match &c.args {
            CallArgList::UniquelyLabeled(_) => {
                if params_all_labeled(&fa.params) {
                    vstd::pervasive::unreached()
                } else {
                    Some(Err(TypeCheckError::CallLabelednessMismatch { call_id: copy_expression(e) }))
                }
            },
            CallArgList::Unlabeled(ts) => {
                if !params_none_labeled(&fa.params) {
                    return Some(Err(TypeCheckError::CallLabelednessMismatch { call_id: copy_expression(e) }));
                }
                let n = fa.params.len();
                if n != ts.len() {
                    return Some(Err(TypeCheckError::WrongNumberOfArguments { call_id: copy_expression(e), expected: n, actual: ts.len() }));
                }
                let vals = match eval_exprs(context, ts, fuel) {
                    None => return None,
                    Some(v) => v,
                };
                match check_call_args_dirty(context, substitution_context, &fa.params, &vals, ts, fuel) {
                    None => { return None; },
                    Some(Err(x)) => { return Some(Err(x)); },
                    Some(Ok(())) => {},
                }
                match instantiate_exec(context, &fa.params, &vals, &fa.output, n, fuel) {
                    None => None,
                    Some(o) => Some(Ok(o)),
                }
            },
        },
        _ => Some(Err(TypeCheckError::IllegalCallee(copy_expression(&c.callee)))),
    }
}

// ---------------------------------------------------------------------
// Laws
// ---------------------------------------------------------------------

/// With no equations learned, a type is assignable to an ADT type with at
/// least one variant exactly when the two are equal: such a type is not
/// assignable to any other type.
pub proof fn lemma_inhabited_adt_is_assignable_only_to_itself(
    ctx: Seq<(Term, DefinitionView)>,
    sctx: Seq<(nat, Seq<(Term, Term)>)>,
    l: Term,
    r: Term,
    fuel: nat,
)
    requires
        sctx.len() == 0,
        head_lookup_ok(ctx, l),
        as_adt(ctx, l) matches Some(a) && a.1.len() > 0,
    ensures
        assignable(ctx, sctx, l, r, fuel) == Ok::<bool, Halt>(l == r),
{
    let ts = seq![l, r];
    assert(as_unapplied(seq![]) =~= Seq::<Tagged>::empty());
    assert(!exists|i: int| is_first_unapplied(Seq::<Tagged>::empty(), i));
    assert(apply_context_equations(ctx, sctx, ts, fuel) == Ok::<Option<Seq<Term>>, Halt>(Some(ts)));
}

/// With no equations learned, every type is assignable to itself.
pub proof fn lemma_a_type_is_assignable_to_itself(ctx: Seq<(Term, DefinitionView)>, sctx: Seq<(nat, Seq<(Term, Term)>)>, t: Term, fuel: nat)
    requires
        sctx.len() == 0,
    ensures
        assignable(ctx, sctx, t, t, fuel) == Ok::<bool, Halt>(true),
{
    let ts = seq![t, t];
    assert(as_unapplied(seq![]) =~= Seq::<Tagged>::empty());
    assert(!exists|i: int| is_first_unapplied(Seq::<Tagged>::empty(), i));
    assert(apply_context_equations(ctx, sctx, ts, fuel) == Ok::<Option<Seq<Term>>, Halt>(Some(ts)));
}

/// With no equations learned, an argument whose type is an ADT with at
/// least one variant, other than its parameter's type, is a type mismatch.
pub proof fn lemma_argument_of_another_inhabited_adt_type_is_a_mismatch(
    ctx: Seq<(Term, DefinitionView)>,
    sctx: Seq<(nat, Seq<(Term, Term)>)>,
    ps: Seq<ParamTerm>,
    vals: Seq<Term>,
    t: Term,
    i: nat,
    fuel: nat,
    expected: Term,
    actual: Term,
)
    requires
        sctx.len() == 0,
        instantiate(ctx, ps, vals, ps[i as int].type_, i, fuel) == Ok::<Term, Halt>(expected),
        type_of(ctx, sctx, t, fuel) == Ok::<Result<Term, TypeCheckErrorView>, Halt>(Ok(actual)),
        actual != expected,
        head_lookup_ok(ctx, actual),
        as_adt(ctx, actual) matches Some(a) && a.1.len() > 0,
    ensures
        arg_check(ctx, sctx, ps, vals, t, i, fuel) == Ok::<Result<(), TypeCheckErrorView>, Halt>(
            Err(TypeCheckErrorView::TypeMismatch { expression: t, expected_type: expected, actual_type: actual }),
        ),
{
    reveal(arg_check);
    lemma_inhabited_adt_is_assignable_only_to_itself(ctx, sctx, actual, expected, fuel);
}

}
