//! Evaluating well-typed expressions to normal form.
//!
//! Evaluation applies a function to its arguments (unless its decreasing
//! parameter's argument is not yet a variant, which keeps a recursive
//! function from unfolding forever), picks the case of a match on a
//! variant, replaces an alias by its value, and normalises the parameter
//! types and return types of functions and foralls. Evaluation of a
//! well-typed term terminates, but only because well-typed terms normalise;
//! so the evaluator here takes a fuel: each unfolding of a function body or
//! a case output spends one unit, and it gives up when none is left.

use vstd::prelude::*;
use crate::ast::{
    DbIndex, Term, ArgList, LabeledArg, ParamTerm, CaseTerm, IdName, Identifier, Expression,
    NameExpression, Call, CallArgList, LabeledCallArg, Param, Fun, Match, MatchCase, Forall, Check,
    exprs_view, labeled_args_view, params_view, cases_view, copy_identifier, copy_optional_identifier,
};
use crate::context::{Context, ContextEntry, ContextEntryDefinition, DefinitionView};
use crate::equality::{copy_expression, copy_cases, identifiers_equal};
use crate::fun_recursion::{arg_count, arg_term, is_first_dashed, name_of_label};
use crate::misc::NormalFormId;
use crate::normal_form::{lookup_ok, head_lookup_ok, definition_at, as_variant, try_as_variant_expression, is_variant_expression, PossibleArgListId};
use crate::shift::{UpshiftFn, DownshiftFn, DbIndexTooSmallForDownshiftError, shift_term, term_fits};
use crate::shift_trait::{ShiftDbIndices, upshift_term};
use crate::substitute::{Substitution, substitutions_view, subst_all_term, subst_all_fits, subst_all};

verus! {

// ---------------------------------------------------------------------
// The model
// ---------------------------------------------------------------------

/// What evaluating a term gives: its normal form; or nothing, because the
/// fuel ran out; or nothing, because the term is not one that evaluation
/// can handle (a step that a well-typed term never reaches, or one whose
/// De Bruijn indices would leave the machine integers).
pub enum Evaluation {
    Value(Term),
    OutOfFuel,
    Stuck,
}

/// The one-component name `id` with index `index`.
pub open spec fn name_term(id: IdName, index: nat) -> Term {
    Term::Name { components: seq![id], index }
}

/// The context with an entry of unknown value for each parameter.
pub open spec fn push_params(ctx: Seq<(Term, DefinitionView)>, ps: Seq<ParamTerm>) -> Seq<(Term, DefinitionView)> {
    ctx + Seq::new(ps.len(), |i: int| (ps[i].type_, DefinitionView::Uninterpreted))
}

pub open spec fn none_labeled(ps: Seq<ParamTerm>) -> bool {
    forall|i: int| 0 <= i < ps.len() ==> (#[trigger] ps[i]).label is None
}

pub open spec fn all_labeled(ps: Seq<ParamTerm>) -> bool {
    &&& ps.len() > 0
    &&& forall|i: int| 0 <= i < ps.len() ==> (#[trigger] ps[i]).label is Some
}

pub open spec fn arg_label(a: LabeledArg) -> IdName {
    match a {
        LabeledArg::Implicit { label, .. } => label,
        LabeledArg::Explicit { label, .. } => label,
    }
}

/// The position of the first dashed parameter, if any.
pub open spec fn first_dashed(ps: Seq<ParamTerm>) -> Option<int> {
    if exists|p: int| is_first_dashed(ps, p) {
        Some(choose|p: int| is_first_dashed(ps, p))
    } else {
        None
    }
}

pub open spec fn is_first_arg_labeled(ls: Seq<LabeledArg>, l: IdName, j: int) -> bool {
    &&& 0 <= j < ls.len()
    &&& arg_label(ls[j]) == l
    &&& forall|k: int| 0 <= k < j ==> arg_label(#[trigger] ls[k]) != l
}

/// The position of the first argument with label `l`, if any.
pub open spec fn first_arg_labeled(ls: Seq<LabeledArg>, l: IdName) -> Option<int> {
    if exists|j: int| is_first_arg_labeled(ls, l, j) {
        Some(choose|j: int| is_first_arg_labeled(ls, l, j))
    } else {
        None
    }
}

pub open spec fn is_first_param_labeled(ps: Seq<ParamTerm>, l: IdName, k: int) -> bool {
    &&& 0 <= k < ps.len()
    &&& ps[k].label == Some(l)
    &&& forall|m: int| 0 <= m < k ==> (#[trigger] ps[m]).label != Some(l)
}

/// The position of the first parameter with label `l`, if any.
pub open spec fn first_param_labeled(ps: Seq<ParamTerm>, l: IdName) -> Option<int> {
    if exists|k: int| is_first_param_labeled(ps, l, k) {
        Some(choose|k: int| is_first_param_labeled(ps, l, k))
    } else {
        None
    }
}

pub open spec fn is_first_case_named(cs: Seq<CaseTerm>, n: IdName, k: int) -> bool {
    &&& 0 <= k < cs.len()
    &&& cs[k].variant_name == n
    &&& forall|m: int| 0 <= m < k ==> (#[trigger] cs[m]).variant_name != n
}

/// The position of the first case for the variant `n`, if any.
pub open spec fn first_case_named(cs: Seq<CaseTerm>, n: IdName) -> Option<int> {
    if exists|k: int| is_first_case_named(cs, n, k) {
        Some(choose|k: int| is_first_case_named(cs, n, k))
    } else {
        None
    }
}

/// Whether a function with parameters `ps` may be applied to the normal
/// forms `a`: it may if it has no decreasing parameter, or if the argument
/// for its decreasing parameter is a variant. `None` where the argument
/// cannot be found or its head cannot be looked up.
pub open spec fn can_apply(ctx: Seq<(Term, DefinitionView)>, ps: Seq<ParamTerm>, a: ArgList) -> Option<bool> {
    match first_dashed(ps) {
        None => Some(true),
        Some(p) => {
            let position = match a {
                ArgList::Unlabeled(ts) => if p < ts.len() { Some(p) } else { None },
                ArgList::Labeled(ls) => first_arg_labeled(ls, ps[p].label->Some_0),
            };
            match position {
                None => None,
                Some(j) => if head_lookup_ok(ctx, arg_term(a, j)) {
                    Some(as_variant(ctx, arg_term(a, j)) is Some)
                } else {
                    None
                },
            }
        },
    }
}

/// The parameter that the `j`-th argument goes to: the `j`-th for
/// unlabeled arguments, the first with the argument's label otherwise.
pub open spec fn param_of_arg(ps: Seq<ParamTerm>, a: ArgList, j: int) -> Option<int> {
    match a {
        ArgList::Unlabeled(_) => Some(j),
        ArgList::Labeled(ls) => first_param_labeled(ps, arg_label(ls[j])),
    }
}

/// How many arguments are paired with parameters.
pub open spec fn paired_count(ps: Seq<ParamTerm>, a: ArgList) -> nat {
    match a {
        ArgList::Unlabeled(ts) => if ps.len() <= ts.len() { ps.len() } else { ts.len() },
        ArgList::Labeled(ls) => ls.len(),
    }
}

/// Applying the function `f` (named `name`, with parameters `ps`) to `a`:
/// inside the body, the function itself is index 0 and the `k`-th
/// parameter is index `n - k`; they are replaced by the function and the
/// arguments, shifted past those `n + 1` binders.
pub open spec fn fun_substitutions(f: Term, name: IdName, ps: Seq<ParamTerm>, a: ArgList) -> Option<Seq<(Term, Term)>> {
    let n = ps.len();
    if forall|j: int| 0 <= j < paired_count(ps, a) ==> (#[trigger] param_of_arg(ps, a, j)) is Some {
        Some(
            seq![(name_term(name, 0), upshift_term(f, (n + 1) as usize, 0))] + Seq::new(
                paired_count(ps, a),
                |j: int|
                    (
                        name_term(ps[param_of_arg(ps, a, j)->Some_0].name, (n - param_of_arg(ps, a, j)->Some_0) as nat),
                        upshift_term(arg_term(a, j), (n + 1) as usize, 0),
                    ),
            ),
        )
    } else {
        None
    }
}

/// The substitutions applied to `body` and the result shifted down past
/// `amount` binders, where every step stays within machine integers and
/// the downshift succeeds.
pub open spec fn substituted(body: Term, subs: Seq<(Term, Term)>, amount: nat) -> Option<Term> {
    if amount <= usize::MAX && subst_all_fits(body, subs) && term_fits(
        subst_all_term(body, subs),
        DownshiftFn(amount as usize),
        0,
    ) && shift_term(subst_all_term(body, subs), DownshiftFn(amount as usize), 0) is Ok {
        Some(shift_term(subst_all_term(body, subs), DownshiftFn(amount as usize), 0)->Ok_0)
    } else {
        None
    }
}

/// The step after evaluating a call's callee to `c` and its arguments to
/// `a`: `None` where it is stuck, `Some(None)` where the call is already a
/// normal form, and `Some(Some(b))` where `b` is evaluated next.
pub open spec fn call_step(ctx: Seq<(Term, DefinitionView)>, c: Term, a: ArgList) -> Option<Option<Term>> {
    match c {
        Term::Fun { name, params, body, .. } => {
            let n = params.len();
            let labeledness_ok = match a {
                ArgList::Unlabeled(_) => none_labeled(params),
                ArgList::Labeled(_) => all_labeled(params),
            };
            if !labeledness_ok {
                None
            } else {
                match can_apply(ctx, params, a) {
                    None => None,
                    Some(false) => Some(None),
                    Some(true) => {
                        if n + 1 <= usize::MAX && term_fits(c, UpshiftFn((n + 1) as usize), 0) && (forall|j: int|
                            0 <= j < arg_count(a) ==> term_fits(
                                #[trigger] arg_term(a, j),
                                UpshiftFn((n + 1) as usize),
                                0,
                            )) {
                            match fun_substitutions(c, name, params, a) {
                                None => None,
                                Some(subs) => match substituted(*body, subs, n + 1) {
                                    None => None,
                                    Some(b) => Some(Some(b)),
                                },
                            }
                        } else {
                            None
                        }
                    },
                }
            }
        },
        Term::Name { .. } => Some(None),
        Term::Call { .. } => Some(None),
        Term::Match { .. } => Some(None),
        _ => None,
    }
}

/// The output of a case whose `n` parameters take the arguments `ts`: the
/// `k`-th parameter, index `n - k - 1`, is replaced by the `k`-th argument
/// shifted past the `n` parameters.
pub open spec fn case_substitutions(case: CaseTerm, ts: Seq<Term>) -> Seq<(Term, Term)> {
    let n = case.params.len();
    Seq::new(
        if n <= ts.len() { n } else { ts.len() },
        |k: int| (name_term(case.params[k], (n - k - 1) as nat), upshift_term(ts[k], n as usize, 0)),
    )
}

pub open spec fn case_args_fit(case: CaseTerm, ts: Seq<Term>) -> bool {
    let n = case.params.len();
    &&& n <= usize::MAX
    &&& forall|k: int| 0 <= k < n && k < ts.len() ==> term_fits(#[trigger] ts[k], UpshiftFn(n as usize), 0)
}

/// Evaluation of `t` in the context `ctx` with `fuel` unfoldings.
pub open spec fn eval(ctx: Seq<(Term, DefinitionView)>, t: Term, fuel: nat) -> Evaluation
    decreases fuel, t,
{
    match t {
        Term::Name { index, .. } => if lookup_ok(ctx, index) {
            match definition_at(ctx, index) {
                DefinitionView::Alias(v) => Evaluation::Value(v),
                _ => Evaluation::Value(t),
            }
        } else {
            Evaluation::Stuck
        },
        Term::Call { callee, args } => match eval(ctx, *callee, fuel) {
            Evaluation::Value(c) => match eval_args(ctx, args, fuel) {
                Ok(a) => match call_step(ctx, c, a) {
                    None => Evaluation::Stuck,
                    Some(None) => Evaluation::Value(Term::Call { callee: Box::new(c), args: a }),
                    Some(Some(b)) => if fuel == 0 {
                        Evaluation::OutOfFuel
                    } else {
                        eval(ctx, b, (fuel - 1) as nat)
                    },
                },
                Err(x) => x,
            },
            x => x,
        },
        Term::Fun { name, params, return_type, body, skip_type_checking_body } => match eval_params(ctx, params, fuel) {
            Ok(ps) => match eval(push_params(ctx, ps), *return_type, fuel) {
                Evaluation::Value(r) => Evaluation::Value(
                    Term::Fun { name, params: ps, return_type: Box::new(r), body, skip_type_checking_body },
                ),
                x => x,
            },
            Err(x) => x,
        },
        Term::Match { matchee, cases } => match eval(ctx, *matchee, fuel) {
            Evaluation::Value(m) => if !head_lookup_ok(ctx, m) {
                Evaluation::Stuck
            } else {
                match as_variant(ctx, m) {
                    None => Evaluation::Value(Term::Match { matchee: Box::new(m), cases }),
                    Some((vname, vargs)) => match first_case_named(cases, vname) {
                        None => Evaluation::Stuck,
                        Some(k) => if 0 <= k < cases.len() {
                            eval_case(ctx, cases[k], vargs, fuel)
                        } else {
                            Evaluation::Stuck
                        },
                    },
                }
            },
            x => x,
        },
        Term::Forall { params, output } => match eval_params(ctx, params, fuel) {
            Ok(ps) => match eval(push_params(ctx, ps), *output, fuel) {
                Evaluation::Value(o) => Evaluation::Value(Term::Forall { params: ps, output: Box::new(o) }),
                x => x,
            },
            Err(x) => x,
        },
        Term::Check { output, .. } => eval(ctx, *output, fuel),
    }
}

/// Evaluating the case `case` of a match on a variant with arguments
/// `vargs`: a nullary variant's case output is evaluated as it is; the
/// output of a case of a variant with unlabeled arguments is evaluated
/// with its parameters replaced by the arguments.
pub open spec fn eval_case(ctx: Seq<(Term, DefinitionView)>, case: CaseTerm, vargs: Option<ArgList>, fuel: nat) -> Evaluation
    decreases fuel, case,
{
    match vargs {
        None => if case.params.len() == 0 {
            eval(ctx, case.output, fuel)
        } else {
            Evaluation::Stuck
        },
        Some(ArgList::Unlabeled(ts)) => if case.params.len() > 0 && case_args_fit(case, ts) {
            match substituted(case.output, case_substitutions(case, ts), case.params.len()) {
                None => Evaluation::Stuck,
                Some(b) => if fuel == 0 {
                    Evaluation::OutOfFuel
                } else {
                    eval(ctx, b, (fuel - 1) as nat)
                },
            }
        } else {
            Evaluation::Stuck
        },
        Some(ArgList::Labeled(_)) => Evaluation::Stuck,
    }
}

/// The arguments evaluated in order; the first that does not give a value
/// decides.
pub open spec fn eval_args(ctx: Seq<(Term, DefinitionView)>, a: ArgList, fuel: nat) -> Result<ArgList, Evaluation>
    decreases fuel, a,
{
    match a {
        ArgList::Unlabeled(ts) => match eval_terms(ctx, ts, fuel) {
            Ok(vs) => Ok(ArgList::Unlabeled(vs)),
            Err(x) => Err(x),
        },
        ArgList::Labeled(ls) => match eval_labeled_args(ctx, ls, fuel) {
            Ok(vs) => Ok(ArgList::Labeled(vs)),
            Err(x) => Err(x),
        },
    }
}

pub open spec fn eval_terms(ctx: Seq<(Term, DefinitionView)>, ts: Seq<Term>, fuel: nat) -> Result<Seq<Term>, Evaluation>
    decreases fuel, ts,
{
    if ts.len() == 0 {
        Ok(seq![])
    } else {
        match eval_terms(ctx, ts.drop_last(), fuel) {
            Err(x) => Err(x),
            Ok(prefix) => match eval(ctx, ts.last(), fuel) {
                Evaluation::Value(v) => Ok(prefix.push(v)),
                x => Err(x),
            },
        }
    }
}

/// An implicit argument `:x` whose variable is an alias becomes explicit,
/// with the alias's value.
pub open spec fn eval_labeled_arg(ctx: Seq<(Term, DefinitionView)>, a: LabeledArg, fuel: nat) -> Result<LabeledArg, Evaluation>
    decreases fuel, a,
{
    match a {
        LabeledArg::Implicit { label, index } => if lookup_ok(ctx, index) {
            match definition_at(ctx, index) {
                DefinitionView::Alias(v) => Ok(LabeledArg::Explicit { label, value: v }),
                _ => Ok(a),
            }
        } else {
            Err(Evaluation::Stuck)
        },
        LabeledArg::Explicit { label, value } => match eval(ctx, value, fuel) {
            Evaluation::Value(v) => Ok(LabeledArg::Explicit { label, value: v }),
            x => Err(x),
        },
    }
}

pub open spec fn eval_labeled_args(ctx: Seq<(Term, DefinitionView)>, ls: Seq<LabeledArg>, fuel: nat) -> Result<Seq<LabeledArg>, Evaluation>
    decreases fuel, ls,
{
    if ls.len() == 0 {
        Ok(seq![])
    } else {
        match eval_labeled_args(ctx, ls.drop_last(), fuel) {
            Err(x) => Err(x),
            Ok(prefix) => match eval_labeled_arg(ctx, ls.last(), fuel) {
                Ok(v) => Ok(prefix.push(v)),
                Err(x) => Err(x),
            },
        }
    }
}

/// Each parameter type evaluated with the parameters before it in the
/// context, their types evaluated.
pub open spec fn eval_params(ctx: Seq<(Term, DefinitionView)>, ps: Seq<ParamTerm>, fuel: nat) -> Result<Seq<ParamTerm>, Evaluation>
    decreases fuel, ps,
{
    if ps.len() == 0 {
        Ok(seq![])
    } else {
        match eval_params(ctx, ps.drop_last(), fuel) {
            Err(x) => Err(x),
            Ok(prefix) => match eval(push_params(ctx, prefix), ps.last().type_, fuel) {
                Evaluation::Value(v) => Ok(prefix.push(ParamTerm { type_: v, ..ps.last() })),
                x => Err(x),
            },
        }
    }
}


// ---------------------------------------------------------------------
// Evaluation
// ---------------------------------------------------------------------

/// `r` is what the evaluation `x` gives: its value, or nothing where the
/// fuel ran out.
pub open spec fn evaluated(r: Option<Expression>, x: Evaluation) -> bool {
    match r {
        Some(v) => x == Evaluation::Value(v@),
        None => x is OutOfFuel,
    }
}

/// Evaluates `e` to its normal form with `fuel` unfoldings, and leaves the
/// context as it was. `None` means the fuel ran out.
pub fn evaluate_well_typed_expression(context: &mut Context, e: &Expression, fuel: usize) -> (r: Option<NormalFormId>)
    requires
        !(eval(old(context)@, e@, fuel as nat) is Stuck),
    ensures
        final(context)@ == old(context)@,
        match r {
            Some(v) => eval(old(context)@, e@, fuel as nat) == Evaluation::Value(v@),
            None => eval(old(context)@, e@, fuel as nat) is OutOfFuel,
        },
{
    match eval_exp(context, e, fuel) {
        Some(v) => Some(NormalFormId::unchecked_new(v)),
        None => None,
    }
}

pub(crate) fn name_of(id: &Identifier, index: usize) -> (r: Expression)
    ensures
        r@ == name_term(id@, index as nat),
{
    Expression::Name(name_of_label(id, DbIndex(index)))
}

fn eval_exp(context: &mut Context, e: &Expression, fuel: usize) -> (r: Option<Expression>)
    requires
        !(eval(old(context)@, e@, fuel as nat) is Stuck),
    ensures
        final(context)@ == old(context)@,
        evaluated(r, eval(old(context)@, e@, fuel as nat)),
    decreases fuel, e,
{
    match e {
        Expression::Name(n) => {
            let d = context.get_definition(n.db_index);
            match d {
                ContextEntryDefinition::Alias { value_id } => Some(value_id.raw()),
                _ => Some(copy_expression(e)),
            }
        },
        Expression::Call(c) => eval_call(context, c, fuel),
        Expression::Fun(f) => eval_fun(context, f, fuel),
        Expression::Match(m) => eval_match(context, m, fuel),
        Expression::Forall(f) => {
            let ghost s0 = context@;
            let n = f.params.len();
            match eval_params_exec(context, &f.params, fuel) {
                None => None,
                Some(ps) => {
                    assert(params_view(ps@).len() == n);
                    let o = eval_exp(context, &f.output, fuel);
                    assert(context@.len() == s0.len() + n);
                    context.pop_n(n);
                    assert(context@ =~= s0);
                    match o {
                        None => None,
                        Some(o) => Some(Expression::Forall(Box::new(Forall { params: ps, output: o }))),
                    }
                },
            }
        },
        Expression::Check(c) => eval_exp(context, &c.output, fuel),
    }
}

fn eval_fun(context: &mut Context, f: &Fun, fuel: usize) -> (r: Option<Expression>)
    requires
        !(eval(old(context)@, Expression::Fun(Box::new(*f))@, fuel as nat) is Stuck),
    ensures
        final(context)@ == old(context)@,
        evaluated(r, eval(old(context)@, Expression::Fun(Box::new(*f))@, fuel as nat)),
    decreases fuel, f,
{
    let ghost s0 = context@;
    let n = f.params.len();
    match eval_params_exec(context, &f.params, fuel) {
        None => None,
        Some(ps) => {
            assert(params_view(ps@).len() == n);
            let rt = eval_exp(context, &f.return_type, fuel);
            assert(context@.len() == s0.len() + n);
            context.pop_n(n);
            assert(context@ =~= s0);
            match rt {
                None => None,
                Some(rt) => Some(Expression::Fun(Box::new(Fun {
                    name: copy_identifier(&f.name),
                    params: ps,
                    return_type: rt,
                    body: copy_expression(&f.body),
                    skip_type_checking_body: f.skip_type_checking_body,
                }))),
            }
        },
    }
}

/// Evaluates the parameter types in turn, pushing each parameter with its
/// evaluated type; on success the parameters are left on the context, and
/// where the fuel runs out the context is as before.
fn eval_params_exec(context: &mut Context, v: &Vec<Param>, fuel: usize) -> (r: Option<Vec<Param>>)
    requires
        !(eval_params(old(context)@, params_view(v@), fuel as nat) matches Err(Evaluation::Stuck)),
    ensures
        match r {
            Some(ps) => {
                &&& ps@.len() == v@.len()
                &&& eval_params(old(context)@, params_view(v@), fuel as nat) == Ok::<Seq<ParamTerm>, Evaluation>(params_view(ps@))
                &&& final(context)@ == push_params(old(context)@, params_view(ps@))
            },
            None => {
                &&& eval_params(old(context)@, params_view(v@), fuel as nat) == Err::<Seq<ParamTerm>, Evaluation>(Evaluation::OutOfFuel)
                &&& final(context)@ == old(context)@
            },
        },
    decreases fuel, v,
{
    let ghost s0 = context@;
    let ghost vv = params_view(v@);
    let mut out: Vec<Param> = Vec::new();
    let mut i: usize = 0;
    assert(vv.take(0) =~= Seq::<ParamTerm>::empty());
    assert(params_view(out@) =~= Seq::<ParamTerm>::empty());
    assert(push_params(s0, params_view(out@)) =~= s0);
    while i < v.len()
        invariant
            i <= v.len(),
            old(context)@ == s0,
            vv == params_view(v@),
            !(eval_params(s0, vv, fuel as nat) matches Err(Evaluation::Stuck)),
            eval_params(s0, vv.take(i as int), fuel as nat) == Ok::<Seq<ParamTerm>, Evaluation>(params_view(out@)),
            context@ == push_params(s0, params_view(out@)),
            out@.len() == i,
        decreases v.len() - i,
    {
        assert(vv.take(i + 1).drop_last() =~= vv.take(i as int));
        assert(vv.take(i + 1).last() == vv[i as int]);
        assert(vv[i as int] == v@[i as int]@);
        assert(vv[i as int].type_ == v@[i as int].type_@);
        proof {
            if eval(push_params(s0, params_view(out@)), vv[i as int].type_, fuel as nat) is Stuck {
                lemma_params_err_prefix(s0, vv, fuel as nat, i + 1);
            }
        }
        let p = &v[i];
        match eval_exp(context, &p.type_, fuel) {
            None => {
                assert(eval_params(s0, vv.take(i + 1), fuel as nat) == Err::<Seq<ParamTerm>, Evaluation>(Evaluation::OutOfFuel));
                proof { lemma_params_err_prefix(s0, vv, fuel as nat, i + 1); }
                let k = out.len();
                assert(context@.len() == s0.len() + k);
                context.pop_n(k);
                assert(context@ =~= s0);
                return None;
            },
            Some(t) => {
                let ghost before = out@;
                let ghost tv = t@;
                context.push(ContextEntry { type_id: NormalFormId::unchecked_new(copy_expression(&t)), definition: ContextEntryDefinition::Uninterpreted });
                out.push(Param {
                    label: copy_optional_identifier(&p.label),
                    is_dashed: p.is_dashed,
                    name: copy_identifier(&p.name),
                    type_: t,
                });
                assert(params_view(out@) =~= params_view(before).push(ParamTerm { type_: tv, ..vv[i as int] }));
                assert(context@ =~= push_params(s0, params_view(out@)));
                assert(eval_params(s0, vv.take(i + 1), fuel as nat) == Ok::<Seq<ParamTerm>, Evaluation>(params_view(out@)));
            },
        }
        i += 1;
    }
    assert(vv.take(v.len() as int) =~= vv);
    Some(out)
}

/// An error in a prefix of the parameters is the error of all of them.
proof fn lemma_params_err_prefix(ctx: Seq<(Term, DefinitionView)>, ps: Seq<ParamTerm>, fuel: nat, k: int)
    requires
        0 <= k <= ps.len(),
        eval_params(ctx, ps.take(k), fuel) is Err,
    ensures
        eval_params(ctx, ps, fuel) == eval_params(ctx, ps.take(k), fuel),
    decreases ps.len() - k,
{
    if k < ps.len() {
        assert(ps.take(k + 1).drop_last() =~= ps.take(k));
        lemma_params_err_prefix(ctx, ps, fuel, k + 1);
    } else {
        assert(ps.take(k) =~= ps);
    }
}


fn eval_call(context: &mut Context, call: &Call, fuel: usize) -> (r: Option<Expression>)
    requires
        !(eval(old(context)@, Expression::Call(Box::new(*call))@, fuel as nat) is Stuck),
    ensures
        final(context)@ == old(context)@,
        evaluated(r, eval(old(context)@, Expression::Call(Box::new(*call))@, fuel as nat)),
    decreases fuel, call,
{
    let c = match eval_exp(context, &call.callee, fuel) {
        None => { return None; },
        Some(c) => c,
    };
    let a = match eval_call_args(context, &call.args, fuel) {
        None => { return None; },
        Some(a) => a,
    };
    match call_step_exec(context, &c, &a) {
        None => Some(Expression::Call(Box::new(Call { callee: c, args: a }))),
        Some(b) => if fuel == 0 {
            None
        } else {
            eval_exp(context, &b, fuel - 1)
        },
    }
}

fn eval_call_args(context: &mut Context, a: &CallArgList, fuel: usize) -> (r: Option<CallArgList>)
    requires
        !(eval_args(old(context)@, a@, fuel as nat) matches Err(Evaluation::Stuck)),
    ensures
        final(context)@ == old(context)@,
        match r {
            Some(x) => eval_args(old(context)@, a@, fuel as nat) == Ok::<ArgList, Evaluation>(x@),
            None => eval_args(old(context)@, a@, fuel as nat) == Err::<ArgList, Evaluation>(Evaluation::OutOfFuel),
        },
    decreases fuel, a,
{
    match a {
        CallArgList::Unlabeled(v) => match eval_exprs(context, v, fuel) {
            None => None,
            Some(x) => Some(CallArgList::Unlabeled(x)),
        },
        CallArgList::UniquelyLabeled(v) => match eval_labeled_call_args(context, v, fuel) {
            None => None,
            Some(x) => Some(CallArgList::UniquelyLabeled(x)),
        },
    }
}

proof fn lemma_terms_err_prefix(ctx: Seq<(Term, DefinitionView)>, ts: Seq<Term>, fuel: nat, k: int)
    requires
        0 <= k <= ts.len(),
        eval_terms(ctx, ts.take(k), fuel) is Err,
    ensures
        eval_terms(ctx, ts, fuel) == eval_terms(ctx, ts.take(k), fuel),
    decreases ts.len() - k,
{
    if k < ts.len() {
        assert(ts.take(k + 1).drop_last() =~= ts.take(k));
        lemma_terms_err_prefix(ctx, ts, fuel, k + 1);
    } else {
        assert(ts.take(k) =~= ts);
    }
}

proof fn lemma_labeled_args_err_prefix(ctx: Seq<(Term, DefinitionView)>, ls: Seq<LabeledArg>, fuel: nat, k: int)
    requires
        0 <= k <= ls.len(),
        eval_labeled_args(ctx, ls.take(k), fuel) is Err,
    ensures
        eval_labeled_args(ctx, ls, fuel) == eval_labeled_args(ctx, ls.take(k), fuel),
    decreases ls.len() - k,
{
    if k < ls.len() {
        assert(ls.take(k + 1).drop_last() =~= ls.take(k));
        lemma_labeled_args_err_prefix(ctx, ls, fuel, k + 1);
    } else {
        assert(ls.take(k) =~= ls);
    }
}

#[verifier::spinoff_prover]
#[verifier::rlimit(60)]
pub(crate) fn eval_exprs(context: &mut Context, v: &Vec<Expression>, fuel: usize) -> (r: Option<Vec<Expression>>)
    requires
        !(eval_terms(old(context)@, exprs_view(v@), fuel as nat) matches Err(Evaluation::Stuck)),
    ensures
        final(context)@ == old(context)@,
        match r {
            Some(x) => eval_terms(old(context)@, exprs_view(v@), fuel as nat) == Ok::<Seq<Term>, Evaluation>(exprs_view(x@)),
            None => eval_terms(old(context)@, exprs_view(v@), fuel as nat) == Err::<Seq<Term>, Evaluation>(Evaluation::OutOfFuel),
        },
    decreases fuel, v,
{
    let ghost s0 = context@;
    let ghost vv = exprs_view(v@);
    let mut out: Vec<Expression> = Vec::new();
    let mut i: usize = 0;
    assert(vv.take(0) =~= Seq::<Term>::empty());
    assert(exprs_view(out@) =~= Seq::<Term>::empty());
    while i < v.len()
        invariant
            i <= v.len(),
            context@ == s0,
            old(context)@ == s0,
            vv == exprs_view(v@),
            !(eval_terms(s0, vv, fuel as nat) matches Err(Evaluation::Stuck)),
            eval_terms(s0, vv.take(i as int), fuel as nat) == Ok::<Seq<Term>, Evaluation>(exprs_view(out@)),
            out@.len() == i,
        decreases v.len() - i,
    {
        assert(vv.take(i + 1).drop_last() =~= vv.take(i as int));
        assert(vv.take(i + 1).last() == vv[i as int]);
        assert(vv[i as int] == v@[i as int]@);
        proof {
            if eval(s0, vv[i as int], fuel as nat) is Stuck {
                lemma_terms_err_prefix(s0, vv, fuel as nat, i + 1);
            }
        }
        match eval_exp(context, &v[i], fuel) {
            None => {
                assert(eval_terms(s0, vv.take(i + 1), fuel as nat) == Err::<Seq<Term>, Evaluation>(Evaluation::OutOfFuel));
                proof { lemma_terms_err_prefix(s0, vv, fuel as nat, i + 1); }
                return None;
            },
            Some(x) => {
                let ghost before = out@;
                out.push(x);
                assert(exprs_view(out@) =~= exprs_view(before).push(x@));
                assert(eval_terms(s0, vv.take(i + 1), fuel as nat) == Ok::<Seq<Term>, Evaluation>(exprs_view(out@)));
            },
        }
        i += 1;
    }
    assert(vv.take(v.len() as int) =~= vv);
    Some(out)
}

fn eval_labeled_call_arg(context: &mut Context, a: &LabeledCallArg, fuel: usize) -> (r: Option<LabeledCallArg>)
    requires
        !(eval_labeled_arg(old(context)@, a@, fuel as nat) matches Err(Evaluation::Stuck)),
    ensures
        final(context)@ == old(context)@,
        match r {
            Some(x) => eval_labeled_arg(old(context)@, a@, fuel as nat) == Ok::<LabeledArg, Evaluation>(x@),
            None => eval_labeled_arg(old(context)@, a@, fuel as nat) == Err::<LabeledArg, Evaluation>(Evaluation::OutOfFuel),
        },
    decreases fuel, a,
{
    match a {
        LabeledCallArg::Implicit { label, db_index } => {
            let d = context.get_definition(*db_index);
            match d {
                ContextEntryDefinition::Alias { value_id } => Some(LabeledCallArg::Explicit { label: copy_identifier(label), value: value_id.raw() }),
                _ => Some(LabeledCallArg::Implicit { label: copy_identifier(label), db_index: *db_index }),
            }
        },
        LabeledCallArg::Explicit { label, value } => match eval_exp(context, value, fuel) {
            None => None,
            Some(v) => Some(LabeledCallArg::Explicit { label: copy_identifier(label), value: v }),
        },
    }
}

#[verifier::spinoff_prover]
#[verifier::rlimit(60)]
fn eval_labeled_call_args(context: &mut Context, v: &Vec<LabeledCallArg>, fuel: usize) -> (r: Option<Vec<LabeledCallArg>>)
    requires
        !(eval_labeled_args(old(context)@, labeled_args_view(v@), fuel as nat) matches Err(Evaluation::Stuck)),
    ensures
        final(context)@ == old(context)@,
        match r {
            Some(x) => eval_labeled_args(old(context)@, labeled_args_view(v@), fuel as nat) == Ok::<Seq<LabeledArg>, Evaluation>(labeled_args_view(x@)),
            None => eval_labeled_args(old(context)@, labeled_args_view(v@), fuel as nat) == Err::<Seq<LabeledArg>, Evaluation>(Evaluation::OutOfFuel),
        },
    decreases fuel, v,
{
    let ghost s0 = context@;
    let ghost vv = labeled_args_view(v@);
    let mut out: Vec<LabeledCallArg> = Vec::new();
    let mut i: usize = 0;
    assert(vv.take(0) =~= Seq::<LabeledArg>::empty());
    assert(labeled_args_view(out@) =~= Seq::<LabeledArg>::empty());
    while i < v.len()
        invariant
            i <= v.len(),
            context@ == s0,
            old(context)@ == s0,
            vv == labeled_args_view(v@),
            !(eval_labeled_args(s0, vv, fuel as nat) matches Err(Evaluation::Stuck)),
            eval_labeled_args(s0, vv.take(i as int), fuel as nat) == Ok::<Seq<LabeledArg>, Evaluation>(labeled_args_view(out@)),
            out@.len() == i,
        decreases v.len() - i,
    {
        assert(vv.take(i + 1).drop_last() =~= vv.take(i as int));
        assert(vv.take(i + 1).last() == vv[i as int]);
        assert(vv[i as int] == v@[i as int]@);
        proof {
            if eval_labeled_arg(s0, vv[i as int], fuel as nat) matches Err(Evaluation::Stuck) {
                lemma_labeled_args_err_prefix(s0, vv, fuel as nat, i + 1);
            }
        }
        match eval_labeled_call_arg(context, &v[i], fuel) {
            None => {
                assert(eval_labeled_args(s0, vv.take(i + 1), fuel as nat) == Err::<Seq<LabeledArg>, Evaluation>(Evaluation::OutOfFuel));
                proof { lemma_labeled_args_err_prefix(s0, vv, fuel as nat, i + 1); }
                return None;
            },
            Some(x) => {
                let ghost before = out@;
                out.push(x);
                assert(labeled_args_view(out@) =~= labeled_args_view(before).push(x@));
                assert(eval_labeled_args(s0, vv.take(i + 1), fuel as nat) == Ok::<Seq<LabeledArg>, Evaluation>(labeled_args_view(out@)));
            },
        }
        i += 1;
    }
    assert(vv.take(v.len() as int) =~= vv);
    Some(out)
}

fn eval_match(context: &mut Context, m: &Match, fuel: usize) -> (r: Option<Expression>)
    requires
        !(eval(old(context)@, Expression::Match(Box::new(*m))@, fuel as nat) is Stuck),
    ensures
        final(context)@ == old(context)@,
        evaluated(r, eval(old(context)@, Expression::Match(Box::new(*m))@, fuel as nat)),
    decreases fuel, m,
{
    let ghost s0 = context@;
    let ghost cv = cases_view(m.cases@);
    let mv = match eval_exp(context, &m.matchee, fuel) {
        None => { return None; },
        Some(x) => x,
    };
    match try_as_variant_expression(context, &mv) {
        None => Some(Expression::Match(Box::new(Match { matchee: mv, cases: copy_cases(&m.cases) }))),
        Some((vname, vargs)) => {
            let k = first_case_named_exec(&m.cases, &vname);
            eval_case_at(context, &m.cases, k, &vargs, fuel)
        },
    }
}

/// The first case for the variant `n`, which a well-typed match has.
fn first_case_named_exec(v: &Vec<MatchCase>, n: &Identifier) -> (r: usize)
    requires
        first_case_named(cases_view(v@), n@) is Some,
    ensures
        first_case_named(cases_view(v@), n@) == Some(r as int),
        r < v@.len(),
{
    let ghost cv = cases_view(v@);
    let mut i: usize = 0;
    while i < v.len()
        invariant
            i <= v.len(),
            cv == cases_view(v@),
            first_case_named(cv, n@) is Some,
            forall|m: int| 0 <= m < i ==> (#[trigger] cv[m]).variant_name != n@,
        decreases v.len() - i,
    {
        assert(cv[i as int] == v@[i as int]@);
        if identifiers_equal(&v[i].variant_name, n) {
            proof {
                assert(is_first_case_named(cv, n@, i as int));
                let p = choose|p: int| is_first_case_named(cv, n@, p);
                assert(is_first_case_named(cv, n@, p));
                if p < i {
                    assert(cv[p].variant_name != n@);
                } else if p > i {
                    assert(cv[i as int].variant_name != n@);
                }
            }
            return i;
        }
        i += 1;
    }
    proof {
        let p = choose|p: int| is_first_case_named(cv, n@, p);
        assert(is_first_case_named(cv, n@, p));
        assert(cv[p].variant_name != n@);
    }
    0
}


fn eval_case_at(context: &mut Context, v: &Vec<MatchCase>, k: usize, vargs: &PossibleArgListId, fuel: usize) -> (r: Option<Expression>)
    requires
        k < v@.len(),
        !(eval_case(old(context)@, cases_view(v@)[k as int], vargs@, fuel as nat) is Stuck),
    ensures
        final(context)@ == old(context)@,
        evaluated(r, eval_case(old(context)@, cases_view(v@)[k as int], vargs@, fuel as nat)),
    decreases fuel, v,
{
    assert(cases_view(v@)[k as int] == v@[k as int]@);
    eval_case_exec(context, &v[k], vargs, fuel)
}

fn eval_case_exec(context: &mut Context, case: &MatchCase, vargs: &PossibleArgListId, fuel: usize) -> (r: Option<Expression>)
    requires
        !(eval_case(old(context)@, case@, vargs@, fuel as nat) is Stuck),
    ensures
        final(context)@ == old(context)@,
        evaluated(r, eval_case(old(context)@, case@, vargs@, fuel as nat)),
    decreases fuel, case,
{
    match vargs {
        PossibleArgListId::Nullary => eval_exp(context, &case.output, fuel),
        PossibleArgListId::WithArgs(CallArgList::Unlabeled(ts)) => {
            let ghost tv = exprs_view(ts@);
            let ghost spec_subs = case_substitutions(case@, tv);
            let n = case.params.len();
            assert(case@.params.len() == n);
            let count = if n <= ts.len() { n } else { ts.len() };
            let mut subs: Vec<Substitution> = Vec::new();
            let mut j: usize = 0;
            while j < count
                invariant
                    j <= count,
                    n == case@.params.len(),
                    count == spec_subs.len(),
                    count <= ts@.len(),
                    tv == exprs_view(ts@),
                    spec_subs == case_substitutions(case@, tv),
                    case_args_fit(case@, tv),
                    subs@.len() == j,
                    forall|m: int| 0 <= m < j ==> (#[trigger] subs@[m])@ == spec_subs[m],
                decreases count - j,
            {
                assert(tv[j as int] == ts@[j as int]@);
                assert(term_fits(tv[j as int], UpshiftFn(n), 0));
                assert(case@.params[j as int] == case.params@[j as int]@);
                let from = name_of(&case.params[j], n - j - 1);
                let to = ts[j].upshift(n);
                subs.push(Substitution { from, to });
                j += 1;
            }
            assert(substitutions_view(subs@) =~= spec_subs);
            let substituted_output = subst_all(&case.output, &subs);
            let b = substituted_output.downshift(n);
            if fuel == 0 {
                None
            } else {
                eval_exp(context, &b, fuel - 1)
            }
        },
        PossibleArgListId::WithArgs(CallArgList::UniquelyLabeled(_)) => {
            proof { assert(false); }
            None
        },
    }
}

/// The argument at position `j`; an implicit labeled argument `:x` is the
/// name `x`.
fn arg_value(a: &CallArgList, j: usize) -> (r: Expression)
    requires
        j < arg_count(a@),
    ensures
        r@ == arg_term(a@, j as int),
{
    match a {
        CallArgList::Unlabeled(v) => {
            assert(exprs_view(v@)[j as int] == v@[j as int]@);
            copy_expression(&v[j])
        },
        CallArgList::UniquelyLabeled(v) => {
            assert(labeled_args_view(v@)[j as int] == v@[j as int]@);
            match &v[j] {
                LabeledCallArg::Implicit { label, db_index } => Expression::Name(name_of_label(label, *db_index)),
                LabeledCallArg::Explicit { value, .. } => copy_expression(value),
            }
        },
    }
}

fn first_dashed_exec(v: &Vec<Param>) -> (r: Option<usize>)
    ensures
        match r {
            Some(p) => first_dashed(params_view(v@)) == Some(p as int) && p < v@.len(),
            None => first_dashed(params_view(v@)) is None,
        },
{
    let ghost pv = params_view(v@);
    let mut i: usize = 0;
    while i < v.len()
        invariant
            i <= v.len(),
            pv == params_view(v@),
            forall|m: int| 0 <= m < i ==> !(#[trigger] pv[m]).is_dashed,
        decreases v.len() - i,
    {
        assert(pv[i as int] == v@[i as int]@);
        if v[i].is_dashed {
            proof {
                assert(is_first_dashed(pv, i as int));
                let p = choose|p: int| is_first_dashed(pv, p);
                assert(is_first_dashed(pv, p));
                if p < i {
                    assert(!pv[p].is_dashed);
                } else if p > i {
                    assert(!pv[i as int].is_dashed);
                }
            }
            return Some(i);
        }
        i += 1;
    }
    proof {
        if exists|p: int| is_first_dashed(pv, p) {
            let p = choose|p: int| is_first_dashed(pv, p);
            assert(!pv[p].is_dashed);
        }
    }
    None
}

fn label_of(a: &LabeledCallArg) -> (r: &Identifier)
    ensures
        r@ == arg_label(a@),
{
    match a {
        LabeledCallArg::Implicit { label, .. } => label,
        LabeledCallArg::Explicit { label, .. } => label,
    }
}

/// The first argument with label `l`, which the caller knows exists.
fn first_arg_labeled_exec(v: &Vec<LabeledCallArg>, l: &Identifier) -> (r: usize)
    requires
        first_arg_labeled(labeled_args_view(v@), l@) is Some,
    ensures
        first_arg_labeled(labeled_args_view(v@), l@) == Some(r as int),
        r < v@.len(),
{
    let ghost lv = labeled_args_view(v@);
    let mut i: usize = 0;
    while i < v.len()
        invariant
            i <= v.len(),
            lv == labeled_args_view(v@),
            first_arg_labeled(lv, l@) is Some,
            forall|m: int| 0 <= m < i ==> arg_label(#[trigger] lv[m]) != l@,
        decreases v.len() - i,
    {
        assert(lv[i as int] == v@[i as int]@);
        if identifiers_equal(label_of(&v[i]), l) {
            proof {
                assert(is_first_arg_labeled(lv, l@, i as int));
                let p = choose|p: int| is_first_arg_labeled(lv, l@, p);
                assert(is_first_arg_labeled(lv, l@, p));
                if p < i {
                    assert(arg_label(lv[p]) != l@);
                } else if p > i {
                    assert(arg_label(lv[i as int]) != l@);
                }
            }
            return i;
        }
        i += 1;
    }
    proof {
        let p = choose|p: int| is_first_arg_labeled(lv, l@, p);
        assert(is_first_arg_labeled(lv, l@, p));
        assert(arg_label(lv[p]) != l@);
    }
    0
}

/// The first parameter with label `l`, which the caller knows exists.
fn first_param_labeled_exec(v: &Vec<Param>, l: &Identifier) -> (r: usize)
    requires
        first_param_labeled(params_view(v@), l@) is Some,
    ensures
        first_param_labeled(params_view(v@), l@) == Some(r as int),
        r < v@.len(),
{
    let ghost pv = params_view(v@);
    let mut i: usize = 0;
    while i < v.len()
        invariant
            i <= v.len(),
            pv == params_view(v@),
            first_param_labeled(pv, l@) is Some,
            forall|m: int| 0 <= m < i ==> (#[trigger] pv[m]).label != Some(l@),
        decreases v.len() - i,
    {
        assert(pv[i as int] == v@[i as int]@);
        let matches = match &v[i].label {
            Some(pl) => identifiers_equal(pl, l),
            None => false,
        };
        if matches {
            proof {
                assert(is_first_param_labeled(pv, l@, i as int));
                let p = choose|p: int| is_first_param_labeled(pv, l@, p);
                assert(is_first_param_labeled(pv, l@, p));
                if p < i {
                    assert(pv[p].label != Some(l@));
                } else if p > i {
                    assert(pv[i as int].label != Some(l@));
                }
            }
            return i;
        }
        i += 1;
    }
    proof {
        let p = choose|p: int| is_first_param_labeled(pv, l@, p);
        assert(is_first_param_labeled(pv, l@, p));
        assert(pv[p].label != Some(l@));
    }
    0
}

/// What follows the evaluation of a call's callee to `c` and arguments to
/// `a`: `None` where the call is a normal form, else the term to evaluate.
fn call_step_exec(context: &Context, c: &Expression, a: &CallArgList) -> (r: Option<Expression>)
    requires
        call_step(context@, c@, a@) is Some,
    ensures
        match r {
            None => call_step(context@, c@, a@) == Some(None::<Term>),
            Some(b) => call_step(context@, c@, a@) == Some(Some(b@)),
        },
{
    match c {
        Expression::Fun(f) => {
            let ghost pv = params_view(f.params@);
            let ghost av = a@;
            let n = f.params.len();
            assert(pv.len() == n);
            let applies = match first_dashed_exec(&f.params) {
                None => true,
                Some(p) => {
                    let j = match a {
                        CallArgList::Unlabeled(_) => p,
                        CallArgList::UniquelyLabeled(ls) => {
                            assert(pv[p as int] == f.params@[p as int]@);
                            match &f.params[p].label {
                                Some(pl) => first_arg_labeled_exec(ls, pl),
                                None => {
                                    proof { assert(pv[p as int].label is Some); }
                                    0
                                },
                            }
                        },
                    };
                    let value = arg_value(a, j);
                    is_variant_expression(context, &NormalFormId::unchecked_new(value))
                },
            };
            if !applies {
                return None;
            }
            let amount = n + 1;
            let ghost spec_subs = fun_substitutions(c@, f.name@, pv, av)->Some_0;
            let count = match a {
                CallArgList::Unlabeled(ts) => if n <= ts.len() { n } else { ts.len() },
                CallArgList::UniquelyLabeled(ls) => ls.len(),
            };
            assert(count == paired_count(pv, av));
            let mut subs: Vec<Substitution> = Vec::new();
            subs.push(Substitution { from: name_of(&f.name, 0), to: c.upshift(amount) });
            let mut j: usize = 0;
            while j < count
                invariant
                    j <= count,
                    n == pv.len(),
                    amount == n + 1,
                    pv == params_view(f.params@),
                    av == a@,
                    count == paired_count(pv, av),
                    count <= arg_count(av),
                    fun_substitutions(c@, f.name@, pv, av) == Some(spec_subs),
                    forall|m: int| 0 <= m < arg_count(av) ==> term_fits(#[trigger] arg_term(av, m), UpshiftFn(amount), 0),
                    forall|m: int| 0 <= m < paired_count(pv, av) ==> (#[trigger] param_of_arg(pv, av, m)) is Some,
                    subs@.len() == j + 1,
                    forall|m: int| 0 <= m < j + 1 ==> (#[trigger] subs@[m])@ == spec_subs[m],
                decreases count - j,
            {
                let k = match a {
                    CallArgList::Unlabeled(_) => j,
                    CallArgList::UniquelyLabeled(ls) => {
                        assert(param_of_arg(pv, av, j as int) is Some);
                        assert(labeled_args_view(ls@)[j as int] == ls@[j as int]@);
                        first_param_labeled_exec(&f.params, label_of(&ls[j]))
                    },
                };
                assert(param_of_arg(pv, av, j as int) == Some(k as int));
                assert(k < n);
                assert(pv[k as int] == f.params@[k as int]@);
                let from = name_of(&f.params[k].name, n - k);
                let to = arg_value(a, j).upshift(amount);
                subs.push(Substitution { from, to });
                j += 1;
            }
            assert(substitutions_view(subs@) =~= spec_subs);
            let substituted_body = subst_all(&f.body, &subs);
            Some(substituted_body.downshift(amount))
        },
        _ => None,
    }
}


// ---------------------------------------------------------------------
// The fuel only bounds the work
// ---------------------------------------------------------------------

/// More fuel never changes an answer: where evaluation with some fuel
/// gives a value, or is stuck, it gives the same with one unit more.
pub proof fn lemma_more_fuel_same_answer(ctx: Seq<(Term, DefinitionView)>, t: Term, fuel: nat)
    requires
        !(eval(ctx, t, fuel) is OutOfFuel),
    ensures
        eval(ctx, t, fuel + 1) == eval(ctx, t, fuel),
    decreases fuel, t,
{
    match t {
        Term::Name { .. } => {},
        Term::Call { callee, args } => {
            lemma_more_fuel_same_answer(ctx, *callee, fuel);
            if let Evaluation::Value(c) = eval(ctx, *callee, fuel) {
                lemma_more_fuel_args(ctx, args, fuel);
                if let Ok(a) = eval_args(ctx, args, fuel) {
                    if let Some(Some(b)) = call_step(ctx, c, a) {
                        if fuel > 0 {
                            lemma_more_fuel_same_answer(ctx, b, (fuel - 1) as nat);
                            assert(((fuel + 1) - 1) as nat == fuel);
                        }
                    }
                }
            }
        },
        Term::Fun { params, return_type, .. } => {
            lemma_more_fuel_params(ctx, params, fuel);
            if let Ok(ps) = eval_params(ctx, params, fuel) {
                lemma_more_fuel_same_answer(push_params(ctx, ps), *return_type, fuel);
            }
        },
        Term::Match { matchee, cases } => {
            lemma_more_fuel_same_answer(ctx, *matchee, fuel);
            if let Evaluation::Value(m) = eval(ctx, *matchee, fuel) {
                if head_lookup_ok(ctx, m) {
                    if let Some((vname, vargs)) = as_variant(ctx, m) {
                        if let Some(k) = first_case_named(cases, vname) {
                            if 0 <= k < cases.len() {
                                lemma_more_fuel_case(ctx, cases[k], vargs, fuel);
                            }
                        }
                    }
                }
            }
        },
        Term::Forall { params, output } => {
            lemma_more_fuel_params(ctx, params, fuel);
            if let Ok(ps) = eval_params(ctx, params, fuel) {
                lemma_more_fuel_same_answer(push_params(ctx, ps), *output, fuel);
            }
        },
        Term::Check { output, .. } => {
            lemma_more_fuel_same_answer(ctx, *output, fuel);
        },
    }
}

proof fn lemma_more_fuel_case(ctx: Seq<(Term, DefinitionView)>, case: CaseTerm, vargs: Option<ArgList>, fuel: nat)
    requires
        !(eval_case(ctx, case, vargs, fuel) is OutOfFuel),
    ensures
        eval_case(ctx, case, vargs, fuel + 1) == eval_case(ctx, case, vargs, fuel),
    decreases fuel, case,
{
    match vargs {
        None => {
            if case.params.len() == 0 {
                lemma_more_fuel_same_answer(ctx, case.output, fuel);
            }
        },
        Some(ArgList::Unlabeled(ts)) => {
            if case.params.len() > 0 && case_args_fit(case, ts) {
                if let Some(b) = substituted(case.output, case_substitutions(case, ts), case.params.len()) {
                    if fuel > 0 {
                        lemma_more_fuel_same_answer(ctx, b, (fuel - 1) as nat);
                        assert(((fuel + 1) - 1) as nat == fuel);
                    }
                }
            }
        },
        Some(ArgList::Labeled(_)) => {},
    }
}

proof fn lemma_more_fuel_args(ctx: Seq<(Term, DefinitionView)>, a: ArgList, fuel: nat)
    requires
        !(eval_args(ctx, a, fuel) matches Err(Evaluation::OutOfFuel)),
    ensures
        eval_args(ctx, a, fuel + 1) == eval_args(ctx, a, fuel),
    decreases fuel, a,
{
    match a {
        ArgList::Unlabeled(ts) => lemma_more_fuel_terms(ctx, ts, fuel),
        ArgList::Labeled(ls) => lemma_more_fuel_labeled_args(ctx, ls, fuel),
    }
}

proof fn lemma_more_fuel_terms(ctx: Seq<(Term, DefinitionView)>, ts: Seq<Term>, fuel: nat)
    requires
        !(eval_terms(ctx, ts, fuel) matches Err(Evaluation::OutOfFuel)),
    ensures
        eval_terms(ctx, ts, fuel + 1) == eval_terms(ctx, ts, fuel),
    decreases fuel, ts,
{
    if ts.len() > 0 {
        lemma_more_fuel_terms(ctx, ts.drop_last(), fuel);
        if eval_terms(ctx, ts.drop_last(), fuel) is Ok {
            lemma_more_fuel_same_answer(ctx, ts.last(), fuel);
        }
    }
}

proof fn lemma_more_fuel_labeled_arg(ctx: Seq<(Term, DefinitionView)>, a: LabeledArg, fuel: nat)
    requires
        !(eval_labeled_arg(ctx, a, fuel) matches Err(Evaluation::OutOfFuel)),
    ensures
        eval_labeled_arg(ctx, a, fuel + 1) == eval_labeled_arg(ctx, a, fuel),
    decreases fuel, a,
{
    match a {
        LabeledArg::Implicit { .. } => {},
        LabeledArg::Explicit { value, .. } => lemma_more_fuel_same_answer(ctx, value, fuel),
    }
}

proof fn lemma_more_fuel_labeled_args(ctx: Seq<(Term, DefinitionView)>, ls: Seq<LabeledArg>, fuel: nat)
    requires
        !(eval_labeled_args(ctx, ls, fuel) matches Err(Evaluation::OutOfFuel)),
    ensures
        eval_labeled_args(ctx, ls, fuel + 1) == eval_labeled_args(ctx, ls, fuel),
    decreases fuel, ls,
{
    if ls.len() > 0 {
        lemma_more_fuel_labeled_args(ctx, ls.drop_last(), fuel);
        if eval_labeled_args(ctx, ls.drop_last(), fuel) is Ok {
            lemma_more_fuel_labeled_arg(ctx, ls.last(), fuel);
        }
    }
}

proof fn lemma_more_fuel_params(ctx: Seq<(Term, DefinitionView)>, ps: Seq<ParamTerm>, fuel: nat)
    requires
        !(eval_params(ctx, ps, fuel) matches Err(Evaluation::OutOfFuel)),
    ensures
        eval_params(ctx, ps, fuel + 1) == eval_params(ctx, ps, fuel),
    decreases fuel, ps,
{
    if ps.len() > 0 {
        lemma_more_fuel_params(ctx, ps.drop_last(), fuel);
        if let Ok(prefix) = eval_params(ctx, ps.drop_last(), fuel) {
            lemma_more_fuel_same_answer(push_params(ctx, prefix), ps.last().type_, fuel);
        }
    }
}

// ---------------------------------------------------------------------
// A case parameter takes its argument
// ---------------------------------------------------------------------

/// The terms substituted one after the other into the `k`-th parameter's
/// name: it stays as it is until the `k`-th substitution, which gives the
/// `k`-th argument shifted past the parameters, and no later one touches.
proof fn lemma_case_substitutions_prefix(params: Seq<IdName>, ts: Seq<Term>, k: int, i: int)
    requires
        params.len() == ts.len(),
        0 <= k < ts.len(),
        0 <= i <= ts.len(),
        ts.len() <= usize::MAX,
        ts[k] is Name,
        term_fits(ts[k], UpshiftFn(ts.len() as usize), 0),
    ensures
        ({
            let n = ts.len();
            let case = CaseTerm { variant_name: IdName::Standard(seq![]), params, output: name_term(params[k], (n - k - 1) as nat) };
            let subs = case_substitutions(case, ts).take(i);
            &&& subst_all_fits(case.output, subs)
            &&& subst_all_term(case.output, subs) == if i <= k { case.output } else { upshift_term(ts[k], n as usize, 0) }
        }),
    decreases i,
{
    let n = ts.len();
    let case = CaseTerm { variant_name: IdName::Standard(seq![]), params, output: name_term(params[k], (n - k - 1) as nat) };
    let all = case_substitutions(case, ts);
    if i > 0 {
        lemma_case_substitutions_prefix(params, ts, k, i - 1);
        assert(all.take(i).drop_last() =~= all.take(i - 1));
        assert(all.take(i).last() == all[i - 1]);
    } else {
        assert(all.take(0) =~= Seq::<(Term, Term)>::empty());
    }
}

/// A case whose output is its `k`-th parameter, on a variant with the
/// unlabeled arguments `ts`, evaluates the `k`-th argument: the `k`-th
/// parameter takes the `k`-th argument, whatever the other arguments are.
pub proof fn lemma_case_parameter_takes_its_argument(
    ctx: Seq<(Term, DefinitionView)>,
    variant_name: IdName,
    params: Seq<IdName>,
    ts: Seq<Term>,
    k: int,
    fuel: nat,
)
    requires
        params.len() == ts.len(),
        0 <= k < ts.len(),
        ts.len() <= usize::MAX,
        forall|j: int| 0 <= j < ts.len() ==> term_fits(#[trigger] ts[j], UpshiftFn(ts.len() as usize), 0),
        ts[k] is Name,
    ensures
        eval_case(
            ctx,
            CaseTerm { variant_name, params, output: name_term(params[k], (ts.len() - k - 1) as nat) },
            Some(ArgList::Unlabeled(ts)),
            fuel + 1,
        ) == eval(ctx, ts[k], fuel),
{
    let n = ts.len();
    let case = CaseTerm { variant_name, params, output: name_term(params[k], (n - k - 1) as nat) };
    let plain = CaseTerm { variant_name: IdName::Standard(seq![]), params, output: name_term(params[k], (n - k - 1) as nat) };
    assert(case_substitutions(case, ts) == case_substitutions(plain, ts));
    lemma_case_substitutions_prefix(params, ts, k, n as int);
    let subs = case_substitutions(case, ts);
    assert(subs.take(n as int) =~= subs);
    assert(case_args_fit(case, ts));
    let up = upshift_term(ts[k], n as usize, 0);
    assert(subst_all_term(case.output, subs) == up);
    assert(term_fits(up, DownshiftFn(n as usize), 0));
    assert(shift_term(up, DownshiftFn(n as usize), 0) == Ok::<Term, DbIndexTooSmallForDownshiftError>(ts[k]));
    assert(substituted(case.output, subs, n) == Some(ts[k]));
}

/// The arguments that are normal forms evaluate to themselves.
proof fn lemma_normal_arguments(ctx: Seq<(Term, DefinitionView)>, ts: Seq<Term>, fuel: nat)
    requires
        forall|j: int| 0 <= j < ts.len() ==> eval(ctx, #[trigger] ts[j], fuel) == Evaluation::Value(ts[j]),
    ensures
        eval_terms(ctx, ts, fuel) == Ok::<Seq<Term>, Evaluation>(ts),
    decreases ts.len(),
{
    if ts.len() > 0 {
        lemma_normal_arguments(ctx, ts.drop_last(), fuel);
        assert(ts.drop_last().push(ts.last()) =~= ts);
        assert(eval(ctx, ts.last(), fuel) == Evaluation::Value(ts.last()));
        assert(eval_terms(ctx, ts, fuel) == Ok::<Seq<Term>, Evaluation>(ts.drop_last().push(ts.last()))) by {
            reveal_with_fuel(eval_terms, 2);
        }
    } else {
        assert(ts =~= Seq::<Term>::empty());
        reveal_with_fuel(eval_terms, 2);
    }
}

/// `match C(a_0, ..., a_{n-1}) { C(x_0, ..., x_{n-1}) => x_k }` evaluates
/// `a_k`, where the arguments are normal forms: the match picks the case
/// of its variant, and the case's `k`-th parameter takes the `k`-th
/// argument.
pub proof fn lemma_match_on_a_variant_picks_the_argument(
    ctx: Seq<(Term, DefinitionView)>,
    components: Seq<IdName>,
    variant_index: nat,
    variant_name: IdName,
    params: Seq<IdName>,
    ts: Seq<Term>,
    k: int,
    fuel: nat,
)
    requires
        lookup_ok(ctx, variant_index),
        definition_at(ctx, variant_index) == DefinitionView::Variant(variant_name),
        params.len() == ts.len(),
        0 <= k < ts.len(),
        ts.len() <= usize::MAX,
        forall|j: int| 0 <= j < ts.len() ==> term_fits(#[trigger] ts[j], UpshiftFn(ts.len() as usize), 0),
        forall|j: int| 0 <= j < ts.len() ==> eval(ctx, #[trigger] ts[j], fuel + 1) == Evaluation::Value(ts[j]),
        ts[k] is Name,
    ensures
        eval(
            ctx,
            Term::Match {
                matchee: Box::new(Term::Call {
                    callee: Box::new(Term::Name { components, index: variant_index }),
                    args: ArgList::Unlabeled(ts),
                }),
                cases: seq![CaseTerm { variant_name, params, output: name_term(params[k], (ts.len() - k - 1) as nat) }],
            },
            fuel + 1,
        ) == eval(ctx, ts[k], fuel),
{
    let case = CaseTerm { variant_name, params, output: name_term(params[k], (ts.len() - k - 1) as nat) };
    let cases = seq![case];
    let callee = Term::Name { components, index: variant_index };
    let m = Term::Call { callee: Box::new(callee), args: ArgList::Unlabeled(ts) };
    let f1 = (fuel + 1) as nat;
    lemma_normal_arguments(ctx, ts, f1);
    assert(eval(ctx, callee, f1) == Evaluation::Value(callee)) by {
        reveal_with_fuel(eval, 2);
    }
    assert(eval_args(ctx, ArgList::Unlabeled(ts), f1) == Ok::<ArgList, Evaluation>(ArgList::Unlabeled(ts))) by {
        reveal_with_fuel(eval_args, 2);
    }
    assert(call_step(ctx, callee, ArgList::Unlabeled(ts)) == Some(None::<Term>));
    assert(eval(ctx, m, f1) == Evaluation::Value(m)) by {
        reveal_with_fuel(eval, 2);
    }
    assert(head_lookup_ok(ctx, m));
    assert(as_variant(ctx, m) == Some((variant_name, Some(ArgList::Unlabeled(ts)))));
    assert(is_first_case_named(cases, variant_name, 0));
    assert(first_case_named(cases, variant_name) == Some(0int));
    lemma_case_parameter_takes_its_argument(ctx, variant_name, params, ts, k, fuel);
    assert(eval(ctx, Term::Match { matchee: Box::new(m), cases }, f1) == eval_case(ctx, case, Some(ArgList::Unlabeled(ts)), f1)) by {
        reveal_with_fuel(eval, 2);
    }
}

}
