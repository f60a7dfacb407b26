//! Checking that a variable does not appear in an expression, as the
//! positivity check of type definitions needs.

use vstd::prelude::*;
use crate::ast::{
    DbIndex, Term, IdName, ArgList, LabeledArg, ParamTerm, CaseTerm, Expression, NameExpression, Call,
    CallArgList, LabeledCallArg, Param, Fun, Match, MatchCase, Forall, Check, exprs_view,
    labeled_args_view, params_view, cases_view,
};
use crate::equality::copy_expression;
use crate::ast::copy_identifiers;
use crate::fun_recursion::name_of_label;

verus! {

#[derive(Debug)]
pub enum TypePositivityError {
    /// The variable, as it is numbered where it appears, and the name
    /// expression where it appears.
    IllegalVariableAppearance { var_db_index: DbIndex, expression: Expression },
}

impl View for TypePositivityError {
    type V = (nat, Term);

    open spec fn view(&self) -> (nat, Term) {
        match self {
            TypePositivityError::IllegalVariableAppearance { var_db_index, expression } => (var_db_index.0 as nat, expression@),
        }
    }
}

/// The variable `target` (numbered as it is at the root of `t`), as it is
/// numbered at its first appearance that the check visits, and the name
/// expression of that appearance, if any.
///
/// The check visits a function's parameter types and its return type, the
/// latter twice (the second time with the target numbered as in the body),
/// but not its body; and it visits only the output of a check expression.
pub open spec fn first_appearance(t: Term, target: nat) -> Option<(nat, Term)>
    decreases t,
{
    match t {
        Term::Name { index, .. } => if index == target { Some((target, t)) } else { None },
        Term::Call { callee, args } => match first_appearance(*callee, target) {
            Some(x) => Some(x),
            None => first_appearance_in_args(args, target),
        },
        Term::Fun { params, return_type, .. } => match first_appearance_in_params(params, target) {
            Some(x) => Some(x),
            None => match first_appearance(*return_type, target + params.len()) {
                Some(x) => Some(x),
                None => first_appearance(*return_type, target + params.len() + 1),
            },
        },
        Term::Match { matchee, cases } => match first_appearance(*matchee, target) {
            Some(x) => Some(x),
            None => first_appearance_in_cases(cases, target),
        },
        Term::Forall { params, output } => match first_appearance_in_params(params, target) {
            Some(x) => Some(x),
            None => first_appearance(*output, target + params.len()),
        },
        Term::Check { output, .. } => first_appearance(*output, target),
    }
}

pub open spec fn first_appearance_in_args(a: ArgList, target: nat) -> Option<(nat, Term)>
    decreases a,
{
    match a {
        ArgList::Unlabeled(ts) => first_appearance_in_terms(ts, target),
        ArgList::Labeled(ls) => first_appearance_in_labeled_args(ls, target),
    }
}

pub open spec fn first_appearance_in_terms(ts: Seq<Term>, target: nat) -> Option<(nat, Term)>
    decreases ts,
{
    if ts.len() == 0 {
        None
    } else {
        match first_appearance_in_terms(ts.drop_last(), target) {
            Some(x) => Some(x),
            None => first_appearance(ts.last(), target),
        }
    }
}

/// An implicit labeled argument is the variable of its label.
pub open spec fn first_appearance_in_labeled_arg(a: LabeledArg, target: nat) -> Option<(nat, Term)>
    decreases a,
{
    match a {
        LabeledArg::Implicit { label, index } => if index == target {
            Some((target, Term::Name { components: seq![label], index }))
        } else {
            None
        },
        LabeledArg::Explicit { value, .. } => first_appearance(value, target),
    }
}

pub open spec fn first_appearance_in_labeled_args(ls: Seq<LabeledArg>, target: nat) -> Option<(nat, Term)>
    decreases ls,
{
    if ls.len() == 0 {
        None
    } else {
        match first_appearance_in_labeled_args(ls.drop_last(), target) {
            Some(x) => Some(x),
            None => first_appearance_in_labeled_arg(ls.last(), target),
        }
    }
}

pub open spec fn first_appearance_in_params(ps: Seq<ParamTerm>, target: nat) -> Option<(nat, Term)>
    decreases ps,
{
    if ps.len() == 0 {
        None
    } else {
        match first_appearance_in_params(ps.drop_last(), target) {
            Some(x) => Some(x),
            None => first_appearance(ps.last().type_, (target + ps.len() - 1) as nat),
        }
    }
}

pub open spec fn first_appearance_in_cases(cs: Seq<CaseTerm>, target: nat) -> Option<(nat, Term)>
    decreases cs,
{
    if cs.len() == 0 {
        None
    } else {
        match first_appearance_in_cases(cs.drop_last(), target) {
            Some(x) => Some(x),
            None => first_appearance(cs.last().output, target + cs.last().params.len()),
        }
    }
}

/// Every renumbering of the target that the check computes fits in a `usize`.
pub open spec fn target_fits(t: Term, target: nat) -> bool
    decreases t,
{
    &&& target <= usize::MAX
    &&& match t {
        Term::Name { .. } => true,
        Term::Call { callee, args } => {
            &&& target_fits(*callee, target)
            &&& match args {
                ArgList::Unlabeled(ts) => forall|i: int| 0 <= i < ts.len() ==> target_fits(#[trigger] ts[i], target),
                ArgList::Labeled(ls) => forall|i: int|
                    0 <= i < ls.len() ==> match #[trigger] ls[i] {
                        LabeledArg::Implicit { .. } => true,
                        LabeledArg::Explicit { value, .. } => target_fits(value, target),
                    },
            }
        },
        Term::Fun { params, return_type, .. } => {
            &&& target + params.len() + 1 <= usize::MAX
            &&& forall|i: int| 0 <= i < params.len() ==> target_fits(#[trigger] params[i].type_, (target + i) as nat)
            &&& target_fits(*return_type, target + params.len())
            &&& target_fits(*return_type, target + params.len() + 1)
        },
        Term::Match { matchee, cases } => {
            &&& target_fits(*matchee, target)
            &&& forall|i: int|
                0 <= i < cases.len() ==> target + (#[trigger] cases[i]).params.len() <= usize::MAX
                    && target_fits(cases[i].output, target + cases[i].params.len())
        },
        Term::Forall { params, output } => {
            &&& target + params.len() <= usize::MAX
            &&& forall|i: int| 0 <= i < params.len() ==> target_fits(#[trigger] params[i].type_, (target + i) as nat)
            &&& target_fits(*output, target + params.len())
        },
        Term::Check { output, .. } => target_fits(*output, target),
    }
}

/// The outcome of a check is `Ok` where it finds no appearance, and
/// otherwise the error of the first appearance it finds.
pub open spec fn outcome_is(r: Result<(), TypePositivityError>, first: Option<(nat, Term)>) -> bool {
    match r {
        Ok(()) => first is None,
        Err(e) => first == Some(e@),
    }
}


// ---------------------------------------------------------------------
// An appearance found in a prefix of a list is the list's first
// ---------------------------------------------------------------------

pub proof fn lemma_terms_found_in_prefix(xs: Seq<Term>, target: nat, k: int)
    requires
        0 <= k <= xs.len(),
        first_appearance_in_terms(xs.take(k), target) is Some,
    ensures
        first_appearance_in_terms(xs, target) == first_appearance_in_terms(xs.take(k), target),
    decreases xs.len() - k,
{
    if k == xs.len() {
        assert(xs.take(k) =~= xs);
    } else {
        assert(xs.take(k + 1).drop_last() =~= xs.take(k));
        lemma_terms_found_in_prefix(xs, target, k + 1);
    }
}

pub proof fn lemma_labeled_args_found_in_prefix(xs: Seq<LabeledArg>, target: nat, k: int)
    requires
        0 <= k <= xs.len(),
        first_appearance_in_labeled_args(xs.take(k), target) is Some,
    ensures
        first_appearance_in_labeled_args(xs, target) == first_appearance_in_labeled_args(xs.take(k), target),
    decreases xs.len() - k,
{
    if k == xs.len() {
        assert(xs.take(k) =~= xs);
    } else {
        assert(xs.take(k + 1).drop_last() =~= xs.take(k));
        lemma_labeled_args_found_in_prefix(xs, target, k + 1);
    }
}

pub proof fn lemma_params_found_in_prefix(xs: Seq<ParamTerm>, target: nat, k: int)
    requires
        0 <= k <= xs.len(),
        first_appearance_in_params(xs.take(k), target) is Some,
    ensures
        first_appearance_in_params(xs, target) == first_appearance_in_params(xs.take(k), target),
    decreases xs.len() - k,
{
    if k == xs.len() {
        assert(xs.take(k) =~= xs);
    } else {
        assert(xs.take(k + 1).drop_last() =~= xs.take(k));
        lemma_params_found_in_prefix(xs, target, k + 1);
    }
}

/// The parameter-type check passes exactly when no parameter's type holds
/// the target (renumbered by the parameter's position); otherwise it fails
/// with the appearance in the parameter of the smallest position whose
/// type holds it.
pub proof fn lemma_params_fail_at_smallest_index(ps: Seq<ParamTerm>, target: nat)
    ensures
        first_appearance_in_params(ps, target) is None <==> forall|i: int|
            0 <= i < ps.len() ==> #[trigger] first_appearance(ps[i].type_, target + i as nat) is None,
        forall|k: int|
            0 <= k < ps.len() && #[trigger] first_appearance(ps[k].type_, target + k as nat) is Some && (forall|i: int|
                0 <= i < k ==> first_appearance(ps[i].type_, target + i as nat) is None) ==> first_appearance_in_params(ps, target)
                == first_appearance(ps[k].type_, target + k as nat),
    decreases ps.len(),
{
    if ps.len() > 0 {
        let pre = ps.drop_last();
        lemma_params_fail_at_smallest_index(pre, target);
        assert forall|i: int| 0 <= i < pre.len() implies pre[i] == ps[i] by {}
        let n = (ps.len() - 1) as int;
        assert(ps.last() == ps[n]);
        assert((target + ps.len() - 1) as nat == target + n as nat);
        if first_appearance_in_params(ps, target) is None {
            assert forall|i: int| 0 <= i < ps.len() implies #[trigger] first_appearance(ps[i].type_, target + i as nat) is None by {
                if i < n {
                    assert(first_appearance(pre[i].type_, target + i as nat) is None);
                }
            }
        }
        if forall|i: int| 0 <= i < ps.len() ==> #[trigger] first_appearance(ps[i].type_, target + i as nat) is None {
            assert forall|i: int| 0 <= i < pre.len() implies #[trigger] first_appearance(pre[i].type_, target + i as nat) is None by {
                assert(first_appearance(ps[i].type_, target + i as nat) is None);
            }
            assert(first_appearance(ps[n].type_, target + n as nat) is None);
        }
        assert forall|k: int|
            0 <= k < ps.len() && #[trigger] first_appearance(ps[k].type_, target + k as nat) is Some && (forall|i: int|
                0 <= i < k ==> first_appearance(ps[i].type_, target + i as nat) is None) implies first_appearance_in_params(ps, target)
                == first_appearance(ps[k].type_, target + k as nat) by {
            if k < n {
                assert(first_appearance(pre[k].type_, target + k as nat) is Some);
                assert forall|i: int| 0 <= i < k implies first_appearance(pre[i].type_, target + i as nat) is None by {
                    assert(first_appearance(ps[i].type_, target + i as nat) is None);
                }
            } else {
                assert forall|i: int| 0 <= i < pre.len() implies #[trigger] first_appearance(pre[i].type_, target + i as nat) is None by {
                    assert(first_appearance(ps[i].type_, target + i as nat) is None);
                }
            }
        }
    }
}

pub proof fn lemma_cases_found_in_prefix(xs: Seq<CaseTerm>, target: nat, k: int)
    requires
        0 <= k <= xs.len(),
        first_appearance_in_cases(xs.take(k), target) is Some,
    ensures
        first_appearance_in_cases(xs, target) == first_appearance_in_cases(xs.take(k), target),
    decreases xs.len() - k,
{
    if k == xs.len() {
        assert(xs.take(k) =~= xs);
    } else {
        assert(xs.take(k + 1).drop_last() =~= xs.take(k));
        lemma_cases_found_in_prefix(xs, target, k + 1);
    }
}

// ---------------------------------------------------------------------
// Executable checks
// ---------------------------------------------------------------------

pub fn verify_that_target_does_not_appear_in_expression(e: &Expression, target: DbIndex) -> (r: Result<(), TypePositivityError>)
    requires
        target_fits(e@, target.0 as nat),
    ensures
        outcome_is(r, first_appearance(e@, target.0 as nat)),
    decreases e,
{
    match e {
        Expression::Name(n) => verify_that_target_does_not_appear_in_name_expression(n, target),
        Expression::Call(c) => verify_that_target_does_not_appear_in_call(c, target),
        Expression::Fun(f) => verify_that_target_does_not_appear_in_fun(f, target),
        Expression::Match(m) => verify_that_target_does_not_appear_in_match(m, target),
        Expression::Forall(f) => verify_that_target_does_not_appear_in_forall(f, target),
        Expression::Check(c) => verify_that_target_does_not_appear_in_check_expression(c, target),
    }
}

pub fn verify_that_target_does_not_appear_in_name_expression(name: &NameExpression, target: DbIndex) -> (r: Result<(), TypePositivityError>)
    ensures
        outcome_is(r, first_appearance(name@, target.0 as nat)),
{
    if name.db_index.0 == target.0 {
        let expression = Expression::Name(NameExpression { components: copy_identifiers(&name.components), db_index: name.db_index });
        Err(TypePositivityError::IllegalVariableAppearance { var_db_index: target, expression })
    } else {
        Ok(())
    }
}

pub fn verify_that_target_does_not_appear_in_call(call: &Call, target: DbIndex) -> (r: Result<(), TypePositivityError>)
    requires
        target_fits(Expression::Call(Box::new(*call))@, target.0 as nat),
    ensures
        outcome_is(r, first_appearance(Expression::Call(Box::new(*call))@, target.0 as nat)),
    decreases call,
{
    match verify_that_target_does_not_appear_in_expression(&call.callee, target) {
        Err(e) => { return Err(e); },
        Ok(()) => {},
    }
    verify_that_target_does_not_appear_in_any_call_arg(&call.args, target)
}

pub fn verify_that_target_does_not_appear_in_any_call_arg(args: &CallArgList, target: DbIndex) -> (r: Result<(), TypePositivityError>)
    requires
        match args@ {
            ArgList::Unlabeled(ts) => forall|i: int| 0 <= i < ts.len() ==> target_fits(#[trigger] ts[i], target.0 as nat),
            ArgList::Labeled(ls) => forall|i: int|
                0 <= i < ls.len() ==> match #[trigger] ls[i] {
                    LabeledArg::Implicit { .. } => true,
                    LabeledArg::Explicit { value, .. } => target_fits(value, target.0 as nat),
                },
        },
    ensures
        outcome_is(r, first_appearance_in_args(args@, target.0 as nat)),
    decreases args,
{
    match args {
        CallArgList::Unlabeled(v) => verify_that_target_does_not_appear_in_any_unlabeled_call_arg(v, target),
        CallArgList::UniquelyLabeled(v) => verify_that_target_does_not_appear_in_any_labeled_call_arg(v, target),
    }
}

pub fn verify_that_target_does_not_appear_in_any_unlabeled_call_arg(v: &Vec<Expression>, target: DbIndex) -> (r: Result<(), TypePositivityError>)
    requires
        forall|i: int| 0 <= i < v@.len() ==> target_fits(#[trigger] exprs_view(v@)[i], target.0 as nat),
    ensures
        outcome_is(r, first_appearance_in_terms(exprs_view(v@), target.0 as nat)),
    decreases v,
{
    let ghost vv = exprs_view(v@);
    let mut i: usize = 0;
    assert(vv.take(0) =~= Seq::<Term>::empty());
    while i < v.len()
        invariant
            i <= v.len(),
            vv == exprs_view(v@),
            forall|k: int| 0 <= k < v@.len() ==> target_fits(#[trigger] exprs_view(v@)[k], target.0 as nat),
            first_appearance_in_terms(vv.take(i as int), target.0 as nat) is None,
        decreases v.len() - i,
    {
        assert(vv.take(i + 1).drop_last() =~= vv.take(i as int));
        assert(vv[i as int] == v@[i as int]@);
        match verify_that_target_does_not_appear_in_expression(&v[i], target) {
            Err(e) => {
                proof { lemma_terms_found_in_prefix(vv, target.0 as nat, i + 1); }
                return Err(e);
            },
            Ok(()) => {},
        }
        i += 1;
    }
    assert(vv.take(v.len() as int) =~= vv);
    Ok(())
}

fn verify_that_target_does_not_appear_in_labeled_call_arg(a: &LabeledCallArg, target: DbIndex) -> (r: Result<(), TypePositivityError>)
    requires
        match a@ {
            LabeledArg::Implicit { .. } => true,
            LabeledArg::Explicit { value, .. } => target_fits(value, target.0 as nat),
        },
    ensures
        outcome_is(r, first_appearance_in_labeled_arg(a@, target.0 as nat)),
    decreases a,
{
    match a {
        LabeledCallArg::Implicit { label, db_index } => {
            if db_index.0 == target.0 {
                let expression = Expression::Name(name_of_label(label, *db_index));
                Err(TypePositivityError::IllegalVariableAppearance { var_db_index: target, expression })
            } else {
                Ok(())
            }
        },
        LabeledCallArg::Explicit { value, .. } => verify_that_target_does_not_appear_in_expression(value, target),
    }
}

pub fn verify_that_target_does_not_appear_in_any_labeled_call_arg(v: &Vec<LabeledCallArg>, target: DbIndex) -> (r: Result<(), TypePositivityError>)
    requires
        forall|i: int|
            0 <= i < v@.len() ==> match #[trigger] labeled_args_view(v@)[i] {
                LabeledArg::Implicit { .. } => true,
                LabeledArg::Explicit { value, .. } => target_fits(value, target.0 as nat),
            },
    ensures
        outcome_is(r, first_appearance_in_labeled_args(labeled_args_view(v@), target.0 as nat)),
    decreases v,
{
    let ghost vv = labeled_args_view(v@);
    let mut i: usize = 0;
    assert(vv.take(0) =~= Seq::<LabeledArg>::empty());
    while i < v.len()
        invariant
            i <= v.len(),
            vv == labeled_args_view(v@),
            forall|k: int|
                0 <= k < v@.len() ==> match #[trigger] labeled_args_view(v@)[k] {
                    LabeledArg::Implicit { .. } => true,
                    LabeledArg::Explicit { value, .. } => target_fits(value, target.0 as nat),
                },
            first_appearance_in_labeled_args(vv.take(i as int), target.0 as nat) is None,
        decreases v.len() - i,
    {
        assert(vv.take(i + 1).drop_last() =~= vv.take(i as int));
        assert(vv[i as int] == v@[i as int]@);
        match verify_that_target_does_not_appear_in_labeled_call_arg(&v[i], target) {
            Err(e) => {
                proof { lemma_labeled_args_found_in_prefix(vv, target.0 as nat, i + 1); }
                return Err(e);
            },
            Ok(()) => {},
        }
        i += 1;
    }
    assert(vv.take(v.len() as int) =~= vv);
    Ok(())
}

/// The `i`-th parameter's type is checked with the target renumbered by `i`.
pub fn verify_that_target_does_not_appear_in_any_param_type(v: &Vec<Param>, target: DbIndex) -> (r: Result<(), TypePositivityError>)
    requires
        target.0 + v@.len() <= usize::MAX,
        forall|i: int| 0 <= i < v@.len() ==> target_fits(#[trigger] params_view(v@)[i].type_, (target.0 + i) as nat),
    ensures
        outcome_is(r, first_appearance_in_params(params_view(v@), target.0 as nat)),
    decreases v,
{
    let ghost vv = params_view(v@);
    let mut i: usize = 0;
    assert(vv.take(0) =~= Seq::<ParamTerm>::empty());
    while i < v.len()
        invariant
            i <= v.len(),
            target.0 + v@.len() <= usize::MAX,
            vv == params_view(v@),
            forall|k: int| 0 <= k < v@.len() ==> target_fits(#[trigger] params_view(v@)[k].type_, (target.0 + k) as nat),
            first_appearance_in_params(vv.take(i as int), target.0 as nat) is None,
        decreases v.len() - i,
    {
        assert(vv.take(i + 1).drop_last() =~= vv.take(i as int));
        assert(vv[i as int] == v@[i as int]@);
        assert(target_fits(params_view(v@)[i as int].type_, (target.0 + i) as nat));
        let shifted_target = DbIndex(target.0 + i);
        match verify_that_target_does_not_appear_in_expression(&v[i].type_, shifted_target) {
            Err(e) => {
                proof { lemma_params_found_in_prefix(vv, target.0 as nat, i + 1); }
                return Err(e);
            },
            Ok(()) => {},
        }
        i += 1;
    }
    assert(vv.take(v.len() as int) =~= vv);
    Ok(())
}

/// Checks the parameter types and, twice, the return type; the body is
/// not checked.
pub fn verify_that_target_does_not_appear_in_fun(fun: &Fun, target: DbIndex) -> (r: Result<(), TypePositivityError>)
    requires
        target_fits(Expression::Fun(Box::new(*fun))@, target.0 as nat),
    ensures
        outcome_is(r, first_appearance(Expression::Fun(Box::new(*fun))@, target.0 as nat)),
    decreases fun,
{
    match verify_that_target_does_not_appear_in_any_param_type(&fun.params, target) {
        Err(e) => { return Err(e); },
        Ok(()) => {},
    }
    let return_type_target = DbIndex(target.0 + fun.params.len());
    match verify_that_target_does_not_appear_in_expression(&fun.return_type, return_type_target) {
        Err(e) => { return Err(e); },
        Ok(()) => {},
    }
    let body_target = DbIndex(target.0 + fun.params.len() + 1);
    verify_that_target_does_not_appear_in_expression(&fun.return_type, body_target)
}

/// Each case's output is checked with the target renumbered by the case's arity.
pub fn verify_that_target_does_not_appear_in_any_match_case_output(v: &Vec<MatchCase>, target: DbIndex) -> (r: Result<(), TypePositivityError>)
    requires
        forall|i: int|
            0 <= i < v@.len() ==> target.0 + (#[trigger] cases_view(v@)[i]).params.len() <= usize::MAX
                && target_fits(cases_view(v@)[i].output, (target.0 + cases_view(v@)[i].params.len()) as nat),
    ensures
        outcome_is(r, first_appearance_in_cases(cases_view(v@), target.0 as nat)),
    decreases v,
{
    let ghost vv = cases_view(v@);
    let mut i: usize = 0;
    assert(vv.take(0) =~= Seq::<CaseTerm>::empty());
    while i < v.len()
        invariant
            i <= v.len(),
            vv == cases_view(v@),
            forall|k: int|
                0 <= k < v@.len() ==> target.0 + (#[trigger] cases_view(v@)[k]).params.len() <= usize::MAX
                    && target_fits(cases_view(v@)[k].output, (target.0 + cases_view(v@)[k].params.len()) as nat),
            first_appearance_in_cases(vv.take(i as int), target.0 as nat) is None,
        decreases v.len() - i,
    {
        assert(vv.take(i + 1).drop_last() =~= vv.take(i as int));
        assert(vv[i as int] == v@[i as int]@);
        let c = &v[i];
        assert(vv[i as int].params.len() == c.params@.len());
        let shifted_target = DbIndex(target.0 + c.params.len());
        match verify_that_target_does_not_appear_in_expression(&c.output, shifted_target) {
            Err(e) => {
                proof { lemma_cases_found_in_prefix(vv, target.0 as nat, i + 1); }
                return Err(e);
            },
            Ok(()) => {},
        }
        i += 1;
    }
    assert(vv.take(v.len() as int) =~= vv);
    Ok(())
}

pub fn verify_that_target_does_not_appear_in_match(match_: &Match, target: DbIndex) -> (r: Result<(), TypePositivityError>)
    requires
        target_fits(Expression::Match(Box::new(*match_))@, target.0 as nat),
    ensures
        outcome_is(r, first_appearance(Expression::Match(Box::new(*match_))@, target.0 as nat)),
    decreases match_,
{
    match verify_that_target_does_not_appear_in_expression(&match_.matchee, target) {
        Err(e) => { return Err(e); },
        Ok(()) => {},
    }
    verify_that_target_does_not_appear_in_any_match_case_output(&match_.cases, target)
}

pub fn verify_that_target_does_not_appear_in_forall(forall: &Forall, target: DbIndex) -> (r: Result<(), TypePositivityError>)
    requires
        target_fits(Expression::Forall(Box::new(*forall))@, target.0 as nat),
    ensures
        outcome_is(r, first_appearance(Expression::Forall(Box::new(*forall))@, target.0 as nat)),
    decreases forall,
{
    match verify_that_target_does_not_appear_in_any_param_type(&forall.params, target) {
        Err(e) => { return Err(e); },
        Ok(()) => {},
    }
    let output_target = DbIndex(target.0 + forall.params.len());
    verify_that_target_does_not_appear_in_expression(&forall.output, output_target)
}

/// Only the output of a check expression is checked.
pub fn verify_that_target_does_not_appear_in_check_expression(check: &Check, target: DbIndex) -> (r: Result<(), TypePositivityError>)
    requires
        target_fits(Expression::Check(Box::new(*check))@, target.0 as nat),
    ensures
        outcome_is(r, first_appearance(Expression::Check(Box::new(*check))@, target.0 as nat)),
    decreases check,
{
    verify_that_target_does_not_appear_in_expression(&check.output, target)
}

/// The parameters' types, in order.
pub fn get_param_type_ids(params: &Vec<Param>) -> (r: Vec<Expression>)
    ensures
        exprs_view(r@) == Seq::new(params@.len(), |i: int| params_view(params@)[i].type_),
{
    let mut out: Vec<Expression> = Vec::new();
    let mut i: usize = 0;
    while i < params.len()
        invariant
            i <= params.len(),
            out@.len() == i,
            forall|k: int| 0 <= k < i ==> exprs_view(out@)[k] == params_view(params@)[k].type_,
        decreases params.len() - i,
    {
        let t = copy_expression(&params[i].type_);
        let ghost before = out@;
        out.push(t);
        assert(exprs_view(out@) =~= exprs_view(before).push(t@));
        i += 1;
    }
    assert(exprs_view(out@) =~= Seq::new(params@.len(), |i: int| params_view(params@)[i].type_));
    out
}

/// The parameters' types, in order; none for an absent parameter list.
pub fn get_possibly_empty_param_type_ids(params: Option<&Vec<Param>>) -> (r: Vec<Expression>)
    ensures
        match params {
            Some(ps) => exprs_view(r@) == Seq::new(ps@.len(), |i: int| params_view(ps@)[i].type_),
            None => r@.len() == 0,
        },
{
    match params {
        Some(ps) => get_param_type_ids(ps),
        None => Vec::new(),
    }
}

/// An appearance in one of the terms is an appearance in the list.
proof fn lemma_appearance_in_one_term(ts: Seq<Term>, target: nat, k: int)
    requires
        0 <= k < ts.len(),
        first_appearance(ts[k], target) is Some,
    ensures
        first_appearance_in_terms(ts, target) is Some,
    decreases ts.len(),
{
    if k < ts.len() - 1 {
        lemma_appearance_in_one_term(ts.drop_last(), target, k);
    }
}

/// The target variable named by itself is always reported.
pub proof fn lemma_the_target_itself_is_reported(components: Seq<IdName>, target: nat)
    ensures
        first_appearance(Term::Name { components, index: target }, target) == Some((target, Term::Name { components, index: target })),
{
}

/// The check reports a call with unlabeled arguments exactly when the
/// target appears in its callee or in one of its arguments; where it
/// appears in the callee, that appearance is the one reported.
pub proof fn lemma_appearance_in_a_call_is_reported(callee: Term, ts: Seq<Term>, target: nat)
    ensures
        first_appearance(Term::Call { callee: Box::new(callee), args: ArgList::Unlabeled(ts) }, target) is Some <==> {
            ||| first_appearance(callee, target) is Some
            ||| exists|k: int| 0 <= k < ts.len() && first_appearance(#[trigger] ts[k], target) is Some
        },
        first_appearance(callee, target) is Some ==> first_appearance(
            Term::Call { callee: Box::new(callee), args: ArgList::Unlabeled(ts) },
            target,
        ) == first_appearance(callee, target),
{
    let t = Term::Call { callee: Box::new(callee), args: ArgList::Unlabeled(ts) };
    assert(first_appearance_in_args(ArgList::Unlabeled(ts), target) == first_appearance_in_terms(ts, target)) by {
        reveal_with_fuel(first_appearance_in_args, 2);
    }
    assert(first_appearance(t, target) == match first_appearance(callee, target) {
        Some(x) => Some(x),
        None => first_appearance_in_args(ArgList::Unlabeled(ts), target),
    }) by {
        reveal_with_fuel(first_appearance, 2);
    }
    if exists|k: int| 0 <= k < ts.len() && first_appearance(#[trigger] ts[k], target) is Some {
        let k = choose|k: int| 0 <= k < ts.len() && first_appearance(#[trigger] ts[k], target) is Some;
        lemma_appearance_in_one_term(ts, target, k);
    }
    if first_appearance_in_terms(ts, target) is Some {
        lemma_appearance_found_in_one_term(ts, target);
    }
}

/// An appearance in the list is an appearance in one of its terms.
proof fn lemma_appearance_found_in_one_term(ts: Seq<Term>, target: nat)
    requires
        first_appearance_in_terms(ts, target) is Some,
    ensures
        exists|k: int| 0 <= k < ts.len() && first_appearance(#[trigger] ts[k], target) is Some,
    decreases ts.len(),
{
    if first_appearance_in_terms(ts.drop_last(), target) is Some {
        lemma_appearance_found_in_one_term(ts.drop_last(), target);
        let k = choose|k: int| 0 <= k < ts.drop_last().len() && first_appearance(#[trigger] ts.drop_last()[k], target) is Some;
        assert(ts[k] == ts.drop_last()[k]);
    } else {
        assert(first_appearance(ts[ts.len() - 1], target) is Some);
    }
}

}
