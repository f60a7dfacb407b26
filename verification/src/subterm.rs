//! Whether one expression occurs inside another, with the left expression
//! renumbered under each binder it passes.

use vstd::prelude::*;
use crate::ast::{
    Term, ArgList, LabeledArg, IdName, Expression, CallArgList, LabeledCallArg, Param, MatchCase,
    CheckAssertion, exprs_view, labeled_args_view, params_view, cases_view, assertions_view,
    optional_view,
};
use crate::equality::{expressions_equal, identifiers_equal};
use crate::shift::{UpshiftFn, term_fits};
use crate::shift_trait::{ShiftDbIndices, upshift_term};

verus! {

/// An implicit labeled argument `:x` stands for the one-component name `x`.
pub open spec fn labeled_arg_contains(left: Term, a: LabeledArg) -> bool
    decreases a,
{
    match a {
        LabeledArg::Implicit { label, index } => left == Term::Name { components: seq![label], index },
        LabeledArg::Explicit { value, .. } => is_inclusive_subterm(left, value),
    }
}

/// `left` equals `right` or one of its subterms, where under each binder
/// that the search passes `left` is upshifted by the number of variables
/// that the binder brings into scope. A function's `i`-th parameter type
/// sees the `i` parameters before it, its return type all of them, and its
/// body one more (the function itself). A check expression's subterms are
/// the sides of its assertions (but `goal` and `?`) and its output.
pub open spec fn is_inclusive_subterm(left: Term, right: Term) -> bool
    decreases right,
{
    left == right || match right {
        Term::Name { .. } => false,
        Term::Call { callee, args } => {
            ||| is_inclusive_subterm(left, *callee)
            ||| match args {
                ArgList::Unlabeled(ts) => exists|i: int| 0 <= i < ts.len() && is_inclusive_subterm(left, #[trigger] ts[i]),
                ArgList::Labeled(ls) => exists|i: int| 0 <= i < ls.len() && labeled_arg_contains(left, #[trigger] ls[i]),
            }
        },
        Term::Fun { params, return_type, body, .. } => {
            ||| exists|i: int|
                0 <= i < params.len() && is_inclusive_subterm(upshift_term(left, i as usize, 0), #[trigger] params[i].type_)
            ||| is_inclusive_subterm(upshift_term(left, params.len() as usize, 0), *return_type)
            ||| is_inclusive_subterm(upshift_term(left, (params.len() + 1) as usize, 0), *body)
        },
        Term::Match { matchee, cases } => {
            ||| is_inclusive_subterm(left, *matchee)
            ||| exists|i: int|
                0 <= i < cases.len() && is_inclusive_subterm(
                    upshift_term(left, (#[trigger] cases[i]).params.len() as usize, 0),
                    cases[i].output,
                )
        },
        Term::Forall { params, output } => {
            ||| exists|i: int|
                0 <= i < params.len() && is_inclusive_subterm(upshift_term(left, i as usize, 0), #[trigger] params[i].type_)
            ||| is_inclusive_subterm(upshift_term(left, params.len() as usize, 0), *output)
        },
        Term::Check { assertions, output } => {
            ||| exists|i: int|
                0 <= i < assertions.len() && {
                    ||| (#[trigger] assertions[i]).left matches Some(l) && is_inclusive_subterm(left, l)
                    ||| assertions[i].right matches Some(r) && is_inclusive_subterm(left, r)
                }
            ||| is_inclusive_subterm(left, *output)
        },
    }
}

/// Every upshift of `left` that the search computes, and every binder
/// count it adds, stays within machine integers.
pub open spec fn subterm_search_fits(left: Term, right: Term) -> bool
    decreases right,
{
    match right {
        Term::Name { .. } => true,
        Term::Call { callee, args } => {
            &&& subterm_search_fits(left, *callee)
            &&& match args {
                ArgList::Unlabeled(ts) => forall|i: int| 0 <= i < ts.len() ==> subterm_search_fits(left, #[trigger] ts[i]),
                ArgList::Labeled(ls) => forall|i: int|
                    0 <= i < ls.len() ==> match #[trigger] ls[i] {
                        LabeledArg::Implicit { .. } => true,
                        LabeledArg::Explicit { value, .. } => subterm_search_fits(left, value),
                    },
            }
        },
        Term::Fun { params, return_type, body, .. } => {
            &&& params.len() + 1 <= usize::MAX
            &&& forall|i: int|
                0 <= i < params.len() ==> term_fits(left, UpshiftFn(i as usize), 0) && subterm_search_fits(
                    upshift_term(left, i as usize, 0),
                    #[trigger] params[i].type_,
                )
            &&& term_fits(left, UpshiftFn(params.len() as usize), 0)
            &&& subterm_search_fits(upshift_term(left, params.len() as usize, 0), *return_type)
            &&& term_fits(left, UpshiftFn((params.len() + 1) as usize), 0)
            &&& subterm_search_fits(upshift_term(left, (params.len() + 1) as usize, 0), *body)
        },
        Term::Match { matchee, cases } => {
            &&& subterm_search_fits(left, *matchee)
            &&& forall|i: int|
                0 <= i < cases.len() ==> {
                    &&& (#[trigger] cases[i]).params.len() <= usize::MAX
                    &&& term_fits(left, UpshiftFn(cases[i].params.len() as usize), 0)
                    &&& subterm_search_fits(upshift_term(left, cases[i].params.len() as usize, 0), cases[i].output)
                }
        },
        Term::Forall { params, output } => {
            &&& params.len() <= usize::MAX
            &&& forall|i: int|
                0 <= i < params.len() ==> term_fits(left, UpshiftFn(i as usize), 0) && subterm_search_fits(
                    upshift_term(left, i as usize, 0),
                    #[trigger] params[i].type_,
                )
            &&& term_fits(left, UpshiftFn(params.len() as usize), 0)
            &&& subterm_search_fits(upshift_term(left, params.len() as usize, 0), *output)
        },
        Term::Check { assertions, output } => {
            &&& forall|i: int|
                0 <= i < assertions.len() ==> {
                    &&& ((#[trigger] assertions[i]).left matches Some(l) ==> subterm_search_fits(left, l))
                    &&& (assertions[i].right matches Some(r) ==> subterm_search_fits(left, r))
                }
            &&& subterm_search_fits(left, *output)
        },
    }
}

/// Whether `left` is `right` or occurs inside it (see
/// `is_inclusive_subterm`).
pub fn is_left_inclusive_subterm_of_right(left: &Expression, right: &Expression) -> (r: bool)
    requires
        subterm_search_fits(left@, right@),
    ensures
        r == is_inclusive_subterm(left@, right@),
    decreases right, 1nat,
{
    if expressions_equal(left, right) {
        return true;
    }
    match right {
        Expression::Name(_) => false,
        Expression::Call(_) => is_left_inside_call(left, right),
        Expression::Fun(_) => is_left_inside_fun(left, right),
        Expression::Match(_) => is_left_inside_match(left, right),
        Expression::Forall(_) => is_left_inside_forall(left, right),
        Expression::Check(_) => is_left_inside_check(left, right),
    }
}

#[verifier::spinoff_prover]
#[verifier::rlimit(40)]
fn is_left_inside_call(left: &Expression, right: &Expression) -> (r: bool)
    requires
        right is Call,
        left@ != right@,
        subterm_search_fits(left@, right@),
    ensures
        r == is_inclusive_subterm(left@, right@),
    decreases right, 0nat,
{
    match right {
        Expression::Call(c) => {
            assert(right@ == Term::Call { callee: Box::new(c.callee@), args: c.args@ });
            if is_left_inclusive_subterm_of_right(left, &c.callee) {
                return true;
            }
            match &c.args {
                CallArgList::Unlabeled(v) => {
                    assert(c.args@ == ArgList::Unlabeled(exprs_view(v@)));
                    let ghost ts = exprs_view(v@);
                    assert(subterm_search_fits(left@, Term::Call { callee: Box::new(c.callee@), args: ArgList::Unlabeled(ts) }));
                    assert(subterm_search_fits(left@, c.callee@));
                    assert(match ArgList::Unlabeled(ts) {
                        ArgList::Unlabeled(ts2) => forall|i: int| 0 <= i < ts2.len() ==> subterm_search_fits(left@, #[trigger] ts2[i]),
                        _ => true,
                    });
                    assert(forall|i: int| 0 <= i < ts.len() ==> subterm_search_fits(left@, #[trigger] ts[i]));
                    is_left_inclusive_subterm_of_any(left, v)
                },
                CallArgList::UniquelyLabeled(v) => {
                    assert(c.args@ == ArgList::Labeled(labeled_args_view(v@)));
                    is_left_in_any_labeled_call_arg(left, v)
                },
            }
        },
        _ => false,
    }
}

fn is_left_inside_fun(left: &Expression, right: &Expression) -> (r: bool)
    requires
        right is Fun,
        left@ != right@,
        subterm_search_fits(left@, right@),
    ensures
        r == is_inclusive_subterm(left@, right@),
    decreases right, 0nat,
{
    match right {
        Expression::Fun(fun) => {
            let arity = fun.params.len();
            assert(params_view(fun.params@).len() == arity);
            if is_left_inclusive_subterm_of_any_param_type(left, &fun.params) {
                return true;
            }
            let shifted = left.upshift(arity);
            if is_left_inclusive_subterm_of_right(&shifted, &fun.return_type) {
                return true;
            }
            let shifted = left.upshift(arity + 1);
            is_left_inclusive_subterm_of_right(&shifted, &fun.body)
        },
        _ => false,
    }
}

fn is_left_inside_match(left: &Expression, right: &Expression) -> (r: bool)
    requires
        right is Match,
        left@ != right@,
        subterm_search_fits(left@, right@),
    ensures
        r == is_inclusive_subterm(left@, right@),
    decreases right, 0nat,
{
    match right {
        Expression::Match(m) => {
            if is_left_inclusive_subterm_of_right(left, &m.matchee) {
                return true;
            }
            is_left_inclusive_subterm_of_any_case_output(left, &m.cases)
        },
        _ => false,
    }
}

fn is_left_inside_forall(left: &Expression, right: &Expression) -> (r: bool)
    requires
        right is Forall,
        left@ != right@,
        subterm_search_fits(left@, right@),
    ensures
        r == is_inclusive_subterm(left@, right@),
    decreases right, 0nat,
{
    match right {
        Expression::Forall(fa) => {
            let arity = fa.params.len();
            assert(params_view(fa.params@).len() == arity);
            if is_left_inclusive_subterm_of_any_param_type(left, &fa.params) {
                return true;
            }
            let shifted = left.upshift(arity);
            is_left_inclusive_subterm_of_right(&shifted, &fa.output)
        },
        _ => false,
    }
}

fn is_left_inside_check(left: &Expression, right: &Expression) -> (r: bool)
    requires
        right is Check,
        left@ != right@,
        subterm_search_fits(left@, right@),
    ensures
        r == is_inclusive_subterm(left@, right@),
    decreases right, 0nat,
{
    match right {
        Expression::Check(ch) => {
            if is_left_inclusive_subterm_of_any_assertion(left, &ch.assertions) {
                return true;
            }
            is_left_inclusive_subterm_of_right(left, &ch.output)
        },
        _ => false,
    }
}

fn is_left_inclusive_subterm_of_any(left: &Expression, v: &Vec<Expression>) -> (r: bool)
    requires
        forall|i: int| 0 <= i < v@.len() ==> subterm_search_fits(left@, #[trigger] exprs_view(v@)[i]),
    ensures
        r == exists|i: int| 0 <= i < v@.len() && is_inclusive_subterm(left@, #[trigger] exprs_view(v@)[i]),
    decreases v,
{
    let mut i: usize = 0;
    while i < v.len()
        invariant
            i <= v.len(),
            forall|k: int| 0 <= k < v@.len() ==> subterm_search_fits(left@, #[trigger] exprs_view(v@)[k]),
            forall|k: int| 0 <= k < i ==> !is_inclusive_subterm(left@, #[trigger] exprs_view(v@)[k]),
        decreases v.len() - i,
    {
        assert(exprs_view(v@)[i as int] == v@[i as int]@);
        if is_left_inclusive_subterm_of_right(left, &v[i]) {
            return true;
        }
        i += 1;
    }
    false
}

fn is_left_in_any_labeled_call_arg(left: &Expression, v: &Vec<LabeledCallArg>) -> (r: bool)
    requires
        forall|i: int|
            0 <= i < v@.len() ==> match #[trigger] labeled_args_view(v@)[i] {
                LabeledArg::Implicit { .. } => true,
                LabeledArg::Explicit { value, .. } => subterm_search_fits(left@, value),
            },
    ensures
        r == exists|i: int| 0 <= i < v@.len() && labeled_arg_contains(left@, #[trigger] labeled_args_view(v@)[i]),
    decreases v,
{
    let mut i: usize = 0;
    while i < v.len()
        invariant
            i <= v.len(),
            forall|k: int|
                0 <= k < v@.len() ==> match #[trigger] labeled_args_view(v@)[k] {
                    LabeledArg::Implicit { .. } => true,
                    LabeledArg::Explicit { value, .. } => subterm_search_fits(left@, value),
                },
            forall|k: int| 0 <= k < i ==> !labeled_arg_contains(left@, #[trigger] labeled_args_view(v@)[k]),
        decreases v.len() - i,
    {
        let ghost a = labeled_args_view(v@)[i as int];
        assert(a == v@[i as int]@);
        let found = match &v[i] {
            LabeledCallArg::Implicit { label, db_index } => is_left_the_name(left, label, *db_index),
            LabeledCallArg::Explicit { value, .. } => is_left_inclusive_subterm_of_right(left, value),
        };
        if found {
            return true;
        }
        i += 1;
    }
    false
}

/// Whether `left` is the one-component name `label` with the given index.
fn is_left_the_name(left: &Expression, label: &crate::ast::Identifier, db_index: crate::ast::DbIndex) -> (r: bool)
    ensures
        r == (left@ == Term::Name { components: seq![label@], index: db_index.0 as nat }),
{
    match left {
        Expression::Name(n) => {
            if n.components.len() != 1 || n.db_index.0 != db_index.0 {
                assert(n.components@.len() != 1 ==> crate::ast::idents_view(n.components@).len() != 1);
                return false;
            }
            let same = identifiers_equal(&n.components[0], label);
            assert(same ==> crate::ast::idents_view(n.components@) =~= seq![label@]);
            assert(crate::ast::idents_view(n.components@)[0] == n.components@[0]@);
            same
        },
        _ => false,
    }
}

fn is_left_inclusive_subterm_of_any_param_type(left: &Expression, v: &Vec<Param>) -> (r: bool)
    requires
        v@.len() <= usize::MAX,
        forall|i: int|
            0 <= i < v@.len() ==> term_fits(left@, UpshiftFn(i as usize), 0) && subterm_search_fits(
                upshift_term(left@, i as usize, 0),
                #[trigger] params_view(v@)[i].type_,
            ),
    ensures
        r == exists|i: int|
            0 <= i < v@.len() && is_inclusive_subterm(upshift_term(left@, i as usize, 0), #[trigger] params_view(v@)[i].type_),
    decreases v,
{
    let mut i: usize = 0;
    while i < v.len()
        invariant
            i <= v.len(),
            forall|k: int|
                0 <= k < v@.len() ==> term_fits(left@, UpshiftFn(k as usize), 0) && subterm_search_fits(
                    upshift_term(left@, k as usize, 0),
                    #[trigger] params_view(v@)[k].type_,
                ),
            forall|k: int|
                0 <= k < i ==> !is_inclusive_subterm(upshift_term(left@, k as usize, 0), #[trigger] params_view(v@)[k].type_),
        decreases v.len() - i,
    {
        assert(params_view(v@)[i as int].type_ == v@[i as int].type_@);
        assert(term_fits(left@, UpshiftFn(i), 0));
        let shifted = left.upshift(i);
        if is_left_inclusive_subterm_of_right(&shifted, &v[i].type_) {
            return true;
        }
        i += 1;
    }
    false
}

fn is_left_inclusive_subterm_of_any_case_output(left: &Expression, v: &Vec<MatchCase>) -> (r: bool)
    requires
        forall|i: int|
            0 <= i < v@.len() ==> {
                &&& (#[trigger] cases_view(v@)[i]).params.len() <= usize::MAX
                &&& term_fits(left@, UpshiftFn(cases_view(v@)[i].params.len() as usize), 0)
                &&& subterm_search_fits(
                    upshift_term(left@, cases_view(v@)[i].params.len() as usize, 0),
                    cases_view(v@)[i].output,
                )
            },
    ensures
        r == exists|i: int|
            0 <= i < v@.len() && is_inclusive_subterm(
                upshift_term(left@, (#[trigger] cases_view(v@)[i]).params.len() as usize, 0),
                cases_view(v@)[i].output,
            ),
    decreases v,
{
    let mut i: usize = 0;
    while i < v.len()
        invariant
            i <= v.len(),
            forall|k: int|
                0 <= k < v@.len() ==> {
                    &&& (#[trigger] cases_view(v@)[k]).params.len() <= usize::MAX
                    &&& term_fits(left@, UpshiftFn(cases_view(v@)[k].params.len() as usize), 0)
                    &&& subterm_search_fits(
                        upshift_term(left@, cases_view(v@)[k].params.len() as usize, 0),
                        cases_view(v@)[k].output,
                    )
                },
            forall|k: int|
                0 <= k < i ==> !is_inclusive_subterm(
                    upshift_term(left@, (#[trigger] cases_view(v@)[k]).params.len() as usize, 0),
                    cases_view(v@)[k].output,
                ),
        decreases v.len() - i,
    {
        let ghost c = cases_view(v@)[i as int];
        assert(c == crate::ast::case_view(v@[i as int]));
        assert(c.params.len() == v@[i as int].params@.len());
        let arity = v[i].params.len();
        let shifted = left.upshift(arity);
        if is_left_inclusive_subterm_of_right(&shifted, &v[i].output) {
            return true;
        }
        i += 1;
    }
    false
}

fn is_left_inclusive_subterm_of_optional(left: &Expression, o: &Option<Expression>) -> (r: bool)
    requires
        optional_view(*o) matches Some(t) ==> subterm_search_fits(left@, t),
    ensures
        r == (optional_view(*o) matches Some(t) && is_inclusive_subterm(left@, t)),
    decreases o,
{
    match o {
        Some(e) => is_left_inclusive_subterm_of_right(left, e),
        None => false,
    }
}

fn is_left_inclusive_subterm_of_any_assertion(left: &Expression, v: &Vec<CheckAssertion>) -> (r: bool)
    requires
        forall|i: int|
            0 <= i < v@.len() ==> {
                &&& ((#[trigger] assertions_view(v@)[i]).left matches Some(l) ==> subterm_search_fits(left@, l))
                &&& (assertions_view(v@)[i].right matches Some(r) ==> subterm_search_fits(left@, r))
            },
    ensures
        r == exists|i: int|
            0 <= i < v@.len() && {
                ||| (#[trigger] assertions_view(v@)[i]).left matches Some(l) && is_inclusive_subterm(left@, l)
                ||| assertions_view(v@)[i].right matches Some(r) && is_inclusive_subterm(left@, r)
            },
    decreases v,
{
    let mut i: usize = 0;
    while i < v.len()
        invariant
            i <= v.len(),
            forall|k: int|
                0 <= k < v@.len() ==> {
                    &&& ((#[trigger] assertions_view(v@)[k]).left matches Some(l) ==> subterm_search_fits(left@, l))
                    &&& (assertions_view(v@)[k].right matches Some(r) ==> subterm_search_fits(left@, r))
                },
            forall|k: int|
                0 <= k < i ==> !{
                    ||| (#[trigger] assertions_view(v@)[k]).left matches Some(l) && is_inclusive_subterm(left@, l)
                    ||| assertions_view(v@)[k].right matches Some(r) && is_inclusive_subterm(left@, r)
                },
        decreases v.len() - i,
    {
        let ghost a = assertions_view(v@)[i as int];
        assert(a == crate::ast::assertion_view(v@[i as int]));
        if is_left_inclusive_subterm_of_optional(left, &v[i].left) {
            return true;
        }
        if is_left_inclusive_subterm_of_optional(left, &v[i].right) {
            return true;
        }
        i += 1;
    }
    false
}


/// Every expression is an inclusive subterm of itself.
pub proof fn lemma_inclusive_subterm_is_reflexive(t: Term)
    ensures
        is_inclusive_subterm(t, t),
{
}

}
