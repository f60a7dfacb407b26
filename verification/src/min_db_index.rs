//! The smallest free De Bruijn index of an expression.

use vstd::prelude::*;
use crate::ast::{
    DbIndex, Term, ArgList, LabeledArg, ParamTerm, CaseTerm, AssertionTerm, Expression,
    NameExpression, CallArgList, LabeledCallArg, Param, MatchCase, CheckAssertion, Call, Fun, Match,
    Forall, Check, exprs_view, labeled_args_view, params_view, cases_view, assertions_view,
    optional_view,
};
use crate::shift::{DownshiftFn, term_fits, optional_fits, index_fits};

verus! {

/// The minimum of a set of De Bruijn indices, where the empty set has the
/// minimum `Infinity`.
#[derive(Clone, Copy, Debug, PartialEq, Eq, Structural)]
pub enum MinDbIndex {
    Infinity,
    Finite(DbIndex),
}

impl View for MinDbIndex {
    type V = Option<nat>;

    open spec fn view(&self) -> Option<nat> {
        match self {
            MinDbIndex::Infinity => None,
            MinDbIndex::Finite(i) => Some(i.0 as nat),
        }
    }
}

/// The minimum of two values, where `None` stands for infinity.
pub open spec fn opt_min(a: Option<nat>, b: Option<nat>) -> Option<nat> {
    match (a, b) {
        (None, _) => b,
        (_, None) => a,
        (Some(x), Some(y)) => Some(if x <= y { x } else { y }),
    }
}

/// Every cutoff that a traversal of `t` starting at `c` computes fits in a `usize`.
pub open spec fn cutoffs_fit(t: Term, c: nat) -> bool {
    term_fits(t, DownshiftFn(0), c)
}

/// The smallest index among the names of `t` that are free at cutoff `c`,
/// measured from `c`.
pub open spec fn min_index_term(t: Term, c: nat) -> Option<nat>
    decreases t,
{
    match t {
        Term::Name { index, .. } => if index >= c { Some((index - c) as nat) } else { None },
        Term::Call { callee, args } => opt_min(min_index_term(*callee, c), min_index_arg_list(args, c)),
        Term::Fun { params, return_type, body, .. } => opt_min(
            opt_min(min_index_term(*return_type, c + params.len()), min_index_term(*body, c + params.len() + 1)),
            min_index_params(params, c),
        ),
        Term::Match { matchee, cases } => opt_min(min_index_term(*matchee, c), min_index_cases(cases, c)),
        Term::Forall { params, output } => opt_min(min_index_term(*output, c + params.len()), min_index_params(params, c)),
        Term::Check { assertions, output } => opt_min(min_index_assertions(assertions, c), min_index_term(*output, c)),
    }
}

pub open spec fn min_index_arg_list(a: ArgList, c: nat) -> Option<nat>
    decreases a,
{
    match a {
        ArgList::Unlabeled(ts) => min_index_terms(ts, c),
        ArgList::Labeled(ls) => min_index_labeled_args(ls, c),
    }
}

pub open spec fn min_index_terms(ts: Seq<Term>, c: nat) -> Option<nat>
    decreases ts,
{
    if ts.len() == 0 {
        None
    } else {
        opt_min(min_index_terms(ts.drop_last(), c), min_index_term(ts.last(), c))
    }
}

pub open spec fn min_index_labeled_arg(a: LabeledArg, c: nat) -> Option<nat>
    decreases a,
{
    match a {
        LabeledArg::Implicit { index, .. } => if index >= c { Some((index - c) as nat) } else { None },
        LabeledArg::Explicit { value, .. } => min_index_term(value, c),
    }
}

pub open spec fn min_index_labeled_args(ls: Seq<LabeledArg>, c: nat) -> Option<nat>
    decreases ls,
{
    if ls.len() == 0 {
        None
    } else {
        opt_min(min_index_labeled_args(ls.drop_last(), c), min_index_labeled_arg(ls.last(), c))
    }
}

pub open spec fn min_index_params(ps: Seq<ParamTerm>, c: nat) -> Option<nat>
    decreases ps,
{
    if ps.len() == 0 {
        None
    } else {
        opt_min(min_index_params(ps.drop_last(), c), min_index_term(ps.last().type_, (c + ps.len() - 1) as nat))
    }
}

pub open spec fn min_index_cases(cs: Seq<CaseTerm>, c: nat) -> Option<nat>
    decreases cs,
{
    if cs.len() == 0 {
        None
    } else {
        opt_min(min_index_cases(cs.drop_last(), c), min_index_term(cs.last().output, c + cs.last().params.len()))
    }
}

pub open spec fn min_index_optional(o: Option<Term>, c: nat) -> Option<nat>
    decreases o,
{
    match o {
        Some(t) => min_index_term(t, c),
        None => None,
    }
}

pub open spec fn min_index_assertions(xs: Seq<AssertionTerm>, c: nat) -> Option<nat>
    decreases xs,
{
    if xs.len() == 0 {
        None
    } else {
        opt_min(
            min_index_assertions(xs.drop_last(), c),
            opt_min(min_index_optional(xs.last().left, c), min_index_optional(xs.last().right, c)),
        )
    }
}

impl MinDbIndex {
    /// The smaller of the two.
    pub fn min(self, other: MinDbIndex) -> (r: MinDbIndex)
        ensures
            r@ == opt_min(self@, other@),
    {
        match (self, other) {
            (MinDbIndex::Infinity, _) => other,
            (_, MinDbIndex::Infinity) => self,
            (MinDbIndex::Finite(a), MinDbIndex::Finite(b)) => if a.0 <= b.0 { self } else { other },
        }
    }

    /// Panics at infinity.
    pub fn expect(self, message: &str) -> (r: DbIndex)
        requires
            self@ is Some,
        ensures
            self@ == Some(r.0 as nat),
    {
        match self.into_option() {
            Some(i) => i,
            None => vstd::pervasive::unreached(),
        }
    }

    pub fn into_option(self) -> (r: Option<DbIndex>)
        ensures
            self@ is None <==> r is None,
            r matches Some(i) ==> self@ == Some(i.0 as nat),
    {
        match self {
            MinDbIndex::Infinity => None,
            MinDbIndex::Finite(db_index) => Some(db_index),
        }
    }
}

/// `first` if there is no second value, else the smaller of the two.
pub fn min_or_first(first: MinDbIndex, second: Option<MinDbIndex>) -> (r: MinDbIndex)
    ensures
        r@ == match second {
            Some(s) => opt_min(first@, s@),
            None => first@,
        },
{
    match second {
        Some(second) => first.min(second),
        None => first,
    }
}

/// The smallest free index of `e`; every expression has one, since the
/// leftmost name of an expression is outside all of its binders.
pub fn min_free_db_index_in_expression(e: &Expression) -> (r: DbIndex)
    requires
        cutoffs_fit(e@, 0),
    ensures
        min_index_term(e@, 0) == Some(r.0 as nat),
{
    proof {
        lemma_min_index_at_own_cutoff_exists(e@, 0);
    }
    min_db_index_in_expression_relative_to_cutoff(e, 0).expect("Nothing is less than zero.")
}

/// The leftmost name of a term is outside all of its binders, so the term's
/// minimum free index at cutoff zero exists.
pub proof fn lemma_min_index_at_own_cutoff_exists(t: Term, c: nat)
    requires
        c == 0,
    ensures
        min_index_term(t, c) is Some,
    decreases t,
{
    match t {
        Term::Name { .. } => {},
        Term::Call { callee, .. } => lemma_min_index_at_own_cutoff_exists(*callee, c),
        Term::Fun { params, return_type, body, .. } => {
            if params.len() == 0 {
                lemma_min_index_at_own_cutoff_exists(*return_type, c + params.len());
            } else {
                lemma_min_index_params_exists(params, c);
            }
        },
        Term::Match { matchee, .. } => lemma_min_index_at_own_cutoff_exists(*matchee, c),
        Term::Forall { params, output } => {
            if params.len() == 0 {
                lemma_min_index_at_own_cutoff_exists(*output, c + params.len());
            } else {
                lemma_min_index_params_exists(params, c);
            }
        },
        Term::Check { output, .. } => lemma_min_index_at_own_cutoff_exists(*output, c),
    }
}


proof fn lemma_min_index_params_exists(ps: Seq<ParamTerm>, c: nat)
    requires
        ps.len() > 0,
        c == 0,
    ensures
        min_index_params(ps, c) is Some,
    decreases ps,
{
    if ps.len() == 1 {
        lemma_min_index_at_own_cutoff_exists(ps.last().type_, c);
    } else {
        lemma_min_index_params_exists(ps.drop_last(), c);
    }
}


// ---------------------------------------------------------------------
// Executable minimum
// ---------------------------------------------------------------------

/// The view of the minimum of a possibly empty list: `None` for an empty
/// list, like infinity.
pub open spec fn min_of_list_view(o: Option<MinDbIndex>) -> Option<nat> {
    match o {
        Some(m) => m@,
        None => None,
    }
}

fn fold_min(acc: Option<MinDbIndex>, m: MinDbIndex) -> (r: Option<MinDbIndex>)
    ensures
        r is Some,
        min_of_list_view(r) == match acc {
            None => m@,
            Some(a) => opt_min(a@, m@),
        },
{
    match acc {
        None => Some(m),
        Some(a) => Some(a.min(m)),
    }
}

pub fn min_db_index_in_expression_relative_to_cutoff(e: &Expression, cutoff: usize) -> (r: MinDbIndex)
    requires
        cutoffs_fit(e@, cutoff as nat),
    ensures
        r@ == min_index_term(e@, cutoff as nat),
    decreases e,
{
    match e {
        Expression::Name(n) => min_db_index_in_name_relative_to_cutoff(n, cutoff),
        Expression::Call(c) => min_db_index_in_call_relative_to_cutoff(c, cutoff),
        Expression::Fun(f) => min_db_index_in_fun_relative_to_cutoff(f, cutoff),
        Expression::Match(m) => min_db_index_in_match_relative_to_cutoff(m, cutoff),
        Expression::Forall(f) => min_db_index_in_forall_relative_to_cutoff(f, cutoff),
        Expression::Check(c) => min_db_index_in_check_relative_to_cutoff(c, cutoff),
    }
}

pub fn min_db_index_in_name_relative_to_cutoff(name: &NameExpression, cutoff: usize) -> (r: MinDbIndex)
    ensures
        r@ == min_index_term(name@, cutoff as nat),
{
    match name.db_index.0.checked_sub(cutoff) {
        Some(relative) => MinDbIndex::Finite(DbIndex(relative)),
        None => MinDbIndex::Infinity,
    }
}

pub fn min_db_index_in_call_relative_to_cutoff(call: &Call, cutoff: usize) -> (r: MinDbIndex)
    requires
        cutoffs_fit(Term::Call { callee: Box::new(call.callee@), args: call.args@ }, cutoff as nat),
    ensures
        r@ == min_index_term(Term::Call { callee: Box::new(call.callee@), args: call.args@ }, cutoff as nat),
    decreases call,
{
    let callee_min = min_db_index_in_expression_relative_to_cutoff(&call.callee, cutoff);
    let args_min = min_db_index_in_call_arg_list(&call.args, cutoff);
    min_or_first(callee_min, args_min)
}

fn min_db_index_in_call_arg_list(a: &CallArgList, cutoff: usize) -> (r: Option<MinDbIndex>)
    requires
        match a@ {
            ArgList::Unlabeled(ts) => forall|i: int| 0 <= i < ts.len() ==> term_fits(#[trigger] ts[i], DownshiftFn(0), cutoff as nat),
            ArgList::Labeled(ls) => forall|i: int|
                0 <= i < ls.len() ==> match #[trigger] ls[i] {
                    LabeledArg::Implicit { index, .. } => index_fits(DownshiftFn(0), index, cutoff as nat),
                    LabeledArg::Explicit { value, .. } => term_fits(value, DownshiftFn(0), cutoff as nat),
                },
        },
    ensures
        min_of_list_view(r) == min_index_arg_list(a@, cutoff as nat),
    decreases a,
{
    match a {
        CallArgList::Unlabeled(v) => min_db_index_in_expressions(v, cutoff),
        CallArgList::UniquelyLabeled(v) => min_db_index_in_labeled_call_args(v, cutoff),
    }
}

fn min_db_index_in_expressions(v: &Vec<Expression>, cutoff: usize) -> (r: Option<MinDbIndex>)
    requires
        forall|i: int| 0 <= i < v@.len() ==> term_fits(#[trigger] exprs_view(v@)[i], DownshiftFn(0), cutoff as nat),
    ensures
        min_of_list_view(r) == min_index_terms(exprs_view(v@), cutoff as nat),
        r is None <==> v@.len() == 0,
    decreases v,
{
    let ghost vv = exprs_view(v@);
    let mut acc: Option<MinDbIndex> = None;
    let mut i: usize = 0;
    assert(vv.take(0) =~= Seq::<Term>::empty());
    while i < v.len()
        invariant
            i <= v.len(),
            vv == exprs_view(v@),
            forall|k: int| 0 <= k < v@.len() ==> term_fits(#[trigger] exprs_view(v@)[k], DownshiftFn(0), cutoff as nat),
            min_of_list_view(acc) == min_index_terms(vv.take(i as int), cutoff as nat),
            acc is None <==> i == 0,
        decreases v.len() - i,
    {
        assert(vv.take(i + 1).drop_last() =~= vv.take(i as int));
        assert(vv[i as int] == v@[i as int]@);
        let m = min_db_index_in_expression_relative_to_cutoff(&v[i], cutoff);
        acc = fold_min(acc, m);
        i += 1;
    }
    assert(vv.take(v.len() as int) =~= vv);
    acc
}

fn min_db_index_in_labeled_call_args(v: &Vec<LabeledCallArg>, cutoff: usize) -> (r: Option<MinDbIndex>)
    requires
        forall|i: int|
            0 <= i < v@.len() ==> match #[trigger] labeled_args_view(v@)[i] {
                LabeledArg::Implicit { index, .. } => true,
                LabeledArg::Explicit { value, .. } => term_fits(value, DownshiftFn(0), cutoff as nat),
            },
    ensures
        min_of_list_view(r) == min_index_labeled_args(labeled_args_view(v@), cutoff as nat),
        r is None <==> v@.len() == 0,
    decreases v,
{
    let ghost vv = labeled_args_view(v@);
    let mut acc: Option<MinDbIndex> = None;
    let mut i: usize = 0;
    assert(vv.take(0) =~= Seq::<LabeledArg>::empty());
    while i < v.len()
        invariant
            i <= v.len(),
            vv == labeled_args_view(v@),
            forall|k: int|
                0 <= k < v@.len() ==> match #[trigger] labeled_args_view(v@)[k] {
                    LabeledArg::Implicit { index, .. } => true,
                    LabeledArg::Explicit { value, .. } => term_fits(value, DownshiftFn(0), cutoff as nat),
                },
            min_of_list_view(acc) == min_index_labeled_args(vv.take(i as int), cutoff as nat),
            acc is None <==> i == 0,
        decreases v.len() - i,
    {
        assert(vv.take(i + 1).drop_last() =~= vv.take(i as int));
        assert(vv[i as int] == v@[i as int]@);
        let m = min_db_index_in_labeled_call_arg(&v[i], cutoff);
        acc = fold_min(acc, m);
        i += 1;
    }
    assert(vv.take(v.len() as int) =~= vv);
    acc
}

fn min_db_index_in_labeled_call_arg(a: &LabeledCallArg, cutoff: usize) -> (r: MinDbIndex)
    requires
        match a@ {
            LabeledArg::Implicit { index, .. } => true,
            LabeledArg::Explicit { value, .. } => term_fits(value, DownshiftFn(0), cutoff as nat),
        },
    ensures
        r@ == min_index_labeled_arg(a@, cutoff as nat),
    decreases a,
{
    match a {
        LabeledCallArg::Implicit { db_index, .. } => match db_index.0.checked_sub(cutoff) {
            Some(relative) => MinDbIndex::Finite(DbIndex(relative)),
            None => MinDbIndex::Infinity,
        },
        LabeledCallArg::Explicit { value, .. } => min_db_index_in_expression_relative_to_cutoff(value, cutoff),
    }
}

/// The `i`-th parameter's type is searched with the cutoff raised by `i`.
fn min_db_index_in_params(v: &Vec<Param>, cutoff: usize) -> (r: Option<MinDbIndex>)
    requires
        cutoff + v@.len() <= usize::MAX,
        forall|i: int| 0 <= i < v@.len() ==> term_fits(#[trigger] params_view(v@)[i].type_, DownshiftFn(0), (cutoff + i) as nat),
    ensures
        min_of_list_view(r) == min_index_params(params_view(v@), cutoff as nat),
        r is None <==> v@.len() == 0,
    decreases v,
{
    let ghost vv = params_view(v@);
    let mut acc: Option<MinDbIndex> = None;
    let mut i: usize = 0;
    assert(vv.take(0) =~= Seq::<ParamTerm>::empty());
    while i < v.len()
        invariant
            i <= v.len(),
            cutoff + v@.len() <= usize::MAX,
            vv == params_view(v@),
            forall|k: int| 0 <= k < v@.len() ==> term_fits(#[trigger] params_view(v@)[k].type_, DownshiftFn(0), (cutoff + k) as nat),
            min_of_list_view(acc) == min_index_params(vv.take(i as int), cutoff as nat),
            acc is None <==> i == 0,
        decreases v.len() - i,
    {
        assert(vv.take(i + 1).drop_last() =~= vv.take(i as int));
        assert(vv[i as int] == v@[i as int]@);
        assert(term_fits(params_view(v@)[i as int].type_, DownshiftFn(0), (cutoff + i) as nat));
        let m = min_db_index_in_expression_relative_to_cutoff(&v[i].type_, cutoff + i);
        acc = fold_min(acc, m);
        i += 1;
    }
    assert(vv.take(v.len() as int) =~= vv);
    acc
}

pub fn min_db_index_in_fun_relative_to_cutoff(fun: &Fun, cutoff: usize) -> (r: MinDbIndex)
    requires
        cutoffs_fit(Expression::Fun(Box::new(*fun))@, cutoff as nat),
    ensures
        r@ == min_index_term(Expression::Fun(Box::new(*fun))@, cutoff as nat),
    decreases fun,
{
    let param_types_min = min_db_index_in_params(&fun.params, cutoff);
    let arity = fun.params.len();
    let return_type_min = min_db_index_in_expression_relative_to_cutoff(&fun.return_type, cutoff + arity);
    let body_min = min_db_index_in_expression_relative_to_cutoff(&fun.body, cutoff + arity + 1);
    min_or_first(return_type_min.min(body_min), param_types_min)
}

/// Each case's output is searched with the cutoff raised by the case's arity.
fn min_db_index_in_cases(v: &Vec<MatchCase>, cutoff: usize) -> (r: Option<MinDbIndex>)
    requires
        forall|i: int|
            0 <= i < v@.len() ==> cutoff + (#[trigger] cases_view(v@)[i]).params.len() <= usize::MAX
                && term_fits(cases_view(v@)[i].output, DownshiftFn(0), (cutoff + cases_view(v@)[i].params.len()) as nat),
    ensures
        min_of_list_view(r) == min_index_cases(cases_view(v@), cutoff as nat),
        r is None <==> v@.len() == 0,
    decreases v,
{
    let ghost vv = cases_view(v@);
    let mut acc: Option<MinDbIndex> = None;
    let mut i: usize = 0;
    assert(vv.take(0) =~= Seq::<CaseTerm>::empty());
    while i < v.len()
        invariant
            i <= v.len(),
            vv == cases_view(v@),
            forall|k: int|
                0 <= k < v@.len() ==> cutoff + (#[trigger] cases_view(v@)[k]).params.len() <= usize::MAX
                    && term_fits(cases_view(v@)[k].output, DownshiftFn(0), (cutoff + cases_view(v@)[k].params.len()) as nat),
            min_of_list_view(acc) == min_index_cases(vv.take(i as int), cutoff as nat),
            acc is None <==> i == 0,
        decreases v.len() - i,
    {
        assert(vv.take(i + 1).drop_last() =~= vv.take(i as int));
        assert(vv[i as int] == v@[i as int]@);
        let c = &v[i];
        assert(vv[i as int].params.len() == c.params@.len());
        let m = min_db_index_in_expression_relative_to_cutoff(&c.output, cutoff + c.params.len());
        acc = fold_min(acc, m);
        i += 1;
    }
    assert(vv.take(v.len() as int) =~= vv);
    acc
}

pub fn min_db_index_in_match_relative_to_cutoff(match_: &Match, cutoff: usize) -> (r: MinDbIndex)
    requires
        cutoffs_fit(Expression::Match(Box::new(*match_))@, cutoff as nat),
    ensures
        r@ == min_index_term(Expression::Match(Box::new(*match_))@, cutoff as nat),
    decreases match_,
{
    let matchee_min = min_db_index_in_expression_relative_to_cutoff(&match_.matchee, cutoff);
    let case_outputs_min = min_db_index_in_cases(&match_.cases, cutoff);
    min_or_first(matchee_min, case_outputs_min)
}

pub fn min_db_index_in_forall_relative_to_cutoff(forall: &Forall, cutoff: usize) -> (r: MinDbIndex)
    requires
        cutoffs_fit(Expression::Forall(Box::new(*forall))@, cutoff as nat),
    ensures
        r@ == min_index_term(Expression::Forall(Box::new(*forall))@, cutoff as nat),
    decreases forall,
{
    let param_types_min = min_db_index_in_params(&forall.params, cutoff);
    let output_min = min_db_index_in_expression_relative_to_cutoff(&forall.output, cutoff + forall.params.len());
    min_or_first(output_min, param_types_min)
}

/// A `goal` keyword or a `?` has no names: its minimum is infinity.
pub fn min_db_index_in_optional_expression_relative_to_cutoff(o: &Option<Expression>, cutoff: usize) -> (r: MinDbIndex)
    requires
        optional_fits(optional_view(*o), DownshiftFn(0), cutoff as nat),
    ensures
        r@ == min_index_optional(optional_view(*o), cutoff as nat),
    decreases o,
{
    match o {
        Some(e) => min_db_index_in_expression_relative_to_cutoff(e, cutoff),
        None => MinDbIndex::Infinity,
    }
}

fn min_db_index_in_assertions(v: &Vec<CheckAssertion>, cutoff: usize) -> (r: MinDbIndex)
    requires
        forall|i: int|
            0 <= i < v@.len() ==> optional_fits((#[trigger] assertions_view(v@)[i]).left, DownshiftFn(0), cutoff as nat)
                && optional_fits(assertions_view(v@)[i].right, DownshiftFn(0), cutoff as nat),
    ensures
        r@ == min_index_assertions(assertions_view(v@), cutoff as nat),
    decreases v,
{
    let ghost vv = assertions_view(v@);
    let mut acc = MinDbIndex::Infinity;
    let mut i: usize = 0;
    assert(vv.take(0) =~= Seq::<AssertionTerm>::empty());
    while i < v.len()
        invariant
            i <= v.len(),
            vv == assertions_view(v@),
            forall|k: int|
                0 <= k < v@.len() ==> optional_fits((#[trigger] assertions_view(v@)[k]).left, DownshiftFn(0), cutoff as nat)
                    && optional_fits(assertions_view(v@)[k].right, DownshiftFn(0), cutoff as nat),
            acc@ == min_index_assertions(vv.take(i as int), cutoff as nat),
        decreases v.len() - i,
    {
        assert(vv.take(i + 1).drop_last() =~= vv.take(i as int));
        assert(vv[i as int] == v@[i as int]@);
        let a = &v[i];
        let left_min = min_db_index_in_optional_expression_relative_to_cutoff(&a.left, cutoff);
        let right_min = min_db_index_in_optional_expression_relative_to_cutoff(&a.right, cutoff);
        acc = acc.min(left_min.min(right_min));
        i += 1;
    }
    assert(vv.take(v.len() as int) =~= vv);
    acc
}

pub fn min_db_index_in_check_relative_to_cutoff(check: &Check, cutoff: usize) -> (r: MinDbIndex)
    requires
        cutoffs_fit(Expression::Check(Box::new(*check))@, cutoff as nat),
    ensures
        r@ == min_index_term(Expression::Check(Box::new(*check))@, cutoff as nat),
    decreases check,
{
    let assertions_min = min_db_index_in_assertions(&check.assertions, cutoff);
    let output_min = min_db_index_in_expression_relative_to_cutoff(&check.output, cutoff);
    assertions_min.min(output_min)
}

}
