//! What the recursion check gives back: the expression with each check
//! assertion side that holds illegal recursion marked invalid.

use vstd::prelude::*;
use crate::ast::{
    DbIndex, Term, ArgList, LabeledArg, ParamTerm, CaseTerm, AssertionTerm, Expression, Call,
    CallArgList, LabeledCallArg, Param, Fun, Match, MatchCase, Forall, Check, CheckAssertion,
    FunRecursionErrorView, IllegalFunRecursionExpression, exprs_view, labeled_args_view, params_view,
    cases_view, assertions_view, optional_view, invalid_view, copy_identifier, copy_identifiers,
    copy_optional_identifier,
};
use crate::equality::{copy_expression, copy_invalid_side, copy_name_expression};
use crate::fun_recursion::{
    push_n, well_scoped, validate_term, fun_restriction, case_entry, matchee_entry, lemma_push_n_wf,
    lemma_push_n_step, check_fun_recursion_in_expression, fun_reference_restriction,
};
use crate::fun_recursion_context::{Context, ContextEntry, stack_wf};

verus! {

// ---------------------------------------------------------------------
// The model
// ---------------------------------------------------------------------

/// `t`, in a context `s`, with every check assertion side that is an
/// expression with illegal recursion marked invalid (it keeps the
/// expression and the error), and every other side marked in its turn.
/// Sides already marked invalid, `goal` and `?` stay as they are.
pub open spec fn mark_term(s: Seq<ContextEntry>, t: Term) -> Term
    decreases t,
{
    match t {
        Term::Name { .. } => t,
        Term::Call { callee, args } => Term::Call { callee: Box::new(mark_term(s, *callee)), args: mark_args(s, args) },
        Term::Fun { name, params, return_type, body, skip_type_checking_body } => Term::Fun {
            name,
            params: mark_params(s, params),
            return_type: Box::new(mark_term(push_n(s, params.len(), ContextEntry::NoInformation), *return_type)),
            body: Box::new(
                mark_term(
                    push_n(s, params.len(), ContextEntry::NoInformation).push(
                        ContextEntry::Fun(fun_restriction(s.len(), params)),
                    ),
                    *body,
                ),
            ),
            skip_type_checking_body,
        },
        Term::Match { matchee, cases } => Term::Match {
            matchee: Box::new(mark_term(s, *matchee)),
            cases: mark_cases(s, cases, case_entry(s, *matchee)),
        },
        Term::Forall { params, output } => Term::Forall {
            params: mark_params(s, params),
            output: Box::new(mark_term(push_n(s, params.len(), ContextEntry::NoInformation), *output)),
        },
        Term::Check { assertions, output } => Term::Check {
            assertions: mark_assertions(s, assertions),
            output: Box::new(mark_term(s, *output)),
        },
    }
}

pub open spec fn mark_args(s: Seq<ContextEntry>, a: ArgList) -> ArgList
    decreases a,
{
    match a {
        ArgList::Unlabeled(ts) => ArgList::Unlabeled(mark_terms(s, ts)),
        ArgList::Labeled(ls) => ArgList::Labeled(mark_labeled_args(s, ls)),
    }
}

pub open spec fn mark_terms(s: Seq<ContextEntry>, ts: Seq<Term>) -> Seq<Term>
    decreases ts,
{
    Seq::new(ts.len(), |i: int| if 0 <= i < ts.len() { mark_term(s, ts[i]) } else { ts[i] })
}

pub open spec fn mark_labeled_arg(s: Seq<ContextEntry>, a: LabeledArg) -> LabeledArg
    decreases a,
{
    match a {
        LabeledArg::Implicit { .. } => a,
        LabeledArg::Explicit { label, value } => LabeledArg::Explicit { label, value: mark_term(s, value) },
    }
}

pub open spec fn mark_labeled_args(s: Seq<ContextEntry>, ls: Seq<LabeledArg>) -> Seq<LabeledArg>
    decreases ls,
{
    Seq::new(ls.len(), |i: int| if 0 <= i < ls.len() { mark_labeled_arg(s, ls[i]) } else { ls[i] })
}

/// The `i`-th parameter type is in the scope of the `i` parameters before it.
pub open spec fn mark_params(s: Seq<ContextEntry>, ps: Seq<ParamTerm>) -> Seq<ParamTerm>
    decreases ps,
{
    Seq::new(
        ps.len(),
        |i: int|
            if 0 <= i < ps.len() {
                ParamTerm { type_: mark_term(push_n(s, i as nat, ContextEntry::NoInformation), ps[i].type_), ..ps[i] }
            } else {
                ps[i]
            },
    )
}

pub open spec fn mark_cases(s: Seq<ContextEntry>, cs: Seq<CaseTerm>, e: ContextEntry) -> Seq<CaseTerm>
    decreases cs,
{
    Seq::new(
        cs.len(),
        |i: int|
            if 0 <= i < cs.len() {
                CaseTerm { output: mark_term(push_n(s, cs[i].params.len(), e), cs[i].output), ..cs[i] }
            } else {
                cs[i]
            },
    )
}

pub open spec fn mark_assertions(s: Seq<ContextEntry>, xs: Seq<AssertionTerm>) -> Seq<AssertionTerm>
    decreases xs,
{
    Seq::new(
        xs.len(),
        |i: int|
            if 0 <= i < xs.len() {
                AssertionTerm {
                    kind: xs[i].kind,
                    left: mark_side(s, xs[i].left),
                    right: mark_side(s, xs[i].right),
                    left_invalid: mark_invalid(s, xs[i].left, xs[i].left_invalid),
                    right_invalid: mark_invalid(s, xs[i].right, xs[i].right_invalid),
                }
            } else {
                xs[i]
            },
    )
}

/// A side without illegal recursion stays an expression, itself marked.
pub open spec fn mark_side(s: Seq<ContextEntry>, o: Option<Term>) -> Option<Term>
    decreases o,
{
    match o {
        Some(e) => if validate_term(s, e) is Ok {
            Some(mark_term(s, e))
        } else {
            None
        },
        None => None,
    }
}

/// A side with illegal recursion becomes invalid, with its expression and
/// the first illegal recursion in it.
pub open spec fn mark_invalid(
    s: Seq<ContextEntry>,
    o: Option<Term>,
    inv: Option<(Term, FunRecursionErrorView)>,
) -> Option<(Term, FunRecursionErrorView)> {
    match o {
        Some(e) => match validate_term(s, e) {
            Ok(()) => inv,
            Err(err) => Some((e, err)),
        },
        None => inv,
    }
}

// ---------------------------------------------------------------------
// Marking
// ---------------------------------------------------------------------

pub(crate) fn mark_expression(context: &mut Context, e: &Expression) -> (r: Expression)
    requires
        stack_wf(old(context)@),
        well_scoped(e@, old(context)@.len()),
    ensures
        final(context)@ == old(context)@,
        r@ == mark_term(old(context)@, e@),
    decreases e,
{
    match e {
        Expression::Name(n) => Expression::Name(copy_name_expression(n)),
        Expression::Call(c) => {
            let callee = mark_expression(context, &c.callee);
            let args = mark_call_args(context, &c.args);
            Expression::Call(Box::new(Call { callee, args }))
        },
        Expression::Fun(f) => mark_fun(context, f),
        Expression::Match(m) => mark_match(context, m),
        Expression::Forall(f) => {
            let ghost s0 = context@;
            let arity = f.params.len();
            let params = mark_params_and_leave_in_context(context, &f.params);
            proof { lemma_push_n_wf(s0, arity as nat, ContextEntry::NoInformation); }
            let output = mark_expression(context, &f.output);
            context.pop_n(arity);
            assert(context@ =~= s0);
            Expression::Forall(Box::new(Forall { params, output }))
        },
        Expression::Check(c) => {
            let assertions = mark_check_assertions(context, &c.assertions);
            let output = mark_expression(context, &c.output);
            Expression::Check(Box::new(Check { assertions, output }))
        },
    }
}

fn mark_call_args(context: &mut Context, a: &CallArgList) -> (r: CallArgList)
    requires
        stack_wf(old(context)@),
        match a@ {
            ArgList::Unlabeled(ts) => forall|i: int| 0 <= i < ts.len() ==> well_scoped(#[trigger] ts[i], old(context)@.len()),
            ArgList::Labeled(ls) => forall|i: int|
                0 <= i < ls.len() ==> match #[trigger] ls[i] {
                    LabeledArg::Implicit { .. } => true,
                    LabeledArg::Explicit { value, .. } => well_scoped(value, old(context)@.len()),
                },
        },
    ensures
        final(context)@ == old(context)@,
        r@ == mark_args(old(context)@, a@),
    decreases a,
{
    match a {
        CallArgList::Unlabeled(v) => CallArgList::Unlabeled(mark_expressions(context, v)),
        CallArgList::UniquelyLabeled(v) => CallArgList::UniquelyLabeled(mark_labeled_call_args(context, v)),
    }
}

fn mark_expressions(context: &mut Context, v: &Vec<Expression>) -> (r: Vec<Expression>)
    requires
        stack_wf(old(context)@),
        forall|i: int| 0 <= i < v@.len() ==> well_scoped(#[trigger] exprs_view(v@)[i], old(context)@.len()),
    ensures
        final(context)@ == old(context)@,
        exprs_view(r@) == mark_terms(old(context)@, exprs_view(v@)),
    decreases v,
{
    let ghost s0 = context@;
    let ghost vv = exprs_view(v@);
    let mut out: Vec<Expression> = Vec::new();
    let mut i: usize = 0;
    while i < v.len()
        invariant
            i <= v.len(),
            context@ == s0,
            stack_wf(s0),
            vv == exprs_view(v@),
            forall|k: int| 0 <= k < vv.len() ==> well_scoped(#[trigger] vv[k], s0.len()),
            out@.len() == i,
            forall|k: int| 0 <= k < i ==> (#[trigger] out@[k])@ == mark_term(s0, vv[k]),
        decreases v.len() - i,
    {
        assert(vv[i as int] == v@[i as int]@);
        let x = mark_expression(context, &v[i]);
        out.push(x);
        i += 1;
    }
    assert(exprs_view(out@) =~= mark_terms(s0, vv));
    out
}

fn mark_labeled_call_arg(context: &mut Context, a: &LabeledCallArg) -> (r: LabeledCallArg)
    requires
        stack_wf(old(context)@),
        a@ matches LabeledArg::Explicit { value, .. } ==> well_scoped(value, old(context)@.len()),
    ensures
        final(context)@ == old(context)@,
        r@ == mark_labeled_arg(old(context)@, a@),
    decreases a,
{
    match a {
        LabeledCallArg::Implicit { label, db_index } => LabeledCallArg::Implicit { label: copy_identifier(label), db_index: *db_index },
        LabeledCallArg::Explicit { label, value } => LabeledCallArg::Explicit {
            label: copy_identifier(label),
            value: mark_expression(context, value),
        },
    }
}

fn mark_labeled_call_args(context: &mut Context, v: &Vec<LabeledCallArg>) -> (r: Vec<LabeledCallArg>)
    requires
        stack_wf(old(context)@),
        forall|i: int|
            0 <= i < v@.len() ==> match #[trigger] labeled_args_view(v@)[i] {
                LabeledArg::Implicit { .. } => true,
                LabeledArg::Explicit { value, .. } => well_scoped(value, old(context)@.len()),
            },
    ensures
        final(context)@ == old(context)@,
        labeled_args_view(r@) == mark_labeled_args(old(context)@, labeled_args_view(v@)),
    decreases v,
{
    let ghost s0 = context@;
    let ghost vv = labeled_args_view(v@);
    let mut out: Vec<LabeledCallArg> = Vec::new();
    let mut i: usize = 0;
    while i < v.len()
        invariant
            i <= v.len(),
            context@ == s0,
            stack_wf(s0),
            vv == labeled_args_view(v@),
            forall|k: int|
                0 <= k < vv.len() ==> match #[trigger] vv[k] {
                    LabeledArg::Implicit { .. } => true,
                    LabeledArg::Explicit { value, .. } => well_scoped(value, s0.len()),
                },
            out@.len() == i,
            forall|k: int| 0 <= k < i ==> (#[trigger] out@[k])@ == mark_labeled_arg(s0, vv[k]),
        decreases v.len() - i,
    {
        assert(vv[i as int] == v@[i as int]@);
        let x = mark_labeled_call_arg(context, &v[i]);
        out.push(x);
        i += 1;
    }
    assert(labeled_args_view(out@) =~= mark_labeled_args(s0, vv));
    out
}

/// Marks the parameter types, and leaves an entry of nothing known for
/// each parameter on the context.
pub(crate) fn mark_params_and_leave_in_context(context: &mut Context, v: &Vec<Param>) -> (r: Vec<Param>)
    requires
        stack_wf(old(context)@),
        forall|i: int| 0 <= i < v@.len() ==> well_scoped(#[trigger] params_view(v@)[i].type_, old(context)@.len() + i as nat),
    ensures
        final(context)@ == push_n(old(context)@, v@.len(), ContextEntry::NoInformation),
        params_view(r@) == mark_params(old(context)@, params_view(v@)),
    decreases v,
{
    let ghost s0 = context@;
    let ghost vv = params_view(v@);
    let mut out: Vec<Param> = Vec::new();
    let mut i: usize = 0;
    assert(push_n(s0, 0, ContextEntry::NoInformation) =~= s0);
    while i < v.len()
        invariant
            i <= v.len(),
            stack_wf(s0),
            vv == params_view(v@),
            forall|k: int| 0 <= k < vv.len() ==> well_scoped(#[trigger] vv[k].type_, s0.len() + k as nat),
            context@ == push_n(s0, i as nat, ContextEntry::NoInformation),
            out@.len() == i,
            forall|k: int|
                0 <= k < i ==> (#[trigger] out@[k])@ == (ParamTerm {
                    type_: mark_term(push_n(s0, k as nat, ContextEntry::NoInformation), vv[k].type_),
                    ..vv[k]
                }),
        decreases v.len() - i,
    {
        proof { lemma_push_n_wf(s0, i as nat, ContextEntry::NoInformation); }
        assert(vv[i as int] == v@[i as int]@);
        assert(vv[i as int].type_ == v@[i as int].type_@);
        let p = &v[i];
        let t = mark_expression(context, &p.type_);
        out.push(Param {
            label: copy_optional_identifier(&p.label),
            is_dashed: p.is_dashed,
            name: copy_identifier(&p.name),
            type_: t,
        });
        let _pushed = context.push(ContextEntry::NoInformation);
        proof { lemma_push_n_step(s0, i as nat, ContextEntry::NoInformation); }
        i += 1;
    }
    assert(params_view(out@) =~= mark_params(s0, vv));
    out
}

fn mark_fun(context: &mut Context, fun: &Fun) -> (r: Expression)
    requires
        stack_wf(old(context)@),
        well_scoped(Expression::Fun(Box::new(*fun))@, old(context)@.len()),
    ensures
        final(context)@ == old(context)@,
        r@ == mark_term(old(context)@, Expression::Fun(Box::new(*fun))@),
    decreases fun,
{
    let ghost s0 = context@;
    let ghost pv = params_view(fun.params@);
    let arity = fun.params.len();
    assert(pv.len() == arity);
    let params = mark_params_and_leave_in_context(context, &fun.params);
    proof { lemma_push_n_wf(s0, arity as nat, ContextEntry::NoInformation); }
    let ghost s1 = context@;
    let return_type = mark_expression(context, &fun.return_type);
    let restriction = fun_reference_restriction(context, &fun.params);
    let _pushed = context.push(ContextEntry::Fun(restriction));
    let ghost s2 = context@;
    assert(stack_wf(s2)) by {
        assert forall|i: int| 0 <= i < s2.len() implies ((#[trigger] s2[i]) matches ContextEntry::Substruct { superstruct_db_level } ==> superstruct_db_level.0 < i) by {
            if i < s1.len() {
                assert(s2[i] == s1[i]);
            }
        }
    }
    let body = mark_expression(context, &fun.body);
    let total = context.len();
    assert(arity + 1 <= total);
    context.pop_n(arity + 1);
    assert(context@ =~= s0);
    Expression::Fun(Box::new(Fun {
        name: copy_identifier(&fun.name),
        params,
        return_type,
        body,
        skip_type_checking_body: fun.skip_type_checking_body,
    }))
}

fn mark_match(context: &mut Context, match_: &Match) -> (r: Expression)
    requires
        stack_wf(old(context)@),
        well_scoped(Expression::Match(Box::new(*match_))@, old(context)@.len()),
    ensures
        final(context)@ == old(context)@,
        r@ == mark_term(old(context)@, Expression::Match(Box::new(*match_))@),
    decreases match_,
{
    let ghost s0 = context@;
    assert(well_scoped(match_.matchee@, s0.len()));
    let matchee = mark_expression(context, &match_.matchee);
    let matchee_db_index = match &match_.matchee {
        Expression::Name(n) => Some(n.db_index),
        _ => None,
    };
    assert(matchee_entry(s0, matchee_db_index) == case_entry(s0, match_.matchee@));
    let entry = match matchee_db_index {
        Some(idx) => ContextEntry::Substruct { superstruct_db_level: context.index_to_level(idx) },
        None => ContextEntry::NoInformation,
    };
    assert(entry == case_entry(s0, match_.matchee@));
    let cases = mark_cases_exec(context, &match_.cases, entry);
    Expression::Match(Box::new(Match { matchee, cases }))
}

fn mark_cases_exec(context: &mut Context, v: &Vec<MatchCase>, entry: ContextEntry) -> (r: Vec<MatchCase>)
    requires
        stack_wf(old(context)@),
        entry matches ContextEntry::Substruct { superstruct_db_level } ==> superstruct_db_level.0 < old(context)@.len(),
        forall|k: int| 0 <= k < v@.len() ==> well_scoped((#[trigger] cases_view(v@)[k]).output, old(context)@.len() + cases_view(v@)[k].params.len()),
    ensures
        final(context)@ == old(context)@,
        cases_view(r@) == mark_cases(old(context)@, cases_view(v@), entry),
    decreases v,
{
    let ghost s0 = context@;
    let ghost cv = cases_view(v@);
    let mut out: Vec<MatchCase> = Vec::new();
    let mut i: usize = 0;
    while i < v.len()
        invariant
            i <= v.len(),
            context@ == s0,
            stack_wf(s0),
            entry matches ContextEntry::Substruct { superstruct_db_level } ==> superstruct_db_level.0 < s0.len(),
            cv == cases_view(v@),
            forall|k: int| 0 <= k < cv.len() ==> well_scoped((#[trigger] cv[k]).output, s0.len() + cv[k].params.len()),
            out@.len() == i,
            forall|k: int|
                0 <= k < i ==> (#[trigger] out@[k])@ == (CaseTerm {
                    output: mark_term(push_n(s0, cv[k].params.len(), entry), cv[k].output),
                    ..cv[k]
                }),
        decreases v.len() - i,
    {
        assert(cv[i as int] == v@[i as int]@);
        let x = mark_case(context, &v[i], entry);
        out.push(x);
        i += 1;
    }
    assert(cases_view(out@) =~= mark_cases(s0, cv, entry));
    out
}

fn mark_case(context: &mut Context, c: &MatchCase, entry: ContextEntry) -> (r: MatchCase)
    requires
        stack_wf(old(context)@),
        entry matches ContextEntry::Substruct { superstruct_db_level } ==> superstruct_db_level.0 < old(context)@.len(),
        well_scoped(c@.output, old(context)@.len() + c@.params.len()),
    ensures
        final(context)@ == old(context)@,
        r@ == (CaseTerm { output: mark_term(push_n(old(context)@, c@.params.len(), entry), c@.output), ..c@ }),
    decreases c,
{
    let ghost s0 = context@;
    let arity = c.params.len();
    assert(c@.params.len() == arity);
    let mut j: usize = 0;
    assert(push_n(s0, 0, entry) =~= s0);
    while j < arity
        invariant
            j <= arity,
            stack_wf(s0),
            entry matches ContextEntry::Substruct { superstruct_db_level } ==> superstruct_db_level.0 < s0.len(),
            context@ == push_n(s0, j as nat, entry),
        decreases arity - j,
    {
        let _pushed = context.push(entry);
        proof { lemma_push_n_step(s0, j as nat, entry); }
        j += 1;
    }
    proof { lemma_push_n_wf(s0, arity as nat, entry); }
    let output = mark_expression(context, &c.output);
    context.pop_n(arity);
    assert(context@ =~= s0);
    MatchCase { variant_name: copy_identifier(&c.variant_name), params: copy_identifiers(&c.params), output }
}

fn mark_check_assertions(context: &mut Context, v: &Vec<CheckAssertion>) -> (r: Vec<CheckAssertion>)
    requires
        stack_wf(old(context)@),
        forall|i: int|
            0 <= i < v@.len() ==> {
                &&& ((#[trigger] assertions_view(v@)[i]).left matches Some(l) ==> well_scoped(l, old(context)@.len()))
                &&& (assertions_view(v@)[i].right matches Some(r) ==> well_scoped(r, old(context)@.len()))
            },
    ensures
        final(context)@ == old(context)@,
        assertions_view(r@) == mark_assertions(old(context)@, assertions_view(v@)),
    decreases v,
{
    let ghost s0 = context@;
    let ghost xv = assertions_view(v@);
    let mut out: Vec<CheckAssertion> = Vec::new();
    let mut i: usize = 0;
    while i < v.len()
        invariant
            i <= v.len(),
            context@ == s0,
            stack_wf(s0),
            xv == assertions_view(v@),
            forall|k: int|
                0 <= k < xv.len() ==> {
                    &&& ((#[trigger] xv[k]).left matches Some(l) ==> well_scoped(l, s0.len()))
                    &&& (xv[k].right matches Some(r) ==> well_scoped(r, s0.len()))
                },
            out@.len() == i,
            forall|k: int| 0 <= k < i ==> (#[trigger] out@[k])@ == mark_assertions(s0, xv)[k],
        decreases v.len() - i,
    {
        assert(xv[i as int] == v@[i as int]@);
        let a = &v[i];
        let (left, left_invalid) = mark_side_exec(context, &a.left, &a.left_invalid);
        let (right, right_invalid) = mark_side_exec(context, &a.right, &a.right_invalid);
        let x = CheckAssertion { kind: a.kind, left, right, left_invalid, right_invalid };
        out.push(x);
        i += 1;
    }
    assert(assertions_view(out@) =~= mark_assertions(s0, xv));
    out
}

fn mark_side_exec(
    context: &mut Context,
    o: &Option<Expression>,
    inv: &Option<IllegalFunRecursionExpression>,
) -> (r: (Option<Expression>, Option<IllegalFunRecursionExpression>))
    requires
        stack_wf(old(context)@),
        optional_view(*o) matches Some(t) ==> well_scoped(t, old(context)@.len()),
    ensures
        final(context)@ == old(context)@,
        optional_view(r.0) == mark_side(old(context)@, optional_view(*o)),
        invalid_view(r.1) == mark_invalid(old(context)@, optional_view(*o), invalid_view(*inv)),
    decreases o,
{
    match o {
        Some(e) => match check_fun_recursion_in_expression(context, e) {
            Ok(()) => (Some(mark_expression(context, e)), copy_invalid_side(inv)),
            Err(error) => (None, Some(IllegalFunRecursionExpression { expression: copy_expression(e), error })),
        },
        None => (None, copy_invalid_side(inv)),
    }
}

}
