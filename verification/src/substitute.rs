//! Replacing every occurrence of one expression by another.

use vstd::prelude::*;
use crate::equality::copy_invalid_side;
use crate::ast::{
    Term, ArgList, LabeledArg, ParamTerm, CaseTerm, AssertionTerm, Expression, NameExpression,
    Call, CallArgList, LabeledCallArg, Param, Fun, Match, MatchCase, Forall, Check, CheckAssertion,
    exprs_view, labeled_args_view, params_view, cases_view, assertions_view, optional_view,
    copy_identifier, copy_identifiers, copy_optional_identifier,
};
use crate::equality::{expressions_equal, copy_expression};
use crate::shift::{UpshiftFn, DownshiftFn, DbIndexTooSmallForDownshiftError, shift_term, term_fits};
use crate::shift_trait::{ShiftDbIndices, upshift_term};

verus! {

/// Replace `from` by `to`.
#[derive(Debug)]
pub struct Substitution {
    pub from: Expression,
    pub to: Expression,
}

impl View for Substitution {
    type V = (Term, Term);

    open spec fn view(&self) -> (Term, Term) {
        (self.from@, self.to@)
    }
}

/// Whether a substitution left its target unchanged.
#[derive(Clone, Copy, Debug, PartialEq, Eq, Structural)]
pub struct WasSyntacticNoOp(pub bool);

/// `t` upshifted by `n` at cutoff zero.
pub open spec fn up(t: Term, n: nat) -> Term {
    upshift_term(t, n as usize, 0)
}

/// Whether the substitution replaces `t` as a whole.
pub open spec fn replaces(t: Term, from: Term, to: Term) -> bool {
    t == from && t != to
}

/// Substitution under binders shifts both sides of the substitution by
/// the number of variables the binder introduces.
pub open spec fn subst_term(t: Term, from: Term, to: Term) -> Term
    decreases t,
{
    if replaces(t, from, to) {
        to
    } else {
        match t {
            Term::Name { .. } => if t == from { to } else { t },
            Term::Call { callee, args } => Term::Call {
                callee: Box::new(subst_term(*callee, from, to)),
                args: subst_arg_list(args, from, to),
            },
            Term::Fun { name, params, return_type, body, skip_type_checking_body } => Term::Fun {
                name,
                params: subst_params(params, from, to),
                return_type: Box::new(subst_term(*return_type, up(from, params.len()), up(to, params.len()))),
                body: Box::new(subst_term(*body, up(from, params.len() + 1), up(to, params.len() + 1))),
                skip_type_checking_body,
            },
            Term::Match { matchee, cases } => Term::Match {
                matchee: Box::new(subst_term(*matchee, from, to)),
                cases: subst_cases(cases, from, to),
            },
            Term::Forall { params, output } => Term::Forall {
                params: subst_params(params, from, to),
                output: Box::new(subst_term(*output, up(from, params.len()), up(to, params.len()))),
            },
            Term::Check { assertions, output } => Term::Check {
                assertions: subst_assertions(assertions, from, to),
                output: Box::new(subst_term(*output, from, to)),
            },
        }
    }
}

pub open spec fn subst_arg_list(a: ArgList, from: Term, to: Term) -> ArgList
    decreases a,
{
    match a {
        ArgList::Unlabeled(ts) => ArgList::Unlabeled(subst_terms(ts, from, to)),
        ArgList::Labeled(ls) => ArgList::Labeled(subst_labeled_args(ls, from, to)),
    }
}

pub open spec fn subst_terms(ts: Seq<Term>, from: Term, to: Term) -> Seq<Term>
    decreases ts,
{
    Seq::new(ts.len(), |i: int| if 0 <= i < ts.len() { subst_term(ts[i], from, to) } else { ts[i] })
}

/// An implicit labeled argument is a variable; it becomes explicit when
/// the substitution replaces that variable.
pub open spec fn subst_labeled_arg(a: LabeledArg, from: Term, to: Term) -> LabeledArg
    decreases a,
{
    match a {
        LabeledArg::Implicit { label, index } => match from {
            Term::Name { index: from_index, .. } => if from_index == index {
                LabeledArg::Explicit { label, value: to }
            } else {
                a
            },
            _ => a,
        },
        LabeledArg::Explicit { label, value } => LabeledArg::Explicit { label, value: subst_term(value, from, to) },
    }
}

pub open spec fn subst_labeled_args(ls: Seq<LabeledArg>, from: Term, to: Term) -> Seq<LabeledArg>
    decreases ls,
{
    Seq::new(ls.len(), |i: int| if 0 <= i < ls.len() { subst_labeled_arg(ls[i], from, to) } else { ls[i] })
}

pub open spec fn subst_params(ps: Seq<ParamTerm>, from: Term, to: Term) -> Seq<ParamTerm>
    decreases ps,
{
    Seq::new(
        ps.len(),
        |i: int|
            if 0 <= i < ps.len() {
                ParamTerm { type_: subst_term(ps[i].type_, up(from, i as nat), up(to, i as nat)), ..ps[i] }
            } else {
                ps[i]
            },
    )
}

pub open spec fn subst_cases(cs: Seq<CaseTerm>, from: Term, to: Term) -> Seq<CaseTerm>
    decreases cs,
{
    Seq::new(
        cs.len(),
        |i: int|
            if 0 <= i < cs.len() {
                CaseTerm {
                    output: subst_term(cs[i].output, up(from, cs[i].params.len()), up(to, cs[i].params.len())),
                    ..cs[i]
                }
            } else {
                cs[i]
            },
    )
}

pub open spec fn subst_optional(o: Option<Term>, from: Term, to: Term) -> Option<Term>
    decreases o,
{
    match o {
        Some(t) => Some(subst_term(t, from, to)),
        None => None,
    }
}

pub open spec fn subst_assertions(xs: Seq<AssertionTerm>, from: Term, to: Term) -> Seq<AssertionTerm>
    decreases xs,
{
    Seq::new(
        xs.len(),
        |i: int|
            if 0 <= i < xs.len() {
                AssertionTerm {
                    left: subst_optional(xs[i].left, from, to),
                    right: subst_optional(xs[i].right, from, to),
                    ..xs[i]
                }
            } else {
                xs[i]
            },
    )
}

/// Both sides of the substitution can be upshifted by `n` within machine integers.
pub open spec fn pair_up_fits(from: Term, to: Term, n: nat) -> bool {
    &&& n <= usize::MAX
    &&& term_fits(from, UpshiftFn(n as usize), 0)
    &&& term_fits(to, UpshiftFn(n as usize), 0)
}

/// Every upshift of the substitution that the traversal performs stays
/// within machine integers.
pub open spec fn subst_fits(t: Term, from: Term, to: Term) -> bool
    decreases t,
{
    ||| replaces(t, from, to)
    ||| match t {
        Term::Name { .. } => true,
        Term::Call { callee, args } => {
            &&& subst_fits(*callee, from, to)
            &&& match args {
                ArgList::Unlabeled(ts) => forall|i: int| 0 <= i < ts.len() ==> subst_fits(#[trigger] ts[i], from, to),
                ArgList::Labeled(ls) => forall|i: int|
                    0 <= i < ls.len() ==> match #[trigger] ls[i] {
                        LabeledArg::Implicit { .. } => true,
                        LabeledArg::Explicit { value, .. } => subst_fits(value, from, to),
                    },
            }
        },
        Term::Fun { params, return_type, body, .. } => {
            &&& params_subst_fits(params, from, to)
            &&& pair_up_fits(from, to, params.len())
            &&& pair_up_fits(from, to, params.len() + 1)
            &&& subst_fits(*return_type, up(from, params.len()), up(to, params.len()))
            &&& subst_fits(*body, up(from, params.len() + 1), up(to, params.len() + 1))
        },
        Term::Match { matchee, cases } => {
            &&& subst_fits(*matchee, from, to)
            &&& forall|i: int|
                0 <= i < cases.len() ==> pair_up_fits(from, to, (#[trigger] cases[i]).params.len())
                    && subst_fits(cases[i].output, up(from, cases[i].params.len()), up(to, cases[i].params.len()))
        },
        Term::Forall { params, output } => {
            &&& params_subst_fits(params, from, to)
            &&& pair_up_fits(from, to, params.len())
            &&& subst_fits(*output, up(from, params.len()), up(to, params.len()))
        },
        Term::Check { assertions, output } => {
            &&& forall|i: int|
                0 <= i < assertions.len() ==> optional_subst_fits((#[trigger] assertions[i]).left, from, to)
                    && optional_subst_fits(assertions[i].right, from, to)
            &&& subst_fits(*output, from, to)
        },
    }
}

pub open spec fn params_subst_fits(ps: Seq<ParamTerm>, from: Term, to: Term) -> bool
    decreases ps,
{
    forall|i: int|
        0 <= i < ps.len() ==> pair_up_fits(from, to, i as nat)
            && subst_fits((#[trigger] ps[i]).type_, up(from, i as nat), up(to, i as nat))
}

pub open spec fn optional_subst_fits(o: Option<Term>, from: Term, to: Term) -> bool
    decreases o,
{
    match o {
        Some(t) => subst_fits(t, from, to),
        None => true,
    }
}


// ---------------------------------------------------------------------
// Shifting a substitution shifts both of its sides
// ---------------------------------------------------------------------

impl ShiftDbIndices for Substitution {
    open spec fn spec_upshift(v: (Term, Term), amount: usize, cutoff: nat) -> (Term, Term) {
        (upshift_term(v.0, amount, cutoff), upshift_term(v.1, amount, cutoff))
    }

    open spec fn spec_try_downshift(v: (Term, Term), amount: usize, cutoff: nat) -> Result<(Term, Term), DbIndexTooSmallForDownshiftError> {
        match shift_term(v.0, DownshiftFn(amount), cutoff) {
            Err(e) => Err(e),
            Ok(a) => match shift_term(v.1, DownshiftFn(amount), cutoff) {
                Err(e) => Err(e),
                Ok(b) => Ok((a, b)),
            },
        }
    }

    open spec fn upshift_fits(v: (Term, Term), amount: usize, cutoff: nat) -> bool {
        term_fits(v.0, UpshiftFn(amount), cutoff) && term_fits(v.1, UpshiftFn(amount), cutoff)
    }

    open spec fn downshift_fits(v: (Term, Term), amount: usize, cutoff: nat) -> bool {
        term_fits(v.0, DownshiftFn(amount), cutoff) && term_fits(v.1, DownshiftFn(amount), cutoff)
    }

    fn upshift_with_cutoff(&self, amount: usize, cutoff: usize) -> (r: Self) {
        Substitution { from: self.from.upshift_with_cutoff(amount, cutoff), to: self.to.upshift_with_cutoff(amount, cutoff) }
    }

    fn try_downshift_with_cutoff(&self, amount: usize, cutoff: usize) -> (r: Result<Self, DbIndexTooSmallForDownshiftError>) {
        let from = match self.from.try_downshift_with_cutoff(amount, cutoff) {
            Err(e) => { return Err(e); },
            Ok(x) => x,
        };
        let to = match self.to.try_downshift_with_cutoff(amount, cutoff) {
            Err(e) => { return Err(e); },
            Ok(x) => x,
        };
        Ok(Substitution { from, to })
    }
}

// ---------------------------------------------------------------------
// Executable substitution
// ---------------------------------------------------------------------

/// Replaces `original` as a whole if it equals the substitution's left-hand
/// side; does not look at its children.
pub fn subst_if_equal_and_get_status(original: &Expression, substitution: &Substitution) -> (r: (Expression, WasSyntacticNoOp))
    ensures
        original@ == substitution.from@ ==> r.0@ == substitution.to@ && r.1 == WasSyntacticNoOp(original@ == substitution.to@),
        original@ != substitution.from@ ==> r.0@ == original@ && r.1 == WasSyntacticNoOp(true),
{
    if expressions_equal(original, &substitution.from) {
        let was_no_op = WasSyntacticNoOp(expressions_equal(original, &substitution.to));
        (copy_expression(&substitution.to), was_no_op)
    } else {
        (copy_expression(original), WasSyntacticNoOp(true))
    }
}

/// Replaces every occurrence of the substitution's left-hand side in `e`
/// by its right-hand side; under a binder both sides are upshifted by the
/// number of variables it binds.
pub fn subst_expression(e: &Expression, substitution: &Substitution) -> (r: Expression)
    requires
        subst_fits(e@, substitution.from@, substitution.to@),
    ensures
        r@ == subst_term(e@, substitution.from@, substitution.to@),
    decreases e,
{
    let top_level = subst_if_equal_and_get_status(e, substitution);
    if let Expression::Name(_) = e {
        return top_level.0;
    }
    if !top_level.1.0 {
        return top_level.0;
    }
    match e {
        Expression::Name(_) => top_level.0,
        Expression::Call(c) => {
            let callee = subst_expression(&c.callee, substitution);
            let args = subst_call_arg_list(&c.args, substitution);
            Expression::Call(Box::new(Call { callee, args }))
        },
        Expression::Fun(f) => {
            let arity = f.params.len();
            let params = subst_params_exec(&f.params, substitution);
            let return_type = subst_expression(&f.return_type, &substitution.upshift(arity));
            let body = subst_expression(&f.body, &substitution.upshift(arity + 1));
            Expression::Fun(Box::new(Fun {
                name: copy_identifier(&f.name),
                params,
                return_type,
                body,
                skip_type_checking_body: f.skip_type_checking_body,
            }))
        },
        Expression::Match(m) => {
            let matchee = subst_expression(&m.matchee, substitution);
            let cases = subst_cases_exec(&m.cases, substitution);
            Expression::Match(Box::new(Match { matchee, cases }))
        },
        Expression::Forall(fa) => {
            let arity = fa.params.len();
            let params = subst_params_exec(&fa.params, substitution);
            let output = subst_expression(&fa.output, &substitution.upshift(arity));
            Expression::Forall(Box::new(Forall { params, output }))
        },
        Expression::Check(ch) => {
            let assertions = subst_assertions_exec(&ch.assertions, substitution);
            let output = subst_expression(&ch.output, substitution);
            Expression::Check(Box::new(Check { assertions, output }))
        },
    }
}

pub fn subst_call_arg_list(a: &CallArgList, substitution: &Substitution) -> (r: CallArgList)
    requires
        match a@ {
            ArgList::Unlabeled(ts) => forall|i: int| 0 <= i < ts.len() ==> subst_fits(#[trigger] ts[i], substitution.from@, substitution.to@),
            ArgList::Labeled(ls) => forall|i: int|
                0 <= i < ls.len() ==> match #[trigger] ls[i] {
                    LabeledArg::Implicit { .. } => true,
                    LabeledArg::Explicit { value, .. } => subst_fits(value, substitution.from@, substitution.to@),
                },
        },
    ensures
        r@ == subst_arg_list(a@, substitution.from@, substitution.to@),
    decreases a,
{
    match a {
        CallArgList::Unlabeled(v) => CallArgList::Unlabeled(subst_expressions(v, substitution)),
        CallArgList::UniquelyLabeled(v) => CallArgList::UniquelyLabeled(subst_labeled_call_args(v, substitution)),
    }
}

pub fn subst_expressions(v: &Vec<Expression>, substitution: &Substitution) -> (r: Vec<Expression>)
    requires
        forall|i: int| 0 <= i < v@.len() ==> subst_fits(#[trigger] exprs_view(v@)[i], substitution.from@, substitution.to@),
    ensures
        exprs_view(r@) == subst_terms(exprs_view(v@), substitution.from@, substitution.to@),
    decreases v,
{
    let ghost target = subst_terms(exprs_view(v@), substitution.from@, substitution.to@);
    let mut out: Vec<Expression> = Vec::new();
    let mut i: usize = 0;
    while i < v.len()
        invariant
            i <= v.len(),
            out@.len() == i,
            target == subst_terms(exprs_view(v@), substitution.from@, substitution.to@),
            forall|k: int| 0 <= k < v@.len() ==> subst_fits(#[trigger] exprs_view(v@)[k], substitution.from@, substitution.to@),
            forall|k: int| 0 <= k < i ==> exprs_view(out@)[k] == target[k],
        decreases v.len() - i,
    {
        assert(exprs_view(v@)[i as int] == v@[i as int]@);
        let x = subst_expression(&v[i], substitution);
        out.push(x);
        assert(exprs_view(out@)[i as int] == x@);
        i += 1;
    }
    assert(exprs_view(out@) =~= target);
    out
}

pub fn subst_labeled_call_arg(a: &LabeledCallArg, substitution: &Substitution) -> (r: LabeledCallArg)
    requires
        match a@ {
            LabeledArg::Implicit { .. } => true,
            LabeledArg::Explicit { value, .. } => subst_fits(value, substitution.from@, substitution.to@),
        },
    ensures
        r@ == subst_labeled_arg(a@, substitution.from@, substitution.to@),
    decreases a,
{
    match a {
        LabeledCallArg::Implicit { label, db_index } => {
            match &substitution.from {
                Expression::Name(from_name) => {
                    if from_name.db_index.0 == db_index.0 {
                        LabeledCallArg::Explicit { label: copy_identifier(label), value: copy_expression(&substitution.to) }
                    } else {
                        LabeledCallArg::Implicit { label: copy_identifier(label), db_index: *db_index }
                    }
                },
                _ => LabeledCallArg::Implicit { label: copy_identifier(label), db_index: *db_index },
            }
        },
        LabeledCallArg::Explicit { label, value } => {
            LabeledCallArg::Explicit { label: copy_identifier(label), value: subst_expression(value, substitution) }
        },
    }
}

pub fn subst_labeled_call_args(v: &Vec<LabeledCallArg>, substitution: &Substitution) -> (r: Vec<LabeledCallArg>)
    requires
        forall|i: int|
            0 <= i < v@.len() ==> match #[trigger] labeled_args_view(v@)[i] {
                LabeledArg::Implicit { .. } => true,
                LabeledArg::Explicit { value, .. } => subst_fits(value, substitution.from@, substitution.to@),
            },
    ensures
        labeled_args_view(r@) == subst_labeled_args(labeled_args_view(v@), substitution.from@, substitution.to@),
    decreases v,
{
    let ghost target = subst_labeled_args(labeled_args_view(v@), substitution.from@, substitution.to@);
    let mut out: Vec<LabeledCallArg> = Vec::new();
    let mut i: usize = 0;
    while i < v.len()
        invariant
            i <= v.len(),
            out@.len() == i,
            target == subst_labeled_args(labeled_args_view(v@), substitution.from@, substitution.to@),
            forall|k: int|
                0 <= k < v@.len() ==> match #[trigger] labeled_args_view(v@)[k] {
                    LabeledArg::Implicit { .. } => true,
                    LabeledArg::Explicit { value, .. } => subst_fits(value, substitution.from@, substitution.to@),
                },
            forall|k: int| 0 <= k < i ==> labeled_args_view(out@)[k] == target[k],
        decreases v.len() - i,
    {
        assert(labeled_args_view(v@)[i as int] == v@[i as int]@);
        let x = subst_labeled_call_arg(&v[i], substitution);
        out.push(x);
        assert(labeled_args_view(out@)[i as int] == x@);
        i += 1;
    }
    assert(labeled_args_view(out@) =~= target);
    out
}

/// The `i`-th parameter's type is substituted with both sides upshifted by `i`.
pub fn subst_params_exec(v: &Vec<Param>, substitution: &Substitution) -> (r: Vec<Param>)
    requires
        params_subst_fits(params_view(v@), substitution.from@, substitution.to@),
    ensures
        params_view(r@) == subst_params(params_view(v@), substitution.from@, substitution.to@),
    decreases v,
{
    let ghost target = subst_params(params_view(v@), substitution.from@, substitution.to@);
    let mut out: Vec<Param> = Vec::new();
    let mut i: usize = 0;
    while i < v.len()
        invariant
            i <= v.len(),
            out@.len() == i,
            target == subst_params(params_view(v@), substitution.from@, substitution.to@),
            params_subst_fits(params_view(v@), substitution.from@, substitution.to@),
            forall|k: int| 0 <= k < i ==> params_view(out@)[k] == target[k],
        decreases v.len() - i,
    {
        assert(params_view(v@)[i as int] == v@[i as int]@);
        let p = &v[i];
        let shifted = substitution.upshift(i);
        let t = subst_expression(&p.type_, &shifted);
        let x = Param {
            label: copy_optional_identifier(&p.label),
            is_dashed: p.is_dashed,
            name: copy_identifier(&p.name),
            type_: t,
        };
        out.push(x);
        assert(params_view(out@)[i as int] == x@);
        i += 1;
    }
    assert(params_view(out@) =~= target);
    out
}

/// Each case's output is substituted with both sides upshifted by the case's arity.
pub fn subst_cases_exec(v: &Vec<MatchCase>, substitution: &Substitution) -> (r: Vec<MatchCase>)
    requires
        forall|i: int|
            0 <= i < v@.len() ==> pair_up_fits(substitution.from@, substitution.to@, (#[trigger] cases_view(v@)[i]).params.len())
                && subst_fits(
                cases_view(v@)[i].output,
                up(substitution.from@, cases_view(v@)[i].params.len()),
                up(substitution.to@, cases_view(v@)[i].params.len()),
            ),
    ensures
        cases_view(r@) == subst_cases(cases_view(v@), substitution.from@, substitution.to@),
    decreases v,
{
    let ghost target = subst_cases(cases_view(v@), substitution.from@, substitution.to@);
    let mut out: Vec<MatchCase> = Vec::new();
    let mut i: usize = 0;
    while i < v.len()
        invariant
            i <= v.len(),
            out@.len() == i,
            target == subst_cases(cases_view(v@), substitution.from@, substitution.to@),
            forall|k: int|
                0 <= k < v@.len() ==> pair_up_fits(substitution.from@, substitution.to@, (#[trigger] cases_view(v@)[k]).params.len())
                    && subst_fits(
                    cases_view(v@)[k].output,
                    up(substitution.from@, cases_view(v@)[k].params.len()),
                    up(substitution.to@, cases_view(v@)[k].params.len()),
                ),
            forall|k: int| 0 <= k < i ==> cases_view(out@)[k] == target[k],
        decreases v.len() - i,
    {
        assert(cases_view(v@)[i as int] == v@[i as int]@);
        let c = &v[i];
        let shifted = substitution.upshift(c.params.len());
        let t = subst_expression(&c.output, &shifted);
        let x = MatchCase { variant_name: copy_identifier(&c.variant_name), params: copy_identifiers(&c.params), output: t };
        out.push(x);
        assert(cases_view(out@)[i as int] == x@);
        i += 1;
    }
    assert(cases_view(out@) =~= target);
    out
}

pub fn subst_optional_expression(o: &Option<Expression>, substitution: &Substitution) -> (r: Option<Expression>)
    requires
        optional_subst_fits(optional_view(*o), substitution.from@, substitution.to@),
    ensures
        optional_view(r) == subst_optional(optional_view(*o), substitution.from@, substitution.to@),
    decreases o,
{
    match o {
        Some(e) => Some(subst_expression(e, substitution)),
        None => None,
    }
}

pub fn subst_assertions_exec(v: &Vec<CheckAssertion>, substitution: &Substitution) -> (r: Vec<CheckAssertion>)
    requires
        forall|i: int|
            0 <= i < v@.len() ==> optional_subst_fits((#[trigger] assertions_view(v@)[i]).left, substitution.from@, substitution.to@)
                && optional_subst_fits(assertions_view(v@)[i].right, substitution.from@, substitution.to@),
    ensures
        assertions_view(r@) == subst_assertions(assertions_view(v@), substitution.from@, substitution.to@),
    decreases v,
{
    let ghost target = subst_assertions(assertions_view(v@), substitution.from@, substitution.to@);
    let mut out: Vec<CheckAssertion> = Vec::new();
    let mut i: usize = 0;
    while i < v.len()
        invariant
            i <= v.len(),
            out@.len() == i,
            target == subst_assertions(assertions_view(v@), substitution.from@, substitution.to@),
            forall|k: int|
                0 <= k < v@.len() ==> optional_subst_fits((#[trigger] assertions_view(v@)[k]).left, substitution.from@, substitution.to@)
                    && optional_subst_fits(assertions_view(v@)[k].right, substitution.from@, substitution.to@),
            forall|k: int| 0 <= k < i ==> assertions_view(out@)[k] == target[k],
        decreases v.len() - i,
    {
        assert(assertions_view(v@)[i as int] == v@[i as int]@);
        let a = &v[i];
        let x = CheckAssertion {
            kind: a.kind,
            left: subst_optional_expression(&a.left, substitution),
            right: subst_optional_expression(&a.right, substitution),
            left_invalid: copy_invalid_side(&a.left_invalid),
            right_invalid: copy_invalid_side(&a.right_invalid),
        };
        out.push(x);
        assert(assertions_view(out@)[i as int] == x@);
        i += 1;
    }
    assert(assertions_view(out@) =~= target);
    out
}


// ---------------------------------------------------------------------
// Several substitutions in turn
// ---------------------------------------------------------------------

pub open spec fn substitutions_view(subs: Seq<Substitution>) -> Seq<(Term, Term)> {
    Seq::new(subs.len(), |i: int| subs[i]@)
}

/// The substitutions applied one after the other, in order.
pub open spec fn subst_all_term(t: Term, subs: Seq<(Term, Term)>) -> Term
    decreases subs.len(),
{
    if subs.len() == 0 {
        t
    } else {
        subst_term(subst_all_term(t, subs.drop_last()), subs.last().0, subs.last().1)
    }
}

/// Every substitution in turn stays within machine integers.
pub open spec fn subst_all_fits(t: Term, subs: Seq<(Term, Term)>) -> bool
    decreases subs.len(),
{
    if subs.len() == 0 {
        true
    } else {
        subst_all_fits(t, subs.drop_last()) && subst_fits(subst_all_term(t, subs.drop_last()), subs.last().0, subs.last().1)
    }
}

proof fn lemma_subst_all_fits_prefix(t: Term, subs: Seq<(Term, Term)>, k: int)
    requires
        0 <= k <= subs.len(),
        subst_all_fits(t, subs),
    ensures
        subst_all_fits(t, subs.take(k)),
    decreases subs.len() - k,
{
    if k == subs.len() {
        assert(subs.take(k) =~= subs);
    } else {
        lemma_subst_all_fits_prefix(t, subs, k + 1);
        assert(subs.take(k + 1).drop_last() =~= subs.take(k));
    }
}

/// Applies the substitutions one after the other, in order.
pub fn subst_all(e: &Expression, substitutions: &Vec<Substitution>) -> (r: Expression)
    requires
        subst_all_fits(e@, substitutions_view(substitutions@)),
    ensures
        r@ == subst_all_term(e@, substitutions_view(substitutions@)),
{
    let ghost sv = substitutions_view(substitutions@);
    let mut output = copy_expression(e);
    let mut i: usize = 0;
    assert(sv.take(0) =~= Seq::<(Term, Term)>::empty());
    while i < substitutions.len()
        invariant
            i <= substitutions.len(),
            sv == substitutions_view(substitutions@),
            subst_all_fits(e@, sv),
            output@ == subst_all_term(e@, sv.take(i as int)),
        decreases substitutions.len() - i,
    {
        proof { lemma_subst_all_fits_prefix(e@, sv, i + 1); }
        assert(sv.take(i + 1).drop_last() =~= sv.take(i as int));
        assert(sv.take(i + 1).last() == substitutions@[i as int]@);
        output = subst_expression(&output, &substitutions[i]);
        i += 1;
    }
    assert(sv.take(substitutions.len() as int) =~= sv);
    output
}


/// Substitutes in place, and reports whether the expression stayed the
/// same.
pub fn subst_in_place_and_get_status(expression: &mut Expression, substitution: &Substitution) -> (r: WasSyntacticNoOp)
    requires
        subst_fits(old(expression)@, substitution.from@, substitution.to@),
    ensures
        final(expression)@ == subst_term(old(expression)@, substitution.from@, substitution.to@),
        r.0 == (final(expression)@ == old(expression)@),
{
    let new = subst_expression(expression, substitution);
    let was_no_op = WasSyntacticNoOp(expressions_equal(expression, &new));
    *expression = new;
    was_no_op
}

}
