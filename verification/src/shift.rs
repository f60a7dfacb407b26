//! Shifting the free De Bruijn indices of an expression.

use vstd::prelude::*;
use crate::equality::copy_invalid_side;
use crate::ast::{
    DbIndex, Term, ArgList, LabeledArg, ParamTerm, CaseTerm, AssertionTerm, Expression,
    NameExpression, Call, CallArgList, LabeledCallArg, Param, Fun, Match, MatchCase, Forall, Check,
    CheckAssertion, copy_identifier, copy_identifiers, copy_optional_identifier, exprs_view,
    labeled_args_view, params_view, cases_view, assertions_view, optional_view,
};

verus! {

/// A function on De Bruijn indices that leaves indices below a cutoff alone.
pub trait ShiftFn: Copy + Sized {
    type ShiftError;

    /// What `try_apply` computes, on unbounded integers.
    spec fn spec_try_apply(&self, i: nat, cutoff: nat) -> Result<nat, Self::ShiftError>;

    fn try_apply(&self, i: DbIndex, cutoff: usize) -> (r: Result<DbIndex, Self::ShiftError>)
        requires
            self.spec_try_apply(i.0 as nat, cutoff as nat) matches Ok(j) ==> j <= usize::MAX,
        ensures
            match (r, self.spec_try_apply(i.0 as nat, cutoff as nat)) {
                (Ok(a), Ok(b)) => a.0 == b,
                (Err(e1), Err(e2)) => e1 == e2,
                _ => false,
            },
    ;
}

/// Adds the amount to every index at or above the cutoff.
#[derive(Clone, Copy, Debug, PartialEq, Eq)]
pub struct UpshiftFn(pub usize);

/// Subtracts the amount from every index at or above the cutoff, and fails
/// on an index at or above the cutoff that is smaller than the amount.
#[derive(Clone, Copy, Debug, PartialEq, Eq)]
pub struct DownshiftFn(pub usize);

#[derive(Clone, Copy, Debug, PartialEq, Eq)]
pub struct DbIndexTooSmallForDownshiftError {
    pub db_index: DbIndex,
    pub downshift_amount: usize,
}

impl ShiftFn for UpshiftFn {
    type ShiftError = std::convert::Infallible;

    open spec fn spec_try_apply(&self, i: nat, cutoff: nat) -> Result<nat, std::convert::Infallible> {
        if i < cutoff {
            Ok(i)
        } else {
            Ok(i + self.0 as nat)
        }
    }

    fn try_apply(&self, i: DbIndex, cutoff: usize) -> (r: Result<DbIndex, std::convert::Infallible>) {
        if i.0 < cutoff {
            Ok(i)
        } else {
            Ok(DbIndex(i.0 + self.0))
        }
    }
}

impl ShiftFn for DownshiftFn {
    type ShiftError = DbIndexTooSmallForDownshiftError;

    open spec fn spec_try_apply(&self, i: nat, cutoff: nat) -> Result<nat, DbIndexTooSmallForDownshiftError> {
        if i < cutoff {
            Ok(i)
        } else if i < self.0 {
            Err(DbIndexTooSmallForDownshiftError { db_index: DbIndex(i as usize), downshift_amount: self.0 })
        } else {
            Ok((i - self.0) as nat)
        }
    }

    fn try_apply(&self, i: DbIndex, cutoff: usize) -> (r: Result<DbIndex, DbIndexTooSmallForDownshiftError>) {
        if i.0 < cutoff {
            Ok(i)
        } else if i.0 < self.0 {
            Err(DbIndexTooSmallForDownshiftError { db_index: i, downshift_amount: self.0 })
        } else {
            Ok(DbIndex(i.0 - self.0))
        }
    }
}

// ---------------------------------------------------------------------
// Shifting the model
// ---------------------------------------------------------------------

pub open spec fn shift_term<F: ShiftFn>(t: Term, f: F, c: nat) -> Result<Term, F::ShiftError>
    decreases t,
{
    match t {
        Term::Name { components, index } => match f.spec_try_apply(index, c) {
            Ok(j) => Ok(Term::Name { components, index: j }),
            Err(e) => Err(e),
        },
        Term::Call { callee, args } => match shift_term(*callee, f, c) {
            Err(e) => Err(e),
            Ok(callee2) => match shift_arg_list(args, f, c) {
                Err(e) => Err(e),
                Ok(args2) => Ok(Term::Call { callee: Box::new(callee2), args: args2 }),
            },
        },
        Term::Fun { name, params, return_type, body, skip_type_checking_body } => match shift_params(params, f, c) {
            Err(e) => Err(e),
            Ok(params2) => match shift_term(*return_type, f, c + params.len()) {
                Err(e) => Err(e),
                Ok(return_type2) => match shift_term(*body, f, c + params.len() + 1) {
                    Err(e) => Err(e),
                    Ok(body2) => Ok(Term::Fun {
                        name,
                        params: params2,
                        return_type: Box::new(return_type2),
                        body: Box::new(body2),
                        skip_type_checking_body,
                    }),
                },
            },
        },
        Term::Match { matchee, cases } => match shift_term(*matchee, f, c) {
            Err(e) => Err(e),
            Ok(matchee2) => match shift_cases(cases, f, c) {
                Err(e) => Err(e),
                Ok(cases2) => Ok(Term::Match { matchee: Box::new(matchee2), cases: cases2 }),
            },
        },
        Term::Forall { params, output } => match shift_params(params, f, c) {
            Err(e) => Err(e),
            Ok(params2) => match shift_term(*output, f, c + params.len()) {
                Err(e) => Err(e),
                Ok(output2) => Ok(Term::Forall { params: params2, output: Box::new(output2) }),
            },
        },
        Term::Check { assertions, output } => match shift_assertions(assertions, f, c) {
            Err(e) => Err(e),
            Ok(assertions2) => match shift_term(*output, f, c) {
                Err(e) => Err(e),
                Ok(output2) => Ok(Term::Check { assertions: assertions2, output: Box::new(output2) }),
            },
        },
    }
}

pub open spec fn shift_arg_list<F: ShiftFn>(a: ArgList, f: F, c: nat) -> Result<ArgList, F::ShiftError>
    decreases a,
{
    match a {
        ArgList::Unlabeled(ts) => match shift_terms(ts, f, c) {
            Err(e) => Err(e),
            Ok(ts2) => Ok(ArgList::Unlabeled(ts2)),
        },
        ArgList::Labeled(ls) => match shift_labeled_args(ls, f, c) {
            Err(e) => Err(e),
            Ok(ls2) => Ok(ArgList::Labeled(ls2)),
        },
    }
}

pub open spec fn shift_terms<F: ShiftFn>(ts: Seq<Term>, f: F, c: nat) -> Result<Seq<Term>, F::ShiftError>
    decreases ts,
{
    if ts.len() == 0 {
        Ok(seq![])
    } else {
        match shift_terms(ts.drop_last(), f, c) {
            Err(e) => Err(e),
            Ok(prefix) => match shift_term(ts.last(), f, c) {
                Err(e) => Err(e),
                Ok(t) => Ok(prefix.push(t)),
            },
        }
    }
}

pub open spec fn shift_labeled_args<F: ShiftFn>(ls: Seq<LabeledArg>, f: F, c: nat) -> Result<Seq<LabeledArg>, F::ShiftError>
    decreases ls,
{
    if ls.len() == 0 {
        Ok(seq![])
    } else {
        match shift_labeled_args(ls.drop_last(), f, c) {
            Err(e) => Err(e),
            Ok(prefix) => match shift_labeled_arg(ls.last(), f, c) {
                Err(e) => Err(e),
                Ok(a) => Ok(prefix.push(a)),
            },
        }
    }
}

pub open spec fn shift_labeled_arg<F: ShiftFn>(a: LabeledArg, f: F, c: nat) -> Result<LabeledArg, F::ShiftError>
    decreases a,
{
    match a {
        LabeledArg::Implicit { label, index } => match f.spec_try_apply(index, c) {
            Err(e) => Err(e),
            Ok(j) => Ok(LabeledArg::Implicit { label, index: j }),
        },
        LabeledArg::Explicit { label, value } => match shift_term(value, f, c) {
            Err(e) => Err(e),
            Ok(v) => Ok(LabeledArg::Explicit { label, value: v }),
        },
    }
}

/// The `i`-th parameter's type is in the scope of the `i` parameters before it.
pub open spec fn shift_params<F: ShiftFn>(ps: Seq<ParamTerm>, f: F, c: nat) -> Result<Seq<ParamTerm>, F::ShiftError>
    decreases ps,
{
    if ps.len() == 0 {
        Ok(seq![])
    } else {
        match shift_params(ps.drop_last(), f, c) {
            Err(e) => Err(e),
            Ok(prefix) => match shift_term(ps.last().type_, f, (c + ps.len() - 1) as nat) {
                Err(e) => Err(e),
                Ok(t) => Ok(prefix.push(ParamTerm { type_: t, ..ps.last() })),
            },
        }
    }
}

pub open spec fn shift_cases<F: ShiftFn>(cs: Seq<CaseTerm>, f: F, c: nat) -> Result<Seq<CaseTerm>, F::ShiftError>
    decreases cs,
{
    if cs.len() == 0 {
        Ok(seq![])
    } else {
        match shift_cases(cs.drop_last(), f, c) {
            Err(e) => Err(e),
            Ok(prefix) => match shift_term(cs.last().output, f, c + cs.last().params.len()) {
                Err(e) => Err(e),
                Ok(t) => Ok(prefix.push(CaseTerm { output: t, ..cs.last() })),
            },
        }
    }
}

pub open spec fn shift_assertions<F: ShiftFn>(xs: Seq<AssertionTerm>, f: F, c: nat) -> Result<Seq<AssertionTerm>, F::ShiftError>
    decreases xs,
{
    if xs.len() == 0 {
        Ok(seq![])
    } else {
        match shift_assertions(xs.drop_last(), f, c) {
            Err(e) => Err(e),
            Ok(prefix) => match shift_optional(xs.last().left, f, c) {
                Err(e) => Err(e),
                Ok(l) => match shift_optional(xs.last().right, f, c) {
                    Err(e) => Err(e),
                    Ok(r) => Ok(prefix.push(AssertionTerm { left: l, right: r, ..xs.last() })),
                },
            },
        }
    }
}

pub open spec fn shift_optional<F: ShiftFn>(o: Option<Term>, f: F, c: nat) -> Result<Option<Term>, F::ShiftError>
    decreases o,
{
    match o {
        None => Ok(None),
        Some(t) => match shift_term(t, f, c) {
            Err(e) => Err(e),
            Ok(t2) => Ok(Some(t2)),
        },
    }
}


// ---------------------------------------------------------------------
// When the executable shift stays within machine integers
// ---------------------------------------------------------------------

pub open spec fn index_fits<F: ShiftFn>(f: F, i: nat, c: nat) -> bool {
    f.spec_try_apply(i, c) matches Ok(j) ==> j <= usize::MAX
}

/// Every cutoff that the traversal computes, and every index that a
/// successful application produces, fits in a `usize`.
pub open spec fn term_fits<F: ShiftFn>(t: Term, f: F, c: nat) -> bool
    decreases t,
{
    &&& c <= usize::MAX
    &&& match t {
        Term::Name { index, .. } => index_fits(f, index, c),
        Term::Call { callee, args } => {
            &&& term_fits(*callee, f, c)
            &&& match args {
                ArgList::Unlabeled(ts) => forall|i: int| 0 <= i < ts.len() ==> term_fits(#[trigger] ts[i], f, c),
                ArgList::Labeled(ls) => forall|i: int|
                    0 <= i < ls.len() ==> match #[trigger] ls[i] {
                        LabeledArg::Implicit { index, .. } => index_fits(f, index, c),
                        LabeledArg::Explicit { value, .. } => term_fits(value, f, c),
                    },
            }
        },
        Term::Fun { params, return_type, body, .. } => {
            &&& c + params.len() + 1 <= usize::MAX
            &&& forall|i: int| 0 <= i < params.len() ==> term_fits(#[trigger] params[i].type_, f, (c + i) as nat)
            &&& term_fits(*return_type, f, c + params.len())
            &&& term_fits(*body, f, c + params.len() + 1)
        },
        Term::Match { matchee, cases } => {
            &&& term_fits(*matchee, f, c)
            &&& forall|i: int|
                0 <= i < cases.len() ==> c + (#[trigger] cases[i]).params.len() <= usize::MAX
                    && term_fits(cases[i].output, f, c + cases[i].params.len())
        },
        Term::Forall { params, output } => {
            &&& c + params.len() <= usize::MAX
            &&& forall|i: int| 0 <= i < params.len() ==> term_fits(#[trigger] params[i].type_, f, (c + i) as nat)
            &&& term_fits(*output, f, c + params.len())
        },
        Term::Check { assertions, output } => {
            &&& forall|i: int|
                0 <= i < assertions.len() ==> optional_fits((#[trigger] assertions[i]).left, f, c)
                    && optional_fits(assertions[i].right, f, c)
            &&& term_fits(*output, f, c)
        },
    }
}

pub open spec fn optional_fits<F: ShiftFn>(o: Option<Term>, f: F, c: nat) -> bool
    decreases o,
{
    match o {
        None => true,
        Some(t) => term_fits(t, f, c),
    }
}


// ---------------------------------------------------------------------
// Executable shifting
// ---------------------------------------------------------------------

/// Applies `f` to every free De Bruijn index of `e` (those at or above the
/// cutoff, which grows by one under each binder), and returns the first
/// error in traversal order.
pub fn try_shift_expression<F: ShiftFn>(e: &Expression, f: F, cutoff: usize) -> (r: Result<Expression, F::ShiftError>)
    requires
        term_fits(e@, f, cutoff as nat),
    ensures
        match (r, shift_term(e@, f, cutoff as nat)) {
            (Ok(a), Ok(b)) => a@ == b,
            (Err(x), Err(y)) => x == y,
            _ => false,
        },
    decreases e,
{
    match e {
        Expression::Name(n) => {
            match f.try_apply(n.db_index, cutoff) {
                Err(err) => Err(err),
                Ok(j) => Ok(Expression::Name(NameExpression { components: copy_identifiers(&n.components), db_index: j })),
            }
        },
        Expression::Call(c) => {
            let callee = match try_shift_expression(&c.callee, f, cutoff) {
                Err(err) => { return Err(err); },
                Ok(x) => x,
            };
            let args = match try_shift_call_arg_list(&c.args, f, cutoff) {
                Err(err) => { return Err(err); },
                Ok(x) => x,
            };
            Ok(Expression::Call(Box::new(Call { callee, args })))
        },
        Expression::Fun(fun) => {
            let arity = fun.params.len();
            let params = match try_shift_params(&fun.params, f, cutoff) {
                Err(err) => { return Err(err); },
                Ok(x) => x,
            };
            let return_type = match try_shift_expression(&fun.return_type, f, cutoff + arity) {
                Err(err) => { return Err(err); },
                Ok(x) => x,
            };
            let body = match try_shift_expression(&fun.body, f, cutoff + arity + 1) {
                Err(err) => { return Err(err); },
                Ok(x) => x,
            };
            Ok(Expression::Fun(Box::new(Fun {
                name: copy_identifier(&fun.name),
                params,
                return_type,
                body,
                skip_type_checking_body: fun.skip_type_checking_body,
            })))
        },
        Expression::Match(m) => {
            let matchee = match try_shift_expression(&m.matchee, f, cutoff) {
                Err(err) => { return Err(err); },
                Ok(x) => x,
            };
            let cases = match try_shift_cases(&m.cases, f, cutoff) {
                Err(err) => { return Err(err); },
                Ok(x) => x,
            };
            Ok(Expression::Match(Box::new(Match { matchee, cases })))
        },
        Expression::Forall(fa) => {
            let arity = fa.params.len();
            let params = match try_shift_params(&fa.params, f, cutoff) {
                Err(err) => { return Err(err); },
                Ok(x) => x,
            };
            let output = match try_shift_expression(&fa.output, f, cutoff + arity) {
                Err(err) => { return Err(err); },
                Ok(x) => x,
            };
            Ok(Expression::Forall(Box::new(Forall { params, output })))
        },
        Expression::Check(ch) => {
            let assertions = match try_shift_assertions(&ch.assertions, f, cutoff) {
                Err(err) => { return Err(err); },
                Ok(x) => x,
            };
            let output = match try_shift_expression(&ch.output, f, cutoff) {
                Err(err) => { return Err(err); },
                Ok(x) => x,
            };
            Ok(Expression::Check(Box::new(Check { assertions, output })))
        },
    }
}

pub fn try_shift_call_arg_list<F: ShiftFn>(a: &CallArgList, f: F, cutoff: usize) -> (r: Result<CallArgList, F::ShiftError>)
    requires
        cutoff <= usize::MAX,
        match a@ {
            ArgList::Unlabeled(ts) => forall|i: int| 0 <= i < ts.len() ==> term_fits(#[trigger] ts[i], f, cutoff as nat),
            ArgList::Labeled(ls) => forall|i: int|
                0 <= i < ls.len() ==> match #[trigger] ls[i] {
                    LabeledArg::Implicit { index, .. } => index_fits(f, index, cutoff as nat),
                    LabeledArg::Explicit { value, .. } => term_fits(value, f, cutoff as nat),
                },
        },
    ensures
        match (r, shift_arg_list(a@, f, cutoff as nat)) {
            (Ok(x), Ok(y)) => x@ == y,
            (Err(x), Err(y)) => x == y,
            _ => false,
        },
    decreases a,
{
    match a {
        CallArgList::Unlabeled(v) => match try_shift_expressions(v, f, cutoff) {
            Err(err) => Err(err),
            Ok(x) => Ok(CallArgList::Unlabeled(x)),
        },
        CallArgList::UniquelyLabeled(v) => match try_shift_labeled_call_args(v, f, cutoff) {
            Err(err) => Err(err),
            Ok(x) => Ok(CallArgList::UniquelyLabeled(x)),
        },
    }
}

pub fn try_shift_expressions<F: ShiftFn>(v: &Vec<Expression>, f: F, cutoff: usize) -> (r: Result<Vec<Expression>, F::ShiftError>)
    requires
        forall|i: int| 0 <= i < v@.len() ==> term_fits(#[trigger] exprs_view(v@)[i], f, cutoff as nat),
    ensures
        match (r, shift_terms(exprs_view(v@), f, cutoff as nat)) {
            (Ok(x), Ok(y)) => exprs_view(x@) == y,
            (Err(x), Err(y)) => x == y,
            _ => false,
        },
    decreases v,
{
    let ghost vv = exprs_view(v@);
    let mut out: Vec<Expression> = Vec::new();
    let mut i: usize = 0;
    assert(vv.take(0) =~= Seq::<Term>::empty());
    assert(exprs_view(out@) =~= Seq::<Term>::empty());
    while i < v.len()
        invariant
            i <= v.len(),
            vv == exprs_view(v@),
            forall|k: int| 0 <= k < v@.len() ==> term_fits(#[trigger] exprs_view(v@)[k], f, cutoff as nat),
            shift_terms(vv.take(i as int), f, cutoff as nat) == Ok::<Seq<Term>, F::ShiftError>(exprs_view(out@)),
        decreases v.len() - i,
    {
        assert(vv.take(i + 1).drop_last() =~= vv.take(i as int));
        assert(vv[i as int] == v@[i as int]@);
        match try_shift_expression(&v[i], f, cutoff) {
            Err(err) => {
                proof { lemma_shift_terms_error_prefix(vv, f, cutoff as nat, i + 1); }
                return Err(err);
            },
            Ok(x) => {
                let ghost before = out@;
                out.push(x);
                assert(exprs_view(out@) =~= exprs_view(before).push(x@));
            },
        }
        i += 1;
    }
    assert(vv.take(v.len() as int) =~= vv);
    Ok(out)
}

pub fn try_shift_labeled_call_args<F: ShiftFn>(v: &Vec<LabeledCallArg>, f: F, cutoff: usize) -> (r: Result<Vec<LabeledCallArg>, F::ShiftError>)
    requires
        forall|i: int|
            0 <= i < v@.len() ==> match #[trigger] labeled_args_view(v@)[i] {
                LabeledArg::Implicit { index, .. } => index_fits(f, index, cutoff as nat),
                LabeledArg::Explicit { value, .. } => term_fits(value, f, cutoff as nat),
            },
    ensures
        match (r, shift_labeled_args(labeled_args_view(v@), f, cutoff as nat)) {
            (Ok(x), Ok(y)) => labeled_args_view(x@) == y,
            (Err(x), Err(y)) => x == y,
            _ => false,
        },
    decreases v,
{
    let ghost vv = labeled_args_view(v@);
    let mut out: Vec<LabeledCallArg> = Vec::new();
    let mut i: usize = 0;
    assert(vv.take(0) =~= Seq::<LabeledArg>::empty());
    assert(labeled_args_view(out@) =~= Seq::<LabeledArg>::empty());
    while i < v.len()
        invariant
            i <= v.len(),
            vv == labeled_args_view(v@),
            forall|k: int|
                0 <= k < v@.len() ==> match #[trigger] labeled_args_view(v@)[k] {
                    LabeledArg::Implicit { index, .. } => index_fits(f, index, cutoff as nat),
                    LabeledArg::Explicit { value, .. } => term_fits(value, f, cutoff as nat),
                },
            shift_labeled_args(vv.take(i as int), f, cutoff as nat) == Ok::<Seq<LabeledArg>, F::ShiftError>(labeled_args_view(out@)),
        decreases v.len() - i,
    {
        assert(vv.take(i + 1).drop_last() =~= vv.take(i as int));
        assert(vv[i as int] == v@[i as int]@);
        let item = match try_shift_labeled_call_arg(&v[i], f, cutoff) {
            Err(err) => {
                proof { lemma_shift_labeled_args_error_prefix(vv, f, cutoff as nat, i + 1); }
                return Err(err);
            },
            Ok(x) => x,
        };
        let ghost before = out@;
        out.push(item);
        assert(labeled_args_view(out@) =~= labeled_args_view(before).push(item@));
        i += 1;
    }
    assert(vv.take(v.len() as int) =~= vv);
    Ok(out)
}

/// The `i`-th parameter's type is shifted with the cutoff raised by `i`.
pub fn try_shift_params<F: ShiftFn>(v: &Vec<Param>, f: F, cutoff: usize) -> (r: Result<Vec<Param>, F::ShiftError>)
    requires
        cutoff + v@.len() <= usize::MAX,
        forall|i: int| 0 <= i < v@.len() ==> term_fits(#[trigger] params_view(v@)[i].type_, f, (cutoff + i) as nat),
    ensures
        match (r, shift_params(params_view(v@), f, cutoff as nat)) {
            (Ok(x), Ok(y)) => params_view(x@) == y,
            (Err(x), Err(y)) => x == y,
            _ => false,
        },
    decreases v,
{
    let ghost vv = params_view(v@);
    let mut out: Vec<Param> = Vec::new();
    let mut i: usize = 0;
    assert(vv.take(0) =~= Seq::<ParamTerm>::empty());
    assert(params_view(out@) =~= Seq::<ParamTerm>::empty());
    while i < v.len()
        invariant
            i <= v.len(),
            cutoff + v@.len() <= usize::MAX,
            vv == params_view(v@),
            forall|k: int| 0 <= k < v@.len() ==> term_fits(#[trigger] params_view(v@)[k].type_, f, (cutoff + k) as nat),
            shift_params(vv.take(i as int), f, cutoff as nat) == Ok::<Seq<ParamTerm>, F::ShiftError>(params_view(out@)),
        decreases v.len() - i,
    {
        assert(vv.take(i + 1).drop_last() =~= vv.take(i as int));
        assert(vv[i as int] == v@[i as int]@);
        let p = &v[i];
        assert(term_fits(params_view(v@)[i as int].type_, f, (cutoff + i) as nat));
        match try_shift_expression(&p.type_, f, cutoff + i) {
            Err(err) => {
                proof { lemma_shift_params_error_prefix(vv, f, cutoff as nat, i + 1); }
                return Err(err);
            },
            Ok(t) => {
                let item = Param {
                    label: copy_optional_identifier(&p.label),
                    is_dashed: p.is_dashed,
                    name: copy_identifier(&p.name),
                    type_: t,
                };
                let ghost before = out@;
                out.push(item);
                assert(params_view(out@) =~= params_view(before).push(item@));
            },
        }
        i += 1;
    }
    assert(vv.take(v.len() as int) =~= vv);
    Ok(out)
}

/// Each case's output is shifted with the cutoff raised by the case's arity.
pub fn try_shift_cases<F: ShiftFn>(v: &Vec<MatchCase>, f: F, cutoff: usize) -> (r: Result<Vec<MatchCase>, F::ShiftError>)
    requires
        forall|i: int|
            0 <= i < v@.len() ==> cutoff + (#[trigger] cases_view(v@)[i]).params.len() <= usize::MAX
                && term_fits(cases_view(v@)[i].output, f, (cutoff + cases_view(v@)[i].params.len()) as nat),
    ensures
        match (r, shift_cases(cases_view(v@), f, cutoff as nat)) {
            (Ok(x), Ok(y)) => cases_view(x@) == y,
            (Err(x), Err(y)) => x == y,
            _ => false,
        },
    decreases v,
{
    let ghost vv = cases_view(v@);
    let mut out: Vec<MatchCase> = Vec::new();
    let mut i: usize = 0;
    assert(vv.take(0) =~= Seq::<CaseTerm>::empty());
    assert(cases_view(out@) =~= Seq::<CaseTerm>::empty());
    while i < v.len()
        invariant
            i <= v.len(),
            vv == cases_view(v@),
            forall|k: int|
                0 <= k < v@.len() ==> cutoff + (#[trigger] cases_view(v@)[k]).params.len() <= usize::MAX
                    && term_fits(cases_view(v@)[k].output, f, (cutoff + cases_view(v@)[k].params.len()) as nat),
            shift_cases(vv.take(i as int), f, cutoff as nat) == Ok::<Seq<CaseTerm>, F::ShiftError>(cases_view(out@)),
        decreases v.len() - i,
    {
        assert(vv.take(i + 1).drop_last() =~= vv.take(i as int));
        assert(vv[i as int] == v@[i as int]@);
        let c = &v[i];
        assert(vv[i as int].params.len() == c.params@.len());
        match try_shift_expression(&c.output, f, cutoff + c.params.len()) {
            Err(err) => {
                proof { lemma_shift_cases_error_prefix(vv, f, cutoff as nat, i + 1); }
                return Err(err);
            },
            Ok(t) => {
                let item = MatchCase {
                    variant_name: copy_identifier(&c.variant_name),
                    params: copy_identifiers(&c.params),
                    output: t,
                };
                let ghost before = out@;
                out.push(item);
                assert(cases_view(out@) =~= cases_view(before).push(item@));
            },
        }
        i += 1;
    }
    assert(vv.take(v.len() as int) =~= vv);
    Ok(out)
}

pub fn try_shift_optional_expression<F: ShiftFn>(o: &Option<Expression>, f: F, cutoff: usize) -> (r: Result<Option<Expression>, F::ShiftError>)
    requires
        optional_fits(optional_view(*o), f, cutoff as nat),
    ensures
        match (r, shift_optional(optional_view(*o), f, cutoff as nat)) {
            (Ok(x), Ok(y)) => optional_view(x) == y,
            (Err(x), Err(y)) => x == y,
            _ => false,
        },
    decreases o,
{
    match o {
        None => Ok(None),
        Some(e) => match try_shift_expression(e, f, cutoff) {
            Err(err) => Err(err),
            Ok(x) => Ok(Some(x)),
        },
    }
}

pub fn try_shift_assertions<F: ShiftFn>(v: &Vec<CheckAssertion>, f: F, cutoff: usize) -> (r: Result<Vec<CheckAssertion>, F::ShiftError>)
    requires
        forall|i: int|
            0 <= i < v@.len() ==> optional_fits((#[trigger] assertions_view(v@)[i]).left, f, cutoff as nat)
                && optional_fits(assertions_view(v@)[i].right, f, cutoff as nat),
    ensures
        match (r, shift_assertions(assertions_view(v@), f, cutoff as nat)) {
            (Ok(x), Ok(y)) => assertions_view(x@) == y,
            (Err(x), Err(y)) => x == y,
            _ => false,
        },
    decreases v,
{
    let ghost vv = assertions_view(v@);
    let mut out: Vec<CheckAssertion> = Vec::new();
    let mut i: usize = 0;
    assert(vv.take(0) =~= Seq::<AssertionTerm>::empty());
    assert(assertions_view(out@) =~= Seq::<AssertionTerm>::empty());
    while i < v.len()
        invariant
            i <= v.len(),
            vv == assertions_view(v@),
            forall|k: int|
                0 <= k < v@.len() ==> optional_fits((#[trigger] assertions_view(v@)[k]).left, f, cutoff as nat)
                    && optional_fits(assertions_view(v@)[k].right, f, cutoff as nat),
            shift_assertions(vv.take(i as int), f, cutoff as nat) == Ok::<Seq<AssertionTerm>, F::ShiftError>(assertions_view(out@)),
        decreases v.len() - i,
    {
        assert(vv.take(i + 1).drop_last() =~= vv.take(i as int));
        assert(vv[i as int] == v@[i as int]@);
        let a = &v[i];
        let left = match try_shift_optional_expression(&a.left, f, cutoff) {
            Err(err) => { proof { lemma_shift_assertions_error_prefix(vv, f, cutoff as nat, i + 1); }
                return Err(err); },
            Ok(x) => x,
        };
        let right = match try_shift_optional_expression(&a.right, f, cutoff) {
            Err(err) => { proof { lemma_shift_assertions_error_prefix(vv, f, cutoff as nat, i + 1); }
                return Err(err); },
            Ok(x) => x,
        };
        let item = CheckAssertion {
            kind: a.kind,
            left,
            right,
            left_invalid: copy_invalid_side(&a.left_invalid),
            right_invalid: copy_invalid_side(&a.right_invalid),
        };
        let ghost before = out@;
        out.push(item);
        assert(assertions_view(out@) =~= assertions_view(before).push(item@));
        i += 1;
    }
    assert(vv.take(v.len() as int) =~= vv);
    Ok(out)
}


pub fn try_shift_labeled_call_arg<F: ShiftFn>(a: &LabeledCallArg, f: F, cutoff: usize) -> (r: Result<LabeledCallArg, F::ShiftError>)
    requires
        match a@ {
            LabeledArg::Implicit { index, .. } => index_fits(f, index, cutoff as nat),
            LabeledArg::Explicit { value, .. } => term_fits(value, f, cutoff as nat),
        },
    ensures
        match (r, shift_labeled_arg(a@, f, cutoff as nat)) {
            (Ok(x), Ok(y)) => x@ == y,
            (Err(x), Err(y)) => x == y,
            _ => false,
        },
    decreases a,
{
    match a {
        LabeledCallArg::Implicit { label, db_index } => match f.try_apply(*db_index, cutoff) {
            Err(err) => Err(err),
            Ok(j) => Ok(LabeledCallArg::Implicit { label: copy_identifier(label), db_index: j }),
        },
        LabeledCallArg::Explicit { label, value } => match try_shift_expression(value, f, cutoff) {
            Err(err) => Err(err),
            Ok(x) => Ok(LabeledCallArg::Explicit { label: copy_identifier(label), value: x }),
        },
    }
}

// ---------------------------------------------------------------------
// An error in a prefix of a list is the error of the whole list
// ---------------------------------------------------------------------

pub proof fn lemma_shift_terms_error_prefix<F: ShiftFn>(ts: Seq<Term>, f: F, c: nat, k: int)
    requires
        0 <= k <= ts.len(),
        shift_terms(ts.take(k), f, c) is Err,
    ensures
        shift_terms(ts, f, c) == shift_terms(ts.take(k), f, c),
    decreases ts.len() - k,
{
    if k == ts.len() {
        assert(ts.take(k) =~= ts);
    } else {
        assert(ts.take(k + 1).drop_last() =~= ts.take(k));
        lemma_shift_terms_error_prefix(ts, f, c, k + 1);
    }
}

pub proof fn lemma_shift_labeled_args_error_prefix<F: ShiftFn>(ls: Seq<LabeledArg>, f: F, c: nat, k: int)
    requires
        0 <= k <= ls.len(),
        shift_labeled_args(ls.take(k), f, c) is Err,
    ensures
        shift_labeled_args(ls, f, c) == shift_labeled_args(ls.take(k), f, c),
    decreases ls.len() - k,
{
    if k == ls.len() {
        assert(ls.take(k) =~= ls);
    } else {
        assert(ls.take(k + 1).drop_last() =~= ls.take(k));
        lemma_shift_labeled_args_error_prefix(ls, f, c, k + 1);
    }
}

pub proof fn lemma_shift_params_error_prefix<F: ShiftFn>(ps: Seq<ParamTerm>, f: F, c: nat, k: int)
    requires
        0 <= k <= ps.len(),
        shift_params(ps.take(k), f, c) is Err,
    ensures
        shift_params(ps, f, c) == shift_params(ps.take(k), f, c),
    decreases ps.len() - k,
{
    if k == ps.len() {
        assert(ps.take(k) =~= ps);
    } else {
        assert(ps.take(k + 1).drop_last() =~= ps.take(k));
        lemma_shift_params_error_prefix(ps, f, c, k + 1);
    }
}

pub proof fn lemma_shift_cases_error_prefix<F: ShiftFn>(cs: Seq<CaseTerm>, f: F, c: nat, k: int)
    requires
        0 <= k <= cs.len(),
        shift_cases(cs.take(k), f, c) is Err,
    ensures
        shift_cases(cs, f, c) == shift_cases(cs.take(k), f, c),
    decreases cs.len() - k,
{
    if k == cs.len() {
        assert(cs.take(k) =~= cs);
    } else {
        assert(cs.take(k + 1).drop_last() =~= cs.take(k));
        lemma_shift_cases_error_prefix(cs, f, c, k + 1);
    }
}

pub proof fn lemma_shift_assertions_error_prefix<F: ShiftFn>(xs: Seq<AssertionTerm>, f: F, c: nat, k: int)
    requires
        0 <= k <= xs.len(),
        shift_assertions(xs.take(k), f, c) is Err,
    ensures
        shift_assertions(xs, f, c) == shift_assertions(xs.take(k), f, c),
    decreases xs.len() - k,
{
    if k == xs.len() {
        assert(xs.take(k) =~= xs);
    } else {
        assert(xs.take(k + 1).drop_last() =~= xs.take(k));
        lemma_shift_assertions_error_prefix(xs, f, c, k + 1);
    }
}

}
