//! Laws of composing shifts: two shifts that compose to a third on indices
//! compose to it on whole terms; in particular two upshifts at one cutoff
//! are one upshift by the sum of their amounts.

use vstd::prelude::*;
use crate::ast::{Term, ArgList, LabeledArg, ParamTerm, CaseTerm, AssertionTerm};
use crate::shift::{
    ShiftFn, UpshiftFn, shift_term, shift_arg_list, shift_terms, shift_labeled_arg,
    shift_labeled_args, shift_params, shift_cases, shift_assertions, shift_optional,
};
use crate::shift_laws::lemma_params_len;

verus! {

/// At every cutoff from `c` up, `f` and `h` never fail, and `g` applied to
/// what `f` gives is what `h` gives.
pub open spec fn composes_at_or_above<F: ShiftFn, G: ShiftFn, H: ShiftFn>(f: F, g: G, h: H, c: nat) -> bool {
    forall|i: nat, c2: nat|
        c2 >= c ==> {
            &&& (#[trigger] f.spec_try_apply(i, c2)) is Ok
            &&& h.spec_try_apply(i, c2) is Ok
            &&& g.spec_try_apply(f.spec_try_apply(i, c2)->Ok_0, c2)
                == Ok::<nat, G::ShiftError>(h.spec_try_apply(i, c2)->Ok_0)
        }
}

/// Where `f` then `g` is `h` on indices at every cutoff from `c` up,
/// shifting a term with `f` and then with `g` at cutoff `c` is shifting it
/// with `h` at cutoff `c`.
pub proof fn lemma_shifts_compose<F: ShiftFn, G: ShiftFn, H: ShiftFn>(t: Term, f: F, g: G, h: H, c: nat)
    requires
        composes_at_or_above(f, g, h, c),
    ensures
        shift_term(t, f, c) is Ok,
        shift_term(t, h, c) is Ok,
        shift_term(shift_term(t, f, c)->Ok_0, g, c) == Ok::<Term, G::ShiftError>(shift_term(t, h, c)->Ok_0),
    decreases t,
{
    match t {
        Term::Name { components, index } => {
            assert(f.spec_try_apply(index, c) is Ok);
        },
        Term::Call { callee, args } => {
            lemma_shifts_compose(*callee, f, g, h, c);
            lemma_arg_list(args, f, g, h, c);
        },
        Term::Fun { name, params, return_type, body, skip_type_checking_body } => {
            lemma_params(params, f, g, h, c);
            lemma_shifts_compose(*return_type, f, g, h, c + params.len());
            lemma_shifts_compose(*body, f, g, h, c + params.len() + 1);
            assert(shift_params(params, f, c)->Ok_0.len() == params.len()) by { lemma_params_len(params, f, c); }
        },
        Term::Match { matchee, cases } => {
            lemma_shifts_compose(*matchee, f, g, h, c);
            lemma_cases(cases, f, g, h, c);
        },
        Term::Forall { params, output } => {
            lemma_params(params, f, g, h, c);
            lemma_shifts_compose(*output, f, g, h, c + params.len());
            assert(shift_params(params, f, c)->Ok_0.len() == params.len()) by { lemma_params_len(params, f, c); }
        },
        Term::Check { assertions, output } => {
            lemma_assertions(assertions, f, g, h, c);
            lemma_shifts_compose(*output, f, g, h, c);
        },
    }
}

proof fn lemma_arg_list<F: ShiftFn, G: ShiftFn, H: ShiftFn>(x: ArgList, f: F, g: G, h: H, c: nat)
    requires
        composes_at_or_above(f, g, h, c),
    ensures
        shift_arg_list(x, f, c) is Ok,
        shift_arg_list(x, h, c) is Ok,
        shift_arg_list(shift_arg_list(x, f, c)->Ok_0, g, c) == Ok::<ArgList, G::ShiftError>(shift_arg_list(x, h, c)->Ok_0),
    decreases x,
{
    match x {
        ArgList::Unlabeled(ts) => lemma_terms(ts, f, g, h, c),
        ArgList::Labeled(ls) => lemma_labeled_args(ls, f, g, h, c),
    }
}

proof fn lemma_terms<F: ShiftFn, G: ShiftFn, H: ShiftFn>(ts: Seq<Term>, f: F, g: G, h: H, c: nat)
    requires
        composes_at_or_above(f, g, h, c),
    ensures
        shift_terms(ts, f, c) is Ok,
        shift_terms(ts, h, c) is Ok,
        shift_terms(shift_terms(ts, f, c)->Ok_0, g, c) == Ok::<Seq<Term>, G::ShiftError>(shift_terms(ts, h, c)->Ok_0),
    decreases ts,
{
    if ts.len() > 0 {
        lemma_terms(ts.drop_last(), f, g, h, c);
        lemma_shifts_compose(ts.last(), f, g, h, c);
        let us = shift_terms(ts, f, c)->Ok_0;
        let prefix = shift_terms(ts.drop_last(), f, c)->Ok_0;
        let u_last = shift_term(ts.last(), f, c)->Ok_0;
        assert(us == prefix.push(u_last));
        assert(us.drop_last() == prefix);
        assert(us.last() == u_last);
    }
}

proof fn lemma_labeled_arg<F: ShiftFn, G: ShiftFn, H: ShiftFn>(x: LabeledArg, f: F, g: G, h: H, c: nat)
    requires
        composes_at_or_above(f, g, h, c),
    ensures
        shift_labeled_arg(x, f, c) is Ok,
        shift_labeled_arg(x, h, c) is Ok,
        shift_labeled_arg(shift_labeled_arg(x, f, c)->Ok_0, g, c) == Ok::<LabeledArg, G::ShiftError>(shift_labeled_arg(x, h, c)->Ok_0),
    decreases x,
{
    match x {
        LabeledArg::Implicit { label, index } => {
            assert(f.spec_try_apply(index, c) is Ok);
        },
        LabeledArg::Explicit { value, .. } => lemma_shifts_compose(value, f, g, h, c),
    }
}

proof fn lemma_labeled_args<F: ShiftFn, G: ShiftFn, H: ShiftFn>(ls: Seq<LabeledArg>, f: F, g: G, h: H, c: nat)
    requires
        composes_at_or_above(f, g, h, c),
    ensures
        shift_labeled_args(ls, f, c) is Ok,
        shift_labeled_args(ls, h, c) is Ok,
        shift_labeled_args(shift_labeled_args(ls, f, c)->Ok_0, g, c) == Ok::<Seq<LabeledArg>, G::ShiftError>(shift_labeled_args(ls, h, c)->Ok_0),
    decreases ls,
{
    if ls.len() > 0 {
        lemma_labeled_args(ls.drop_last(), f, g, h, c);
        lemma_labeled_arg(ls.last(), f, g, h, c);
        let us = shift_labeled_args(ls, f, c)->Ok_0;
        let prefix = shift_labeled_args(ls.drop_last(), f, c)->Ok_0;
        let u_last = shift_labeled_arg(ls.last(), f, c)->Ok_0;
        assert(us == prefix.push(u_last));
        assert(us.drop_last() == prefix);
        assert(us.last() == u_last);
    }
}

proof fn lemma_params<F: ShiftFn, G: ShiftFn, H: ShiftFn>(ps: Seq<ParamTerm>, f: F, g: G, h: H, c: nat)
    requires
        composes_at_or_above(f, g, h, c),
    ensures
        shift_params(ps, f, c) is Ok,
        shift_params(ps, h, c) is Ok,
        shift_params(shift_params(ps, f, c)->Ok_0, g, c) == Ok::<Seq<ParamTerm>, G::ShiftError>(shift_params(ps, h, c)->Ok_0),
    decreases ps,
{
    if ps.len() > 0 {
        lemma_params(ps.drop_last(), f, g, h, c);
        lemma_shifts_compose(ps.last().type_, f, g, h, (c + ps.len() - 1) as nat);
        lemma_params_len(ps.drop_last(), f, c);
        let us = shift_params(ps, f, c)->Ok_0;
        let prefix = shift_params(ps.drop_last(), f, c)->Ok_0;
        let u_last = ParamTerm { type_: shift_term(ps.last().type_, f, (c + ps.len() - 1) as nat)->Ok_0, ..ps.last() };
        assert(us == prefix.push(u_last));
        assert(us.len() == ps.len());
        assert(us.drop_last() == prefix);
        assert(us.last() == u_last);
    }
}

proof fn lemma_cases<F: ShiftFn, G: ShiftFn, H: ShiftFn>(cs: Seq<CaseTerm>, f: F, g: G, h: H, c: nat)
    requires
        composes_at_or_above(f, g, h, c),
    ensures
        shift_cases(cs, f, c) is Ok,
        shift_cases(cs, h, c) is Ok,
        shift_cases(shift_cases(cs, f, c)->Ok_0, g, c) == Ok::<Seq<CaseTerm>, G::ShiftError>(shift_cases(cs, h, c)->Ok_0),
    decreases cs,
{
    if cs.len() > 0 {
        lemma_cases(cs.drop_last(), f, g, h, c);
        lemma_shifts_compose(cs.last().output, f, g, h, c + cs.last().params.len());
        let us = shift_cases(cs, f, c)->Ok_0;
        let prefix = shift_cases(cs.drop_last(), f, c)->Ok_0;
        let u_last = CaseTerm { output: shift_term(cs.last().output, f, c + cs.last().params.len())->Ok_0, ..cs.last() };
        assert(us == prefix.push(u_last));
        assert(us.drop_last() == prefix);
        assert(us.last() == u_last);
    }
}

proof fn lemma_optional<F: ShiftFn, G: ShiftFn, H: ShiftFn>(o: Option<Term>, f: F, g: G, h: H, c: nat)
    requires
        composes_at_or_above(f, g, h, c),
    ensures
        shift_optional(o, f, c) is Ok,
        shift_optional(o, h, c) is Ok,
        shift_optional(shift_optional(o, f, c)->Ok_0, g, c) == Ok::<Option<Term>, G::ShiftError>(shift_optional(o, h, c)->Ok_0),
    decreases o,
{
    match o {
        None => {},
        Some(t) => lemma_shifts_compose(t, f, g, h, c),
    }
}

proof fn lemma_assertions<F: ShiftFn, G: ShiftFn, H: ShiftFn>(xs: Seq<AssertionTerm>, f: F, g: G, h: H, c: nat)
    requires
        composes_at_or_above(f, g, h, c),
    ensures
        shift_assertions(xs, f, c) is Ok,
        shift_assertions(xs, h, c) is Ok,
        shift_assertions(shift_assertions(xs, f, c)->Ok_0, g, c) == Ok::<Seq<AssertionTerm>, G::ShiftError>(shift_assertions(xs, h, c)->Ok_0),
    decreases xs,
{
    if xs.len() > 0 {
        lemma_assertions(xs.drop_last(), f, g, h, c);
        lemma_optional(xs.last().left, f, g, h, c);
        lemma_optional(xs.last().right, f, g, h, c);
        let us = shift_assertions(xs, f, c)->Ok_0;
        let prefix = shift_assertions(xs.drop_last(), f, c)->Ok_0;
        let u_last = AssertionTerm { left: shift_optional(xs.last().left, f, c)->Ok_0, right: shift_optional(xs.last().right, f, c)->Ok_0, ..xs.last() };
        assert(us == prefix.push(u_last));
        assert(us.drop_last() == prefix);
        assert(us.last() == u_last);
    }
}

/// Upshifting a term by `a` and then by `b` at one cutoff is upshifting it
/// by `a + b` at that cutoff.
pub proof fn lemma_upshifts_add(t: Term, a: usize, b: usize, c: nat)
    requires
        a + b <= usize::MAX,
    ensures
        shift_term(shift_term(t, UpshiftFn(a), c)->Ok_0, UpshiftFn(b), c)
            == shift_term(t, UpshiftFn((a + b) as usize), c),
{
    lemma_shifts_compose(t, UpshiftFn(a), UpshiftFn(b), UpshiftFn((a + b) as usize), c);
}

}
