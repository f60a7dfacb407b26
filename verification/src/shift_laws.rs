//! Laws of shifting: a shift that another undoes on indices is undone by it
//! on whole terms; in particular a downshift by the same amount at the same
//! cutoff undoes an upshift.

use vstd::prelude::*;
use crate::ast::{Term, ArgList, LabeledArg, ParamTerm, CaseTerm, AssertionTerm};
use crate::shift::{
    ShiftFn, UpshiftFn, DownshiftFn, shift_term, shift_arg_list, shift_terms, shift_labeled_arg,
    shift_labeled_args, shift_params, shift_cases, shift_assertions, shift_optional,
};

verus! {

/// `f` never fails at a cutoff of at least `c`, and `g` undoes it there.
pub open spec fn undoes_at_or_above<F: ShiftFn, G: ShiftFn>(f: F, g: G, c: nat) -> bool {
    forall|i: nat, c2: nat|
        c2 >= c ==> (#[trigger] f.spec_try_apply(i, c2)) is Ok && g.spec_try_apply(f.spec_try_apply(i, c2)->Ok_0, c2)
            == Ok::<nat, G::ShiftError>(i)
}

/// Where `g` undoes `f` on indices at every cutoff from `c` up, shifting a
/// term with `f` at cutoff `c` succeeds, and shifting the result with `g`
/// gives back the term.
pub proof fn lemma_shift_is_undone<F: ShiftFn, G: ShiftFn>(t: Term, f: F, g: G, c: nat)
    requires
        undoes_at_or_above(f, g, c),
    ensures
        shift_term(t, f, c) is Ok,
        shift_term(shift_term(t, f, c)->Ok_0, g, c) == Ok::<Term, G::ShiftError>(t),
    decreases t,
{
    let up = f;
    let down = g;
    match t {
        Term::Name { components, index } => {},
        Term::Call { callee, args } => {
            lemma_shift_is_undone(*callee, f, g, c);
            lemma_arg_list(args, f, g, c);
        },
        Term::Fun { name, params, return_type, body, skip_type_checking_body } => {
            lemma_params(params, f, g, c);
            lemma_shift_is_undone(*return_type, f, g, c + params.len());
            lemma_shift_is_undone(*body, f, g, c + params.len() + 1);
            let p2 = shift_params(params, up, c)->Ok_0;
            assert(p2.len() == params.len()) by { lemma_params_len(params, f, c); }
        },
        Term::Match { matchee, cases } => {
            lemma_shift_is_undone(*matchee, f, g, c);
            lemma_cases(cases, f, g, c);
        },
        Term::Forall { params, output } => {
            lemma_params(params, f, g, c);
            lemma_shift_is_undone(*output, f, g, c + params.len());
            assert(shift_params(params, up, c)->Ok_0.len() == params.len()) by { lemma_params_len(params, f, c); }
        },
        Term::Check { assertions, output } => {
            lemma_assertions(assertions, f, g, c);
            lemma_shift_is_undone(*output, f, g, c);
        },
    }
}

proof fn lemma_arg_list<F: ShiftFn, G: ShiftFn>(x: ArgList, f: F, g: G, c: nat)
    requires
        undoes_at_or_above(f, g, c),
    ensures
        shift_arg_list(x, f, c) is Ok,
        shift_arg_list(shift_arg_list(x, f, c)->Ok_0, g, c) == Ok::<ArgList, G::ShiftError>(x),
    decreases x,
{
    match x {
        ArgList::Unlabeled(ts) => lemma_terms(ts, f, g, c),
        ArgList::Labeled(ls) => lemma_labeled_args(ls, f, g, c),
    }
}

proof fn lemma_terms<F: ShiftFn, G: ShiftFn>(ts: Seq<Term>, f: F, g: G, c: nat)
    requires
        undoes_at_or_above(f, g, c),
    ensures
        shift_terms(ts, f, c) is Ok,
        shift_terms(shift_terms(ts, f, c)->Ok_0, g, c) == Ok::<Seq<Term>, G::ShiftError>(ts),
    decreases ts,
{
    if ts.len() > 0 {
        lemma_terms(ts.drop_last(), f, g, c);
        lemma_shift_is_undone(ts.last(), f, g, c);
        let us = shift_terms(ts, f, c)->Ok_0;
        let prefix = shift_terms(ts.drop_last(), f, c)->Ok_0;
        assert(us.drop_last() =~= prefix);
        assert(ts.drop_last().push(ts.last()) =~= ts);
        let u_last = shift_term(ts.last(), f, c)->Ok_0;
        assert(us == prefix.push(u_last));
        assert(us.drop_last() == prefix);
        assert(us.last() == u_last);
    } else {
        assert(ts =~= Seq::<Term>::empty());
    }
}

proof fn lemma_labeled_arg<F: ShiftFn, G: ShiftFn>(x: LabeledArg, f: F, g: G, c: nat)
    requires
        undoes_at_or_above(f, g, c),
    ensures
        shift_labeled_arg(x, f, c) is Ok,
        shift_labeled_arg(shift_labeled_arg(x, f, c)->Ok_0, g, c) == Ok::<LabeledArg, G::ShiftError>(x),
    decreases x,
{
    match x {
        LabeledArg::Implicit { .. } => {},
        LabeledArg::Explicit { value, .. } => lemma_shift_is_undone(value, f, g, c),
    }
}

proof fn lemma_labeled_args<F: ShiftFn, G: ShiftFn>(ls: Seq<LabeledArg>, f: F, g: G, c: nat)
    requires
        undoes_at_or_above(f, g, c),
    ensures
        shift_labeled_args(ls, f, c) is Ok,
        shift_labeled_args(shift_labeled_args(ls, f, c)->Ok_0, g, c) == Ok::<Seq<LabeledArg>, G::ShiftError>(ls),
    decreases ls,
{
    if ls.len() > 0 {
        lemma_labeled_args(ls.drop_last(), f, g, c);
        lemma_labeled_arg(ls.last(), f, g, c);
        let us = shift_labeled_args(ls, f, c)->Ok_0;
        let prefix = shift_labeled_args(ls.drop_last(), f, c)->Ok_0;
        assert(us.drop_last() =~= prefix);
        assert(ls.drop_last().push(ls.last()) =~= ls);
        let u_last = shift_labeled_arg(ls.last(), f, c)->Ok_0;
        assert(us == prefix.push(u_last));
        assert(us.drop_last() == prefix);
        assert(us.last() == u_last);
    } else {
        assert(ls =~= Seq::<LabeledArg>::empty());
    }
}

/// Shifting the parameters keeps their number.
pub proof fn lemma_params_len<F: ShiftFn>(ps: Seq<ParamTerm>, f: F, c: nat)
    requires
        shift_params(ps, f, c) is Ok,
    ensures
        shift_params(ps, f, c)->Ok_0.len() == ps.len(),
    decreases ps.len(),
{
    if ps.len() > 0 {
        lemma_params_len(ps.drop_last(), f, c);
    } else {
        assert(ps =~= Seq::<ParamTerm>::empty());
    }
}

proof fn lemma_params<F: ShiftFn, G: ShiftFn>(ps: Seq<ParamTerm>, f: F, g: G, c: nat)
    requires
        undoes_at_or_above(f, g, c),
    ensures
        shift_params(ps, f, c) is Ok,
        shift_params(shift_params(ps, f, c)->Ok_0, g, c) == Ok::<Seq<ParamTerm>, G::ShiftError>(ps),
    decreases ps,
{
    if ps.len() > 0 {
        lemma_params(ps.drop_last(), f, g, c);
        lemma_shift_is_undone(ps.last().type_, f, g, (c + ps.len() - 1) as nat);
        lemma_params_len(ps.drop_last(), f, c);
        let us = shift_params(ps, f, c)->Ok_0;
        let prefix = shift_params(ps.drop_last(), f, c)->Ok_0;
        assert(us.drop_last() =~= prefix);
        assert(us.len() == ps.len());
        assert(ps.drop_last().push(ps.last()) =~= ps);
        let u_last = ParamTerm { type_: shift_term(ps.last().type_, f, (c + ps.len() - 1) as nat)->Ok_0, ..ps.last() };
        assert(us == prefix.push(u_last));
        assert(us.drop_last() == prefix);
        assert(us.last() == u_last);
    } else {
        assert(ps =~= Seq::<ParamTerm>::empty());
    }
}

proof fn lemma_cases<F: ShiftFn, G: ShiftFn>(cs: Seq<CaseTerm>, f: F, g: G, c: nat)
    requires
        undoes_at_or_above(f, g, c),
    ensures
        shift_cases(cs, f, c) is Ok,
        shift_cases(shift_cases(cs, f, c)->Ok_0, g, c) == Ok::<Seq<CaseTerm>, G::ShiftError>(cs),
    decreases cs,
{
    if cs.len() > 0 {
        lemma_cases(cs.drop_last(), f, g, c);
        lemma_shift_is_undone(cs.last().output, f, g, c + cs.last().params.len());
        let us = shift_cases(cs, f, c)->Ok_0;
        let prefix = shift_cases(cs.drop_last(), f, c)->Ok_0;
        assert(us.drop_last() =~= prefix);
        assert(cs.drop_last().push(cs.last()) =~= cs);
        let u_last = CaseTerm { output: shift_term(cs.last().output, f, c + cs.last().params.len())->Ok_0, ..cs.last() };
        assert(us == prefix.push(u_last));
        assert(us.drop_last() == prefix);
        assert(us.last() == u_last);
    } else {
        assert(cs =~= Seq::<CaseTerm>::empty());
    }
}

proof fn lemma_optional<F: ShiftFn, G: ShiftFn>(o: Option<Term>, f: F, g: G, c: nat)
    requires
        undoes_at_or_above(f, g, c),
    ensures
        shift_optional(o, f, c) is Ok,
        shift_optional(shift_optional(o, f, c)->Ok_0, g, c) == Ok::<Option<Term>, G::ShiftError>(o),
    decreases o,
{
    match o {
        None => {},
        Some(t) => lemma_shift_is_undone(t, f, g, c),
    }
}

proof fn lemma_assertions<F: ShiftFn, G: ShiftFn>(xs: Seq<AssertionTerm>, f: F, g: G, c: nat)
    requires
        undoes_at_or_above(f, g, c),
    ensures
        shift_assertions(xs, f, c) is Ok,
        shift_assertions(shift_assertions(xs, f, c)->Ok_0, g, c) == Ok::<Seq<AssertionTerm>, G::ShiftError>(xs),
    decreases xs,
{
    if xs.len() > 0 {
        lemma_assertions(xs.drop_last(), f, g, c);
        lemma_optional(xs.last().left, f, g, c);
        lemma_optional(xs.last().right, f, g, c);
        let us = shift_assertions(xs, f, c)->Ok_0;
        let prefix = shift_assertions(xs.drop_last(), f, c)->Ok_0;
        assert(us.drop_last() =~= prefix);
        assert(xs.drop_last().push(xs.last()) =~= xs);
        let u_last = AssertionTerm { left: shift_optional(xs.last().left, f, c)->Ok_0, right: shift_optional(xs.last().right, f, c)->Ok_0, ..xs.last() };
        assert(us == prefix.push(u_last));
        assert(us.drop_last() == prefix);
        assert(us.last() == u_last);
    } else {
        assert(xs =~= Seq::<AssertionTerm>::empty());
    }
}

/// Upshifting a term by `a` at cutoff `c` succeeds, and downshifting the
/// result by `a` at the same cutoff gives back the original term.
pub proof fn lemma_downshift_undoes_upshift(t: Term, a: usize, c: nat)
    ensures
        shift_term(t, UpshiftFn(a), c) is Ok,
        shift_term(shift_term(t, UpshiftFn(a), c)->Ok_0, DownshiftFn(a), c) == Ok::<Term, crate::shift::DbIndexTooSmallForDownshiftError>(t),
{
    lemma_shift_is_undone(t, UpshiftFn(a), DownshiftFn(a), c);
}

}
