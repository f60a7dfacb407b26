//! How the least free index moves when a term is upshifted.

use vstd::prelude::*;
use crate::ast::{Term, ArgList, LabeledArg, ParamTerm, CaseTerm, AssertionTerm};
use crate::min_db_index::{
    opt_min, min_index_term, min_index_arg_list, min_index_terms, min_index_labeled_arg,
    min_index_labeled_args, min_index_params, min_index_cases, min_index_optional, min_index_assertions,
};
use crate::shift::{
    UpshiftFn, shift_term, shift_arg_list, shift_terms, shift_labeled_arg, shift_labeled_args, shift_params,
    shift_cases, shift_assertions, shift_optional,
};
use crate::shift_laws::{lemma_downshift_undoes_upshift, lemma_params_len};

verus! {

/// `o` increased by `a`, where `None` stands for infinity.
pub open spec fn opt_add(o: Option<nat>, a: nat) -> Option<nat> {
    match o {
        Some(k) => Some(k + a),
        None => None,
    }
}

proof fn lemma_opt_min_add(x: Option<nat>, y: Option<nat>, a: nat)
    ensures
        opt_min(opt_add(x, a), opt_add(y, a)) == opt_add(opt_min(x, y), a),
{
}

/// Upshifting a term by `a` at cutoff `c` raises its least free index
/// (measured from `c`) by `a`, and leaves a term without free indices
/// without them.
pub proof fn lemma_upshift_raises_min_index(t: Term, a: usize, c: nat)
    ensures
        min_index_term(shift_term(t, UpshiftFn(a), c)->Ok_0, c) == opt_add(min_index_term(t, c), a as nat),
    decreases t,
{
    lemma_downshift_undoes_upshift(t, a, c);
    let f = UpshiftFn(a);
    match t {
        Term::Name { .. } => {},
        Term::Call { callee, args } => {
            lemma_downshift_undoes_upshift(*callee, a, c);
            lemma_upshift_raises_min_index(*callee, a, c);
            lemma_arg_list(args, a, c);
            lemma_opt_min_add(min_index_term(*callee, c), min_index_arg_list(args, c), a as nat);
        },
        Term::Fun { params, return_type, body, .. } => {
            lemma_params(params, a, c);
            lemma_params_len(params, f, c);
            lemma_downshift_undoes_upshift(*return_type, a, c + params.len());
            lemma_downshift_undoes_upshift(*body, a, c + params.len() + 1);
            lemma_upshift_raises_min_index(*return_type, a, c + params.len());
            lemma_upshift_raises_min_index(*body, a, c + params.len() + 1);
            lemma_opt_min_add(min_index_term(*return_type, c + params.len()), min_index_term(*body, c + params.len() + 1), a as nat);
            lemma_opt_min_add(
                opt_min(min_index_term(*return_type, c + params.len()), min_index_term(*body, c + params.len() + 1)),
                min_index_params(params, c),
                a as nat,
            );
        },
        Term::Match { matchee, cases } => {
            lemma_downshift_undoes_upshift(*matchee, a, c);
            lemma_upshift_raises_min_index(*matchee, a, c);
            lemma_cases(cases, a, c);
            lemma_opt_min_add(min_index_term(*matchee, c), min_index_cases(cases, c), a as nat);
        },
        Term::Forall { params, output } => {
            lemma_params(params, a, c);
            lemma_params_len(params, f, c);
            lemma_downshift_undoes_upshift(*output, a, c + params.len());
            lemma_upshift_raises_min_index(*output, a, c + params.len());
            lemma_opt_min_add(min_index_term(*output, c + params.len()), min_index_params(params, c), a as nat);
        },
        Term::Check { assertions, output } => {
            lemma_assertions(assertions, a, c);
            lemma_downshift_undoes_upshift(*output, a, c);
            lemma_upshift_raises_min_index(*output, a, c);
            lemma_opt_min_add(min_index_assertions(assertions, c), min_index_term(*output, c), a as nat);
        },
    }
}

proof fn lemma_arg_list(x: ArgList, a: usize, c: nat)
    ensures
        shift_arg_list(x, UpshiftFn(a), c) is Ok,
        min_index_arg_list(shift_arg_list(x, UpshiftFn(a), c)->Ok_0, c) == opt_add(min_index_arg_list(x, c), a as nat),
    decreases x,
{
    match x {
        ArgList::Unlabeled(ts) => lemma_terms(ts, a, c),
        ArgList::Labeled(ls) => lemma_labeled_args(ls, a, c),
    }
}

proof fn lemma_terms(ts: Seq<Term>, a: usize, c: nat)
    ensures
        shift_terms(ts, UpshiftFn(a), c) is Ok,
        min_index_terms(shift_terms(ts, UpshiftFn(a), c)->Ok_0, c) == opt_add(min_index_terms(ts, c), a as nat),
    decreases ts,
{
    if ts.len() > 0 {
        lemma_terms(ts.drop_last(), a, c);
        lemma_downshift_undoes_upshift(ts.last(), a, c);
        lemma_upshift_raises_min_index(ts.last(), a, c);
        let us = shift_terms(ts, UpshiftFn(a), c)->Ok_0;
        let prefix = shift_terms(ts.drop_last(), UpshiftFn(a), c)->Ok_0;
        let u_last = shift_term(ts.last(), UpshiftFn(a), c)->Ok_0;
        assert(us == prefix.push(u_last));
        assert(us.drop_last() =~= prefix);
        assert(us.last() == u_last);
        lemma_opt_min_add(min_index_terms(ts.drop_last(), c), min_index_term(ts.last(), c), a as nat);
    }
}

proof fn lemma_labeled_arg(x: LabeledArg, a: usize, c: nat)
    ensures
        shift_labeled_arg(x, UpshiftFn(a), c) is Ok,
        min_index_labeled_arg(shift_labeled_arg(x, UpshiftFn(a), c)->Ok_0, c) == opt_add(min_index_labeled_arg(x, c), a as nat),
    decreases x,
{
    match x {
        LabeledArg::Implicit { .. } => {},
        LabeledArg::Explicit { value, .. } => {
            lemma_downshift_undoes_upshift(value, a, c);
            lemma_upshift_raises_min_index(value, a, c);
        },
    }
}

proof fn lemma_labeled_args(ls: Seq<LabeledArg>, a: usize, c: nat)
    ensures
        shift_labeled_args(ls, UpshiftFn(a), c) is Ok,
        min_index_labeled_args(shift_labeled_args(ls, UpshiftFn(a), c)->Ok_0, c) == opt_add(min_index_labeled_args(ls, c), a as nat),
    decreases ls,
{
    if ls.len() > 0 {
        lemma_labeled_args(ls.drop_last(), a, c);
        lemma_labeled_arg(ls.last(), a, c);
        let us = shift_labeled_args(ls, UpshiftFn(a), c)->Ok_0;
        let prefix = shift_labeled_args(ls.drop_last(), UpshiftFn(a), c)->Ok_0;
        let u_last = shift_labeled_arg(ls.last(), UpshiftFn(a), c)->Ok_0;
        assert(us == prefix.push(u_last));
        assert(us.drop_last() =~= prefix);
        assert(us.last() == u_last);
        lemma_opt_min_add(min_index_labeled_args(ls.drop_last(), c), min_index_labeled_arg(ls.last(), c), a as nat);
    }
}

proof fn lemma_params(ps: Seq<ParamTerm>, a: usize, c: nat)
    ensures
        shift_params(ps, UpshiftFn(a), c) is Ok,
        min_index_params(shift_params(ps, UpshiftFn(a), c)->Ok_0, c) == opt_add(min_index_params(ps, c), a as nat),
    decreases ps,
{
    if ps.len() > 0 {
        let k = (c + ps.len() - 1) as nat;
        lemma_params(ps.drop_last(), a, c);
        lemma_params_len(ps.drop_last(), UpshiftFn(a), c);
        lemma_downshift_undoes_upshift(ps.last().type_, a, k);
        lemma_upshift_raises_min_index(ps.last().type_, a, k);
        let us = shift_params(ps, UpshiftFn(a), c)->Ok_0;
        let prefix = shift_params(ps.drop_last(), UpshiftFn(a), c)->Ok_0;
        let u_last = ParamTerm { type_: shift_term(ps.last().type_, UpshiftFn(a), k)->Ok_0, ..ps.last() };
        assert(us == prefix.push(u_last));
        assert(us.drop_last() =~= prefix);
        assert(us.last() == u_last);
        assert(us.len() == ps.len());
        lemma_opt_min_add(min_index_params(ps.drop_last(), c), min_index_term(ps.last().type_, k), a as nat);
    }
}

proof fn lemma_cases(cs: Seq<CaseTerm>, a: usize, c: nat)
    ensures
        shift_cases(cs, UpshiftFn(a), c) is Ok,
        min_index_cases(shift_cases(cs, UpshiftFn(a), c)->Ok_0, c) == opt_add(min_index_cases(cs, c), a as nat),
    decreases cs,
{
    if cs.len() > 0 {
        let k = c + cs.last().params.len();
        lemma_cases(cs.drop_last(), a, c);
        lemma_downshift_undoes_upshift(cs.last().output, a, k);
        lemma_upshift_raises_min_index(cs.last().output, a, k);
        let us = shift_cases(cs, UpshiftFn(a), c)->Ok_0;
        let prefix = shift_cases(cs.drop_last(), UpshiftFn(a), c)->Ok_0;
        let u_last = CaseTerm { output: shift_term(cs.last().output, UpshiftFn(a), k)->Ok_0, ..cs.last() };
        assert(us == prefix.push(u_last));
        assert(us.drop_last() =~= prefix);
        assert(us.last() == u_last);
        lemma_opt_min_add(min_index_cases(cs.drop_last(), c), min_index_term(cs.last().output, k), a as nat);
    }
}

proof fn lemma_optional(o: Option<Term>, a: usize, c: nat)
    ensures
        shift_optional(o, UpshiftFn(a), c) is Ok,
        min_index_optional(shift_optional(o, UpshiftFn(a), c)->Ok_0, c) == opt_add(min_index_optional(o, c), a as nat),
    decreases o,
{
    match o {
        None => {},
        Some(t) => {
            lemma_downshift_undoes_upshift(t, a, c);
            lemma_upshift_raises_min_index(t, a, c);
        },
    }
}

proof fn lemma_assertions(xs: Seq<AssertionTerm>, a: usize, c: nat)
    ensures
        shift_assertions(xs, UpshiftFn(a), c) is Ok,
        min_index_assertions(shift_assertions(xs, UpshiftFn(a), c)->Ok_0, c) == opt_add(min_index_assertions(xs, c), a as nat),
    decreases xs,
{
    if xs.len() > 0 {
        lemma_assertions(xs.drop_last(), a, c);
        lemma_optional(xs.last().left, a, c);
        lemma_optional(xs.last().right, a, c);
        let us = shift_assertions(xs, UpshiftFn(a), c)->Ok_0;
        let prefix = shift_assertions(xs.drop_last(), UpshiftFn(a), c)->Ok_0;
        let u_last = AssertionTerm {
            left: shift_optional(xs.last().left, UpshiftFn(a), c)->Ok_0,
            right: shift_optional(xs.last().right, UpshiftFn(a), c)->Ok_0,
            ..xs.last()
        };
        assert(us == prefix.push(u_last));
        assert(us.drop_last() =~= prefix);
        assert(us.last() == u_last);
        lemma_opt_min_add(min_index_optional(xs.last().left, c), min_index_optional(xs.last().right, c), a as nat);
        lemma_opt_min_add(
            min_index_assertions(xs.drop_last(), c),
            opt_min(min_index_optional(xs.last().left, c), min_index_optional(xs.last().right, c)),
            a as nat,
        );
    }
}

}
