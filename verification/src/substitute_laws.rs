//! Laws of substitution.

use vstd::prelude::*;
use crate::ast::{Term, ArgList, LabeledArg};
use crate::subterm::{is_inclusive_subterm, labeled_arg_contains};
use crate::substitute::{
    subst_term, subst_arg_list, subst_terms, subst_labeled_arg, subst_labeled_args, subst_params,
    subst_cases, subst_optional, subst_assertions, up,
};

verus! {

/// Whether an implicit labeled argument in `t` stands for the variable that
/// the name `x` denotes (with `x` upshifted under binders). Substituting
/// such a name rewrites the argument into its explicit form.
pub open spec fn implicit_arg_names(t: Term, x: Term) -> bool
    decreases t,
{
    match t {
        Term::Name { .. } => false,
        Term::Call { callee, args } => implicit_arg_names(*callee, x) || args_implicit_arg_names(args, x),
        Term::Fun { params, return_type, body, .. } => {
            ||| exists|i: int| 0 <= i < params.len() && implicit_arg_names(#[trigger] params[i].type_, up(x, i as nat))
            ||| implicit_arg_names(*return_type, up(x, params.len()))
            ||| implicit_arg_names(*body, up(x, params.len() + 1))
        },
        Term::Match { matchee, cases } => {
            ||| implicit_arg_names(*matchee, x)
            ||| exists|i: int| 0 <= i < cases.len() && implicit_arg_names(#[trigger] cases[i].output, up(x, cases[i].params.len()))
        },
        Term::Forall { params, output } => {
            ||| exists|i: int| 0 <= i < params.len() && implicit_arg_names(#[trigger] params[i].type_, up(x, i as nat))
            ||| implicit_arg_names(*output, up(x, params.len()))
        },
        Term::Check { assertions, output } => {
            ||| exists|i: int|
                0 <= i < assertions.len() && (match (#[trigger] assertions[i]).left {
                    Some(l) => implicit_arg_names(l, x),
                    None => false,
                } || match assertions[i].right {
                    Some(r) => implicit_arg_names(r, x),
                    None => false,
                })
            ||| implicit_arg_names(*output, x)
        },
    }
}

pub open spec fn args_implicit_arg_names(a: ArgList, x: Term) -> bool
    decreases a,
{
    match a {
        ArgList::Unlabeled(ts) => exists|i: int| 0 <= i < ts.len() && implicit_arg_names(#[trigger] ts[i], x),
        ArgList::Labeled(ls) => exists|i: int|
            0 <= i < ls.len() && match #[trigger] ls[i] {
                LabeledArg::Implicit { index, .. } => x matches Term::Name { index: xi, .. } && xi == index,
                LabeledArg::Explicit { value, .. } => implicit_arg_names(value, x),
            },
    }
}

/// Replacing an expression by itself leaves every term unchanged, but for
/// implicit labeled arguments that stand for it.
pub proof fn lemma_subst_by_itself_is_identity(t: Term, x: Term)
    requires
        !implicit_arg_names(t, x),
    ensures
        subst_term(t, x, x) == t,
    decreases t,
{
    match t {
        Term::Name { .. } => {},
        Term::Call { callee, args } => {
            lemma_subst_by_itself_is_identity(*callee, x);
            lemma_arg_list_identity(args, x);
        },
        Term::Fun { params, return_type, body, .. } => {
            assert forall|i: int| 0 <= i < params.len() implies subst_term(#[trigger] params[i].type_, up(x, i as nat), up(x, i as nat)) == params[i].type_ by {
                lemma_subst_by_itself_is_identity(params[i].type_, up(x, i as nat));
            }
            assert(subst_params(params, x, x) =~= params);
            lemma_subst_by_itself_is_identity(*return_type, up(x, params.len()));
            lemma_subst_by_itself_is_identity(*body, up(x, params.len() + 1));
        },
        Term::Match { matchee, cases } => {
            lemma_subst_by_itself_is_identity(*matchee, x);
            assert forall|i: int| 0 <= i < cases.len() implies subst_term(#[trigger] cases[i].output, up(x, cases[i].params.len()), up(x, cases[i].params.len())) == cases[i].output by {
                lemma_subst_by_itself_is_identity(cases[i].output, up(x, cases[i].params.len()));
            }
            assert(subst_cases(cases, x, x) =~= cases);
        },
        Term::Forall { params, output } => {
            assert forall|i: int| 0 <= i < params.len() implies subst_term(#[trigger] params[i].type_, up(x, i as nat), up(x, i as nat)) == params[i].type_ by {
                lemma_subst_by_itself_is_identity(params[i].type_, up(x, i as nat));
            }
            assert(subst_params(params, x, x) =~= params);
            lemma_subst_by_itself_is_identity(*output, up(x, params.len()));
        },
        Term::Check { assertions, output } => {
            assert forall|i: int| 0 <= i < assertions.len() implies subst_optional(#[trigger] assertions[i].left, x, x) == assertions[i].left
                && subst_optional(assertions[i].right, x, x) == assertions[i].right by {
                match assertions[i].left {
                    Some(l) => lemma_subst_by_itself_is_identity(l, x),
                    None => {},
                }
                match assertions[i].right {
                    Some(r) => lemma_subst_by_itself_is_identity(r, x),
                    None => {},
                }
            }
            assert(subst_assertions(assertions, x, x) =~= assertions);
            lemma_subst_by_itself_is_identity(*output, x);
        },
    }
}

proof fn lemma_arg_list_identity(a: ArgList, x: Term)
    requires
        !args_implicit_arg_names(a, x),
    ensures
        subst_arg_list(a, x, x) == a,
    decreases a,
{
    match a {
        ArgList::Unlabeled(ts) => {
            assert forall|i: int| 0 <= i < ts.len() implies subst_term(#[trigger] ts[i], x, x) == ts[i] by {
                lemma_subst_by_itself_is_identity(ts[i], x);
            }
            assert(subst_terms(ts, x, x) =~= ts);
        },
        ArgList::Labeled(ls) => {
            assert forall|i: int| 0 <= i < ls.len() implies subst_labeled_arg(#[trigger] ls[i], x, x) == ls[i] by {
                match ls[i] {
                    LabeledArg::Implicit { .. } => {},
                    LabeledArg::Explicit { value, .. } => lemma_subst_by_itself_is_identity(value, x),
                }
            }
            assert(subst_labeled_args(ls, x, x) =~= ls);
        },
    }
}

/// A term equal to the substitution's left-hand side becomes its right-hand side.
pub proof fn lemma_subst_replaces_lhs(from: Term, to: Term)
    requires
        from != to || !implicit_arg_names(from, from),
    ensures
        subst_term(from, from, to) == to,
{
    if from == to {
        lemma_subst_by_itself_is_identity(from, from);
    }
}


/// A substitution whose left-hand side occurs nowhere in a term (see
/// `is_inclusive_subterm`), not even as an implicit labeled argument,
/// leaves the term unchanged.
pub proof fn lemma_subst_without_occurrence_is_identity(t: Term, from: Term, to: Term)
    requires
        !is_inclusive_subterm(from, t),
        !implicit_arg_names(t, from),
    ensures
        subst_term(t, from, to) == t,
    decreases t, 1nat,
{
    match t {
        Term::Name { .. } => {},
        Term::Call { .. } => lemma_call_without_occurrence(t, from, to),
        Term::Fun { .. } => lemma_fun_without_occurrence(t, from, to),
        Term::Match { .. } => lemma_match_without_occurrence(t, from, to),
        Term::Forall { .. } => lemma_forall_without_occurrence(t, from, to),
        Term::Check { .. } => lemma_check_without_occurrence(t, from, to),
    }
}

proof fn lemma_call_without_occurrence(t: Term, from: Term, to: Term)
    requires
        t is Call,
        !is_inclusive_subterm(from, t),
        !implicit_arg_names(t, from),
    ensures
        subst_term(t, from, to) == t,
    decreases t, 0nat,
{
    if let Term::Call { callee, args } = t {
        lemma_subst_without_occurrence_is_identity(*callee, from, to);
        assert(!args_implicit_arg_names(args, from));
        lemma_args_without_occurrence(args, from, to);
    }
}

proof fn lemma_args_without_occurrence(a: ArgList, from: Term, to: Term)
    requires
        !args_implicit_arg_names(a, from),
        match a {
            ArgList::Unlabeled(ts) => !(exists|i: int| 0 <= i < ts.len() && is_inclusive_subterm(from, #[trigger] ts[i])),
            ArgList::Labeled(ls) => !(exists|i: int| 0 <= i < ls.len() && labeled_arg_contains(from, #[trigger] ls[i])),
        },
    ensures
        subst_arg_list(a, from, to) == a,
    decreases a, 0nat,
{
    match a {
        ArgList::Unlabeled(ts) => {
            assert forall|i: int| 0 <= i < ts.len() implies subst_term(#[trigger] ts[i], from, to) == ts[i] by {
                assert(!implicit_arg_names(ts[i], from));
                assert(!is_inclusive_subterm(from, ts[i]));
                lemma_subst_without_occurrence_is_identity(ts[i], from, to);
            }
            assert(subst_terms(ts, from, to) =~= ts);
        },
        ArgList::Labeled(ls) => {
            assert forall|i: int| 0 <= i < ls.len() implies subst_labeled_arg(#[trigger] ls[i], from, to) == ls[i] by {
                assert(!labeled_arg_contains(from, ls[i]));
                match ls[i] {
                    LabeledArg::Implicit { .. } => {},
                    LabeledArg::Explicit { value, .. } => lemma_subst_without_occurrence_is_identity(value, from, to),
                }
            }
            assert(subst_labeled_args(ls, from, to) =~= ls);
        },
    }
}

proof fn lemma_fun_without_occurrence(t: Term, from: Term, to: Term)
    requires
        t is Fun,
        !is_inclusive_subterm(from, t),
        !implicit_arg_names(t, from),
    ensures
        subst_term(t, from, to) == t,
    decreases t, 0nat,
{
    if let Term::Fun { params, return_type, body, .. } = t {
        assert forall|i: int| 0 <= i < params.len() implies subst_term(#[trigger] params[i].type_, up(from, i as nat), up(to, i as nat)) == params[i].type_ by {
            lemma_subst_without_occurrence_is_identity(params[i].type_, up(from, i as nat), up(to, i as nat));
        }
        assert(subst_params(params, from, to) =~= params);
        lemma_subst_without_occurrence_is_identity(*return_type, up(from, params.len()), up(to, params.len()));
        lemma_subst_without_occurrence_is_identity(*body, up(from, params.len() + 1), up(to, params.len() + 1));
    }
}

proof fn lemma_match_without_occurrence(t: Term, from: Term, to: Term)
    requires
        t is Match,
        !is_inclusive_subterm(from, t),
        !implicit_arg_names(t, from),
    ensures
        subst_term(t, from, to) == t,
    decreases t, 0nat,
{
    if let Term::Match { matchee, cases } = t {
        lemma_subst_without_occurrence_is_identity(*matchee, from, to);
        assert forall|i: int| 0 <= i < cases.len() implies subst_term(#[trigger] cases[i].output, up(from, cases[i].params.len()), up(to, cases[i].params.len())) == cases[i].output by {
            lemma_subst_without_occurrence_is_identity(cases[i].output, up(from, cases[i].params.len()), up(to, cases[i].params.len()));
        }
        assert(subst_cases(cases, from, to) =~= cases);
    }
}

proof fn lemma_forall_without_occurrence(t: Term, from: Term, to: Term)
    requires
        t is Forall,
        !is_inclusive_subterm(from, t),
        !implicit_arg_names(t, from),
    ensures
        subst_term(t, from, to) == t,
    decreases t, 0nat,
{
    if let Term::Forall { params, output } = t {
        assert forall|i: int| 0 <= i < params.len() implies subst_term(#[trigger] params[i].type_, up(from, i as nat), up(to, i as nat)) == params[i].type_ by {
            lemma_subst_without_occurrence_is_identity(params[i].type_, up(from, i as nat), up(to, i as nat));
        }
        assert(subst_params(params, from, to) =~= params);
        lemma_subst_without_occurrence_is_identity(*output, up(from, params.len()), up(to, params.len()));
    }
}

proof fn lemma_check_without_occurrence(t: Term, from: Term, to: Term)
    requires
        t is Check,
        !is_inclusive_subterm(from, t),
        !implicit_arg_names(t, from),
    ensures
        subst_term(t, from, to) == t,
    decreases t, 0nat,
{
    if let Term::Check { assertions, output } = t {
        assert forall|i: int| 0 <= i < assertions.len() implies subst_optional(#[trigger] assertions[i].left, from, to) == assertions[i].left
            && subst_optional(assertions[i].right, from, to) == assertions[i].right by {
            match assertions[i].left {
                Some(l) => lemma_subst_without_occurrence_is_identity(l, from, to),
                None => {},
            }
            match assertions[i].right {
                Some(r) => lemma_subst_without_occurrence_is_identity(r, from, to),
                None => {},
            }
        }
        assert(subst_assertions(assertions, from, to) =~= assertions);
        lemma_subst_without_occurrence_is_identity(*output, from, to);
    }
}

}
