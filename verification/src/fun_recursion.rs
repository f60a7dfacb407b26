//! The check that every recursive function call terminates: a function
//! may call itself only with a strict substructure of its decreasing
//! (dashed) parameter, and may not refer to itself other than by calling.

use vstd::prelude::*;
use crate::ast::{
    DbIndex, DbLevel, Term, ArgList, LabeledArg, ParamTerm, CaseTerm, IdName, Identifier, Expression,
    NameExpression, Call, CallArgList, LabeledCallArg, Param, Fun, Match, MatchCase, Forall, Check,
    CheckAssertion, exprs_view, labeled_args_view, params_view, cases_view, assertions_view,
    optional_view, idents_view, copy_identifier, copy_identifiers,
};
pub use crate::ast::{IllegalFunRecursionError, FunRecursionErrorView, IllegalFunRecursionExpression};
use crate::equality::copy_expression;
use crate::fun_recursion_marks::{mark_term, mark_expression};
use crate::fun_recursion_context::{
    Context, ContextEntry, ReferenceRestriction, Tainted, stack_wf, strict_substruct, restriction_at, inclusive_substruct,
};

verus! {

// ---------------------------------------------------------------------
// The model of the check
// ---------------------------------------------------------------------

/// `s` with `n` copies of `e` pushed on it.
pub open spec fn push_n(s: Seq<ContextEntry>, n: nat, e: ContextEntry) -> Seq<ContextEntry> {
    s + Seq::new(n, |i: int| e)
}

/// Every variable of `t` is bound in `t` or is one of `n` variables in
/// scope.
pub open spec fn well_scoped(t: Term, n: nat) -> bool
    decreases t,
{
    match t {
        Term::Name { index, .. } => index < n,
        Term::Call { callee, args } => {
            &&& well_scoped(*callee, n)
            &&& match args {
                ArgList::Unlabeled(ts) => forall|i: int| 0 <= i < ts.len() ==> well_scoped(#[trigger] ts[i], n),
                ArgList::Labeled(ls) => forall|i: int|
                    0 <= i < ls.len() ==> match #[trigger] ls[i] {
                        LabeledArg::Implicit { index, .. } => index < n,
                        LabeledArg::Explicit { value, .. } => well_scoped(value, n),
                    },
            }
        },
        Term::Fun { params, return_type, body, .. } => {
            &&& forall|i: int| 0 <= i < params.len() ==> well_scoped(#[trigger] params[i].type_, n + i as nat)
            &&& well_scoped(*return_type, n + params.len())
            &&& well_scoped(*body, n + params.len() + 1)
        },
        Term::Match { matchee, cases } => {
            &&& well_scoped(*matchee, n)
            &&& forall|i: int| 0 <= i < cases.len() ==> well_scoped((#[trigger] cases[i]).output, n + cases[i].params.len())
        },
        Term::Forall { params, output } => {
            &&& forall|i: int| 0 <= i < params.len() ==> well_scoped(#[trigger] params[i].type_, n + i as nat)
            &&& well_scoped(*output, n + params.len())
        },
        Term::Check { assertions, output } => {
            &&& forall|i: int|
                0 <= i < assertions.len() ==> {
                    &&& ((#[trigger] assertions[i]).left matches Some(l) ==> well_scoped(l, n))
                    &&& (assertions[i].right matches Some(r) ==> well_scoped(r, n))
                }
            &&& well_scoped(*output, n)
        },
    }
}

pub open spec fn arg_count(a: ArgList) -> nat {
    match a {
        ArgList::Unlabeled(ts) => ts.len(),
        ArgList::Labeled(ls) => ls.len(),
    }
}

/// The argument at a position; an implicit labeled argument `:x` is the
/// one-component name `x`.
pub open spec fn arg_term(a: ArgList, i: int) -> Term {
    match a {
        ArgList::Unlabeled(ts) => ts[i],
        ArgList::Labeled(ls) => match ls[i] {
            LabeledArg::Implicit { label, index } => Term::Name { components: seq![label], index },
            LabeledArg::Explicit { value, .. } => value,
        },
    }
}

/// A name is legal unless it names a function whose body is being checked.
pub open spec fn name_outcome(s: Seq<ContextEntry>, index: nat, reference: Term) -> Result<(), FunRecursionErrorView> {
    if restriction_at(s, index) is Some {
        Err(FunRecursionErrorView::RecursiveReferenceWasNotDirectCall { reference })
    } else {
        Ok(())
    }
}

/// Whether a call is a recursive call, which is legal only if it respects
/// its callee's restriction.
pub open spec fn call_restriction_outcome(s: Seq<ContextEntry>, callee: Term, args: ArgList) -> Result<bool, FunRecursionErrorView> {
    match callee {
        Term::Name { index, .. } => match restriction_at(s, index) {
            None => Ok(false),
            Some(ReferenceRestriction::CannotCall) => Err(
                FunRecursionErrorView::RecursivelyCalledFunctionWithoutDecreasingParam { callee },
            ),
            Some(ReferenceRestriction::MustCallWithSubstruct { superstruct_db_level, arg_position }) => {
                if arg_position < arg_count(args) {
                    let arg = arg_term(args, arg_position as int);
                    if arg matches Term::Name { index: arg_index, .. } && strict_substruct(
                        s,
                        s.len() - arg_index - 1,
                        superstruct_db_level.0 as int,
                    ) {
                        Ok(true)
                    } else {
                        Err(FunRecursionErrorView::NonSubstructPassedToDecreasingParam { callee, arg })
                    }
                } else {
                    Ok(true)
                }
            },
        },
        _ => Ok(false),
    }
}

/// `p` is the position of the first dashed parameter.
pub open spec fn is_first_dashed(ps: Seq<ParamTerm>, p: int) -> bool {
    &&& 0 <= p < ps.len()
    &&& ps[p].is_dashed
    &&& forall|j: int| 0 <= j < p ==> !(#[trigger] ps[j]).is_dashed
}

/// The restriction on a function whose parameters start at level `level`.
pub open spec fn fun_restriction(level: nat, ps: Seq<ParamTerm>) -> ReferenceRestriction {
    if exists|p: int| is_first_dashed(ps, p) {
        let p = choose|p: int| is_first_dashed(ps, p);
        ReferenceRestriction::MustCallWithSubstruct {
            superstruct_db_level: DbLevel((level + p) as usize),
            arg_position: p as usize,
        }
    } else {
        ReferenceRestriction::CannotCall
    }
}

/// The entry of a variable bound by a case of a match on `matchee`.
pub open spec fn case_entry(s: Seq<ContextEntry>, matchee: Term) -> ContextEntry {
    match matchee {
        Term::Name { index, .. } => ContextEntry::Substruct { superstruct_db_level: DbLevel((s.len() - index - 1) as usize) },
        _ => ContextEntry::NoInformation,
    }
}

/// The first illegal recursion in `t`, in a context `s`. The sides of a
/// check expression's assertions do not count: an error there only marks
/// that side invalid.
pub open spec fn validate_term(s: Seq<ContextEntry>, t: Term) -> Result<(), FunRecursionErrorView>
    decreases t,
{
    match t {
        Term::Name { index, .. } => name_outcome(s, index, t),
        Term::Call { callee, args } => match call_restriction_outcome(s, *callee, args) {
            Err(e) => Err(e),
            Ok(restricted) => match (if restricted { Ok(()) } else { validate_term(s, *callee) }) {
                Err(e) => Err(e),
                Ok(()) => validate_args(s, args),
            },
        },
        Term::Fun { params, return_type, body, .. } => match validate_params(s, params) {
            Err(e) => Err(e),
            Ok(()) => match validate_term(push_n(s, params.len(), ContextEntry::NoInformation), *return_type) {
                Err(e) => Err(e),
                Ok(()) => validate_term(
                    push_n(s, params.len(), ContextEntry::NoInformation).push(
                        ContextEntry::Fun(fun_restriction(s.len(), params)),
                    ),
                    *body,
                ),
            },
        },
        Term::Match { matchee, cases } => match validate_term(s, *matchee) {
            Err(e) => Err(e),
            Ok(()) => validate_cases(s, cases, case_entry(s, *matchee)),
        },
        Term::Forall { params, output } => match validate_params(s, params) {
            Err(e) => Err(e),
            Ok(()) => validate_term(push_n(s, params.len(), ContextEntry::NoInformation), *output),
        },
        Term::Check { output, .. } => validate_term(s, *output),
    }
}

pub open spec fn validate_args(s: Seq<ContextEntry>, a: ArgList) -> Result<(), FunRecursionErrorView>
    decreases a,
{
    match a {
        ArgList::Unlabeled(ts) => validate_terms(s, ts),
        ArgList::Labeled(ls) => validate_labeled_args(s, ls),
    }
}

pub open spec fn validate_terms(s: Seq<ContextEntry>, ts: Seq<Term>) -> Result<(), FunRecursionErrorView>
    decreases ts,
{
    if ts.len() == 0 {
        Ok(())
    } else {
        match validate_terms(s, ts.drop_last()) {
            Err(e) => Err(e),
            Ok(()) => validate_term(s, ts.last()),
        }
    }
}

pub open spec fn validate_labeled_arg(s: Seq<ContextEntry>, a: LabeledArg) -> Result<(), FunRecursionErrorView>
    decreases a,
{
    match a {
        LabeledArg::Implicit { label, index } => name_outcome(s, index, Term::Name { components: seq![label], index }),
        LabeledArg::Explicit { value, .. } => validate_term(s, value),
    }
}

pub open spec fn validate_labeled_args(s: Seq<ContextEntry>, ls: Seq<LabeledArg>) -> Result<(), FunRecursionErrorView>
    decreases ls,
{
    if ls.len() == 0 {
        Ok(())
    } else {
        match validate_labeled_args(s, ls.drop_last()) {
            Err(e) => Err(e),
            Ok(()) => validate_labeled_arg(s, ls.last()),
        }
    }
}

/// The `i`-th parameter type is checked with the `i` parameters before it
/// in scope, of which nothing is known.
pub open spec fn validate_params(s: Seq<ContextEntry>, ps: Seq<ParamTerm>) -> Result<(), FunRecursionErrorView>
    decreases ps,
{
    if ps.len() == 0 {
        Ok(())
    } else {
        match validate_params(s, ps.drop_last()) {
            Err(e) => Err(e),
            Ok(()) => validate_term(push_n(s, (ps.len() - 1) as nat, ContextEntry::NoInformation), ps.last().type_),
        }
    }
}

/// A case's output is checked with the case's variables in scope, each
/// with entry `e`.
pub open spec fn validate_cases(s: Seq<ContextEntry>, cs: Seq<CaseTerm>, e: ContextEntry) -> Result<(), FunRecursionErrorView>
    decreases cs,
{
    if cs.len() == 0 {
        Ok(())
    } else {
        match validate_cases(s, cs.drop_last(), e) {
            Err(err) => Err(err),
            Ok(()) => validate_term(push_n(s, cs.last().params.len(), e), cs.last().output),
        }
    }
}

/// What a function that may leave the context dirty promises: on success
/// the context is as before; on failure it has the old context as a prefix.
pub open spec fn dirty_outcome(
    before: Seq<ContextEntry>,
    after: Seq<ContextEntry>,
    r: Result<(), Tainted<IllegalFunRecursionError>>,
    expected: Result<(), FunRecursionErrorView>,
) -> bool {
    match r {
        Ok(()) => after == before && expected is Ok,
        Err(t) => expected == Err::<(), FunRecursionErrorView>(t.inner()@) && is_prefix(before, after),
    }
}

/// `a` is a prefix of `b`.
pub open spec fn is_prefix(a: Seq<ContextEntry>, b: Seq<ContextEntry>) -> bool {
    &&& a.len() <= b.len()
    &&& forall|i: int| 0 <= i < a.len() ==> b[i] == a[i]
}

// ---------------------------------------------------------------------
// Lemmas
// ---------------------------------------------------------------------

pub proof fn lemma_push_n_wf(s: Seq<ContextEntry>, n: nat, e: ContextEntry)
    requires
        stack_wf(s),
        e matches ContextEntry::Substruct { superstruct_db_level } ==> superstruct_db_level.0 < s.len(),
    ensures
        stack_wf(push_n(s, n, e)),
        push_n(s, n, e).len() == s.len() + n,
        is_prefix(s, push_n(s, n, e)),
{
}

pub proof fn lemma_push_n_step(s: Seq<ContextEntry>, n: nat, e: ContextEntry)
    ensures
        push_n(s, n + 1, e) == push_n(s, n, e).push(e),
{
    assert(push_n(s, n + 1, e) =~= push_n(s, n, e).push(e));
}

pub proof fn lemma_terms_error_prefix(s: Seq<ContextEntry>, ts: Seq<Term>, k: int)
    requires
        0 <= k <= ts.len(),
        validate_terms(s, ts.take(k)) is Err,
    ensures
        validate_terms(s, ts) == validate_terms(s, ts.take(k)),
    decreases ts.len() - k,
{
    if k == ts.len() {
        assert(ts.take(k) =~= ts);
    } else {
        assert(ts.take(k + 1).drop_last() =~= ts.take(k));
        lemma_terms_error_prefix(s, ts, k + 1);
    }
}

pub proof fn lemma_labeled_args_error_prefix(s: Seq<ContextEntry>, ls: Seq<LabeledArg>, k: int)
    requires
        0 <= k <= ls.len(),
        validate_labeled_args(s, ls.take(k)) is Err,
    ensures
        validate_labeled_args(s, ls) == validate_labeled_args(s, ls.take(k)),
    decreases ls.len() - k,
{
    if k == ls.len() {
        assert(ls.take(k) =~= ls);
    } else {
        assert(ls.take(k + 1).drop_last() =~= ls.take(k));
        lemma_labeled_args_error_prefix(s, ls, k + 1);
    }
}

pub proof fn lemma_params_error_prefix(s: Seq<ContextEntry>, ps: Seq<ParamTerm>, k: int)
    requires
        0 <= k <= ps.len(),
        validate_params(s, ps.take(k)) is Err,
    ensures
        validate_params(s, ps) == validate_params(s, ps.take(k)),
    decreases ps.len() - k,
{
    if k == ps.len() {
        assert(ps.take(k) =~= ps);
    } else {
        assert(ps.take(k + 1).drop_last() =~= ps.take(k));
        lemma_params_error_prefix(s, ps, k + 1);
    }
}

pub proof fn lemma_cases_error_prefix(s: Seq<ContextEntry>, cs: Seq<CaseTerm>, e: ContextEntry, k: int)
    requires
        0 <= k <= cs.len(),
        validate_cases(s, cs.take(k), e) is Err,
    ensures
        validate_cases(s, cs, e) == validate_cases(s, cs.take(k), e),
    decreases cs.len() - k,
{
    if k == cs.len() {
        assert(cs.take(k) =~= cs);
    } else {
        assert(cs.take(k + 1).drop_last() =~= cs.take(k));
        lemma_cases_error_prefix(s, cs, e, k + 1);
    }
}


pub proof fn lemma_prefix_trans(a: Seq<ContextEntry>, b: Seq<ContextEntry>, c: Seq<ContextEntry>)
    requires
        is_prefix(a, b),
        is_prefix(b, c),
    ensures
        is_prefix(a, c),
{
    assert forall|i: int| 0 <= i < a.len() implies c[i] == a[i] by {
        assert(c[i] == b[i]);
        assert(b[i] == a[i]);
    }
}

// ---------------------------------------------------------------------
// The check
// ---------------------------------------------------------------------

fn copy_name(n: &NameExpression) -> (r: NameExpression)
    ensures
        r@ == n@,
{
    NameExpression { components: copy_identifiers(&n.components), db_index: n.db_index }
}

/// The one-component name `label`.
pub(crate) fn name_of_label(label: &Identifier, db_index: DbIndex) -> (r: NameExpression)
    ensures
        r@ == (Term::Name { components: seq![label@], index: db_index.0 as nat }),
{
    let components = vec![copy_identifier(label)];
    assert(idents_view(components@) =~= seq![label@]);
    NameExpression { components, db_index }
}

/// Checks an expression for illegal recursion, and puts the context back
/// as it was whatever the outcome. On success it gives back the expression
/// with each check assertion side that holds illegal recursion marked
/// invalid; such a side does not make the check fail.
pub fn validate_fun_recursion_in_expression(context: &mut Context, e: &Expression) -> (r: Result<Expression, IllegalFunRecursionError>)
    requires
        stack_wf(old(context)@),
        well_scoped(e@, old(context)@.len()),
    ensures
        final(context)@ == old(context)@,
        match r {
            Ok(x) => validate_term(old(context)@, e@) is Ok && x@ == mark_term(old(context)@, e@),
            Err(err) => validate_term(old(context)@, e@) == Err::<(), FunRecursionErrorView>(err@),
        },
{
    match check_fun_recursion_in_expression(context, e) {
        Err(err) => Err(err),
        Ok(()) => Ok(mark_expression(context, e)),
    }
}

/// Checks an expression, and puts the context back as it was whatever
/// the outcome.
pub(crate) fn check_fun_recursion_in_expression(context: &mut Context, e: &Expression) -> (r: Result<(), IllegalFunRecursionError>)
    requires
        stack_wf(old(context)@),
        well_scoped(e@, old(context)@.len()),
    ensures
        final(context)@ == old(context)@,
        match r {
            Ok(()) => validate_term(old(context)@, e@) is Ok,
            Err(err) => validate_term(old(context)@, e@) == Err::<(), FunRecursionErrorView>(err@),
        },
    decreases e, 1nat,
{
    let original_len = context.len();
    match validate_fun_recursion_in_expression_dirty(context, e) {
        Ok(()) => Ok(()),
        Err(tainted) => {
            context.truncate(original_len);
            assert(context@ =~= old(context)@);
            Err(tainted.untaint())
        },
    }
}

pub(crate) fn validate_fun_recursion_in_expression_dirty(context: &mut Context, e: &Expression) -> (r: Result<(), Tainted<IllegalFunRecursionError>>)
    requires
        stack_wf(old(context)@),
        well_scoped(e@, old(context)@.len()),
    ensures
        dirty_outcome(old(context)@, final(context)@, r, validate_term(old(context)@, e@)),
    decreases e, 0nat,
{
    match e {
        Expression::Name(n) => validate_fun_recursion_in_name_dirty(context, n),
        Expression::Call(c) => validate_fun_recursion_in_call_dirty(context, c),
        Expression::Fun(f) => validate_fun_recursion_in_fun_dirty(context, f),
        Expression::Match(m) => validate_fun_recursion_in_match_dirty(context, m),
        Expression::Forall(f) => validate_fun_recursion_in_forall_dirty(context, f),
        Expression::Check(c) => validate_fun_recursion_in_check_dirty(context, c),
    }
}

fn validate_fun_recursion_in_name_dirty(context: &mut Context, name: &NameExpression) -> (r: Result<(), Tainted<IllegalFunRecursionError>>)
    requires
        name.db_index.0 < old(context)@.len(),
    ensures
        final(context)@ == old(context)@,
        dirty_outcome(old(context)@, final(context)@, r, name_outcome(old(context)@, name.db_index.0 as nat, name@)),
{
    if context.reference_restriction(name.db_index).is_some() {
        return Err(Tainted::new(IllegalFunRecursionError::RecursiveReferenceWasNotDirectCall { reference: copy_name(name) }));
    }
    Ok(())
}


/// The error for a recursive call whose decreasing argument is `arg`.
fn non_substruct_error(callee: &NameExpression, arg: Expression) -> (r: Tainted<IllegalFunRecursionError>)
    ensures
        r.inner()@ == (FunRecursionErrorView::NonSubstructPassedToDecreasingParam { callee: callee@, arg: arg@ }),
{
    Tainted::new(IllegalFunRecursionError::NonSubstructPassedToDecreasingParam { callee: copy_name(callee), arg })
}

/// Whether `arg`, passed in a recursive call, is a strict substructure of
/// the decreasing parameter at `superstruct_db_level`.
fn is_substruct_arg(context: &Context, arg: &Expression, superstruct_db_level: DbLevel) -> (r: bool)
    requires
        stack_wf(context@),
        well_scoped(arg@, context@.len()),
    ensures
        r == (arg@ matches Term::Name { index: arg_index, .. } && strict_substruct(
            context@,
            context@.len() - arg_index - 1,
            superstruct_db_level.0 as int,
        )),
{
    match arg {
        Expression::Name(arg_name) => {
            let level = context.index_to_level(arg_name.db_index);
            context.is_left_strict_substruct_of_right(level, superstruct_db_level)
        },
        _ => false,
    }
}

/// Whether the call is a recursive call, failing where it is one that its
/// callee's restriction forbids.
fn is_call_restricted(context: &Context, call: &Call) -> (r: Result<bool, Tainted<IllegalFunRecursionError>>)
    requires
        stack_wf(context@),
        well_scoped(Expression::Call(Box::new(*call))@, context@.len()),
    ensures
        match r {
            Ok(b) => call_restriction_outcome(context@, call.callee@, call.args@) == Ok::<bool, FunRecursionErrorView>(b),
            Err(t) => call_restriction_outcome(context@, call.callee@, call.args@) == Err::<bool, FunRecursionErrorView>(t.inner()@),
        },
{
    assert(well_scoped(call.callee@, context@.len()));
    let callee_name = match &call.callee {
        Expression::Name(n) => n,
        _ => {
            return Ok(false);
        },
    };
    match context.reference_restriction(callee_name.db_index) {
        None => Ok(false),
        Some(ReferenceRestriction::CannotCall) => Err(Tainted::new(
            IllegalFunRecursionError::RecursivelyCalledFunctionWithoutDecreasingParam { callee: copy_name(callee_name) },
        )),
        Some(ReferenceRestriction::MustCallWithSubstruct { superstruct_db_level, arg_position }) => {
            match &call.args {
                CallArgList::Unlabeled(v) => {
                    assert(call.args@ == ArgList::Unlabeled(exprs_view(v@)));
                    if arg_position < v.len() {
                        let arg = &v[arg_position];
                        assert(exprs_view(v@)[arg_position as int] == arg@);
                        assert(match ArgList::Unlabeled(exprs_view(v@)) {
                            ArgList::Unlabeled(ts) => forall|i: int| 0 <= i < ts.len() ==> well_scoped(#[trigger] ts[i], context@.len()),
                            _ => true,
                        });
                        if !is_substruct_arg(context, arg, superstruct_db_level) {
                            return Err(non_substruct_error(callee_name, copy_expression(arg)));
                        }
                    }
                },
                CallArgList::UniquelyLabeled(v) => {
                    assert(call.args@ == ArgList::Labeled(labeled_args_view(v@)));
                    if arg_position < v.len() {
                        assert(labeled_args_view(v@)[arg_position as int] == v@[arg_position as int]@);
                        assert(match ArgList::Labeled(labeled_args_view(v@)) {
                            ArgList::Labeled(ls) => forall|i: int|
                                0 <= i < ls.len() ==> match #[trigger] ls[i] {
                                    LabeledArg::Implicit { index, .. } => index < context@.len(),
                                    LabeledArg::Explicit { value, .. } => well_scoped(value, context@.len()),
                                },
                            _ => true,
                        });
                        match &v[arg_position] {
                            LabeledCallArg::Implicit { label, db_index } => {
                                let arg = Expression::Name(name_of_label(label, *db_index));
                                if !is_substruct_arg(context, &arg, superstruct_db_level) {
                                    return Err(non_substruct_error(callee_name, arg));
                                }
                            },
                            LabeledCallArg::Explicit { value, .. } => {
                                if !is_substruct_arg(context, value, superstruct_db_level) {
                                    return Err(non_substruct_error(callee_name, copy_expression(value)));
                                }
                            },
                        }
                    }
                },
            }
            Ok(true)
        },
    }
}

fn validate_fun_recursion_in_call_dirty(context: &mut Context, call: &Call) -> (r: Result<(), Tainted<IllegalFunRecursionError>>)
    requires
        stack_wf(old(context)@),
        well_scoped(Expression::Call(Box::new(*call))@, old(context)@.len()),
    ensures
        dirty_outcome(old(context)@, final(context)@, r, validate_term(old(context)@, Expression::Call(Box::new(*call))@)),
    decreases call, 0nat,
{
    let ghost s0 = context@;
    let is_restricted = match is_call_restricted(context, call) {
        Ok(b) => b,
        Err(t) => {
            return Err(t);
        },
    };
    // The callee of a permitted recursive call is a name that would
    // otherwise count as an illegal reference.
    if !is_restricted {
        match validate_fun_recursion_in_expression_dirty(context, &call.callee) {
            Err(t) => {
                return Err(t);
            },
            Ok(()) => {},
        }
    }
    validate_fun_recursion_in_call_args_dirty(context, &call.args)
}

fn validate_fun_recursion_in_call_args_dirty(context: &mut Context, args: &CallArgList) -> (r: Result<(), Tainted<IllegalFunRecursionError>>)
    requires
        stack_wf(old(context)@),
        match args@ {
            ArgList::Unlabeled(ts) => forall|i: int| 0 <= i < ts.len() ==> well_scoped(#[trigger] ts[i], old(context)@.len()),
            ArgList::Labeled(ls) => forall|i: int|
                0 <= i < ls.len() ==> match #[trigger] ls[i] {
                    LabeledArg::Implicit { index, .. } => index < old(context)@.len(),
                    LabeledArg::Explicit { value, .. } => well_scoped(value, old(context)@.len()),
                },
        },
    ensures
        dirty_outcome(old(context)@, final(context)@, r, validate_args(old(context)@, args@)),
    decreases args, 0nat,
{
    match args {
        CallArgList::Unlabeled(v) => validate_fun_recursion_in_unlabeled_args_dirty(context, v),
        CallArgList::UniquelyLabeled(v) => validate_fun_recursion_in_labeled_args_dirty(context, v),
    }
}

fn validate_fun_recursion_in_unlabeled_args_dirty(context: &mut Context, v: &Vec<Expression>) -> (r: Result<(), Tainted<IllegalFunRecursionError>>)
    requires
        stack_wf(old(context)@),
        forall|i: int| 0 <= i < v@.len() ==> well_scoped(#[trigger] exprs_view(v@)[i], old(context)@.len()),
    ensures
        dirty_outcome(old(context)@, final(context)@, r, validate_terms(old(context)@, exprs_view(v@))),
    decreases v, 0nat,
{
    let ghost s0 = context@;
    let ghost vv = exprs_view(v@);
    let mut i: usize = 0;
    assert(vv.take(0) =~= Seq::<Term>::empty());
    while i < v.len()
        invariant
            i <= v.len(),
            old(context)@ == s0,
            context@ == s0,
            stack_wf(s0),
            vv == exprs_view(v@),
            forall|k: int| 0 <= k < v@.len() ==> well_scoped(#[trigger] exprs_view(v@)[k], s0.len()),
            validate_terms(s0, vv.take(i as int)) is Ok,
        decreases v.len() - i,
    {
        assert(vv.take(i + 1).drop_last() =~= vv.take(i as int));
        assert(vv.take(i + 1).last() == vv[i as int]);
        assert(vv[i as int] == v@[i as int]@);
        match validate_fun_recursion_in_expression_dirty(context, &v[i]) {
            Err(t) => {
                assert(validate_terms(s0, vv.take(i + 1)) == Err::<(), FunRecursionErrorView>(t.inner()@));
                proof { lemma_terms_error_prefix(s0, vv, i + 1); }

                return Err(t);
            },
            Ok(()) => {},
        }
        i += 1;
    }
    assert(vv.take(v.len() as int) =~= vv);
    Ok(())
}

fn validate_fun_recursion_in_labeled_arg_dirty(context: &mut Context, a: &LabeledCallArg) -> (r: Result<(), Tainted<IllegalFunRecursionError>>)
    requires
        stack_wf(old(context)@),
        match a@ {
            LabeledArg::Implicit { index, .. } => index < old(context)@.len(),
            LabeledArg::Explicit { value, .. } => well_scoped(value, old(context)@.len()),
        },
    ensures
        dirty_outcome(old(context)@, final(context)@, r, validate_labeled_arg(old(context)@, a@)),
    decreases a, 0nat,
{
    match a {
        LabeledCallArg::Implicit { label, db_index } => {
            let name = name_of_label(label, *db_index);
            validate_fun_recursion_in_name_dirty(context, &name)
        },
        LabeledCallArg::Explicit { value, .. } => validate_fun_recursion_in_expression_dirty(context, value),
    }
}

fn validate_fun_recursion_in_labeled_args_dirty(context: &mut Context, v: &Vec<LabeledCallArg>) -> (r: Result<(), Tainted<IllegalFunRecursionError>>)
    requires
        stack_wf(old(context)@),
        forall|i: int|
            0 <= i < v@.len() ==> match #[trigger] labeled_args_view(v@)[i] {
                LabeledArg::Implicit { index, .. } => index < old(context)@.len(),
                LabeledArg::Explicit { value, .. } => well_scoped(value, old(context)@.len()),
            },
    ensures
        dirty_outcome(old(context)@, final(context)@, r, validate_labeled_args(old(context)@, labeled_args_view(v@))),
    decreases v, 0nat,
{
    let ghost s0 = context@;
    let ghost vv = labeled_args_view(v@);
    let mut i: usize = 0;
    assert(vv.take(0) =~= Seq::<LabeledArg>::empty());
    while i < v.len()
        invariant
            i <= v.len(),
            old(context)@ == s0,
            context@ == s0,
            stack_wf(s0),
            vv == labeled_args_view(v@),
            forall|k: int|
                0 <= k < v@.len() ==> match #[trigger] labeled_args_view(v@)[k] {
                    LabeledArg::Implicit { index, .. } => index < s0.len(),
                    LabeledArg::Explicit { value, .. } => well_scoped(value, s0.len()),
                },
            validate_labeled_args(s0, vv.take(i as int)) is Ok,
        decreases v.len() - i,
    {
        assert(vv.take(i + 1).drop_last() =~= vv.take(i as int));
        assert(vv.take(i + 1).last() == vv[i as int]);
        assert(vv[i as int] == v@[i as int]@);
        match validate_fun_recursion_in_labeled_arg_dirty(context, &v[i]) {
            Err(t) => {
                assert(validate_labeled_args(s0, vv.take(i + 1)) == Err::<(), FunRecursionErrorView>(t.inner()@));
                proof { lemma_labeled_args_error_prefix(s0, vv, i + 1); }
                return Err(t);
            },
            Ok(()) => {},
        }
        i += 1;
    }
    assert(vv.take(v.len() as int) =~= vv);
    Ok(())
}


/// Checks the parameter types, pushing an entry for each parameter after
/// checking its type; on success the parameters stay in the context.
pub(crate) fn validate_fun_recursion_in_params_and_leave_in_context_dirty(context: &mut Context, v: &Vec<Param>) -> (r: Result<(), Tainted<IllegalFunRecursionError>>)
    requires
        stack_wf(old(context)@),
        forall|i: int| 0 <= i < v@.len() ==> well_scoped(#[trigger] params_view(v@)[i].type_, old(context)@.len() + i as nat),
    ensures
        match r {
            Ok(()) => {
                &&& final(context)@ == push_n(old(context)@, v@.len(), ContextEntry::NoInformation)
                &&& validate_params(old(context)@, params_view(v@)) is Ok
            },
            Err(t) => {
                &&& validate_params(old(context)@, params_view(v@)) == Err::<(), FunRecursionErrorView>(t.inner()@)
                &&& is_prefix(old(context)@, final(context)@)
            },
        },
    decreases v, 0nat,
{
    let ghost s0 = context@;
    let ghost vv = params_view(v@);
    let mut i: usize = 0;
    assert(vv.take(0) =~= Seq::<ParamTerm>::empty());
    proof { lemma_push_n_wf(s0, 0, ContextEntry::NoInformation); }
    assert(push_n(s0, 0, ContextEntry::NoInformation) =~= s0);
    while i < v.len()
        invariant
            i <= v.len(),
            old(context)@ == s0,
            stack_wf(s0),
            context@ == push_n(s0, i as nat, ContextEntry::NoInformation),
            stack_wf(context@),
            vv == params_view(v@),
            forall|k: int| 0 <= k < v@.len() ==> well_scoped(#[trigger] params_view(v@)[k].type_, s0.len() + k as nat),
            validate_params(s0, vv.take(i as int)) is Ok,
        decreases v.len() - i,
    {
        proof { lemma_push_n_wf(s0, i as nat, ContextEntry::NoInformation); }
        assert(vv.take(i + 1).drop_last() =~= vv.take(i as int));
        assert(vv.take(i + 1).last() == vv[i as int]);
        assert(vv[i as int].type_ == v@[i as int].type_@);
        match validate_fun_recursion_in_expression_dirty(context, &v[i].type_) {
            Err(t) => {
                assert(validate_params(s0, vv.take(i + 1)) == Err::<(), FunRecursionErrorView>(t.inner()@));
                proof {
                    lemma_params_error_prefix(s0, vv, i + 1);
                    lemma_prefix_trans(s0, push_n(s0, i as nat, ContextEntry::NoInformation), context@);
                }
                return Err(t);
            },
            Ok(()) => {},
        }
        let _pushed = context.push(ContextEntry::NoInformation);
        proof {
            lemma_push_n_step(s0, i as nat, ContextEntry::NoInformation);
            lemma_push_n_wf(s0, (i + 1) as nat, ContextEntry::NoInformation);
        }
        i += 1;
    }
    assert(vv.take(v.len() as int) =~= vv);
    Ok(())
}

/// The restriction on a function whose parameters are the last entries of
/// the context: it must call itself with a strict substructure of its
/// first dashed parameter, or cannot call itself if it has none.
pub(crate) fn fun_reference_restriction(context: &Context, v: &Vec<Param>) -> (r: ReferenceRestriction)
    requires
        v@.len() <= context@.len(),
    ensures
        r == fun_restriction((context@.len() - v@.len()) as nat, params_view(v@)),
{
    let ghost vv = params_view(v@);
    let n = v.len();
    let mut i: usize = 0;
    while i < n
        invariant
            i <= n,
            n == v@.len(),
            n <= context@.len(),
            vv == params_view(v@),
            forall|j: int| 0 <= j < i ==> !(#[trigger] vv[j]).is_dashed,
        decreases n - i,
    {
        assert(vv[i as int].is_dashed == v@[i as int].is_dashed);
        if v[i].is_dashed {
            let superstruct_db_index = DbIndex(n - i - 1);
            let superstruct_db_level = context.index_to_level(superstruct_db_index);
            proof {
                assert(is_first_dashed(vv, i as int));
                let p = choose|p: int| is_first_dashed(vv, p);
                assert(is_first_dashed(vv, p));
                if p < i {
                    assert(!vv[p].is_dashed);
                } else if p > i {
                    assert(!vv[i as int].is_dashed);
                }
                assert(p == i);
            }
            return ReferenceRestriction::MustCallWithSubstruct { superstruct_db_level, arg_position: i };
        }
        i += 1;
    }
    proof {
        if exists|p: int| is_first_dashed(vv, p) {
            let p = choose|p: int| is_first_dashed(vv, p);
            assert(!vv[p].is_dashed);
        }
    }
    ReferenceRestriction::CannotCall
}

fn validate_fun_recursion_in_fun_dirty(context: &mut Context, fun: &Fun) -> (r: Result<(), Tainted<IllegalFunRecursionError>>)
    requires
        stack_wf(old(context)@),
        well_scoped(Expression::Fun(Box::new(*fun))@, old(context)@.len()),
    ensures
        dirty_outcome(old(context)@, final(context)@, r, validate_term(old(context)@, Expression::Fun(Box::new(*fun))@)),
    decreases fun, 0nat,
{
    let ghost s0 = context@;
    let ghost pv = params_view(fun.params@);
    let ghost s1 = push_n(s0, pv.len(), ContextEntry::NoInformation);
    let arity = fun.params.len();
    assert(pv.len() == arity);
    match validate_fun_recursion_in_params_and_leave_in_context_dirty(context, &fun.params) {
        Err(t) => {
            return Err(t);
        },
        Ok(()) => {},
    }
    proof { lemma_push_n_wf(s0, pv.len(), ContextEntry::NoInformation); }
    match validate_fun_recursion_in_expression_dirty(context, &fun.return_type) {
        Err(t) => {
            proof { lemma_prefix_trans(s0, s1, context@); }
            return Err(t);
        },
        Ok(()) => {},
    }
    let restriction = fun_reference_restriction(context, &fun.params);
    let _pushed = context.push(ContextEntry::Fun(restriction));
    let ghost s2 = context@;
    assert(is_prefix(s1, s2));
    assert(stack_wf(s2)) by {
        assert forall|i: int| 0 <= i < s2.len() implies ((#[trigger] s2[i]) matches ContextEntry::Substruct { superstruct_db_level } ==> superstruct_db_level.0 < i) by {
            if i < s1.len() {
                assert(s2[i] == s1[i]);
            }
        }
    }
    match validate_fun_recursion_in_expression_dirty(context, &fun.body) {
        Err(t) => {
            proof {
                lemma_prefix_trans(s1, s2, context@);
                lemma_prefix_trans(s0, s1, context@);
            }
            return Err(t);
        },
        Ok(()) => {},
    }
    let total = context.len();
    assert(arity + 1 <= total);
    context.pop_n(arity + 1);
    assert(context@ =~= s0);
    Ok(())
}


/// The entry that a case pushes for each of its variables.
pub open spec fn matchee_entry(s: Seq<ContextEntry>, matchee_db_index: Option<DbIndex>) -> ContextEntry {
    match matchee_db_index {
        Some(i) => ContextEntry::Substruct { superstruct_db_level: DbLevel((s.len() - i.0 - 1) as usize) },
        None => ContextEntry::NoInformation,
    }
}

fn validate_fun_recursion_in_match_dirty(context: &mut Context, match_: &Match) -> (r: Result<(), Tainted<IllegalFunRecursionError>>)
    requires
        stack_wf(old(context)@),
        well_scoped(Expression::Match(Box::new(*match_))@, old(context)@.len()),
    ensures
        dirty_outcome(old(context)@, final(context)@, r, validate_term(old(context)@, Expression::Match(Box::new(*match_))@)),
    decreases match_, 0nat,
{
    let ghost s0 = context@;
    assert(well_scoped(match_.matchee@, s0.len()));
    match validate_fun_recursion_in_expression_dirty(context, &match_.matchee) {
        Err(t) => {
            return Err(t);
        },
        Ok(()) => {},
    }
    let matchee_db_index = match &match_.matchee {
        Expression::Name(n) => Some(n.db_index),
        _ => None,
    };
    assert(matchee_entry(s0, matchee_db_index) == case_entry(s0, match_.matchee@));
    validate_fun_recursion_in_match_cases_dirty(context, &match_.cases, matchee_db_index)
}

fn validate_fun_recursion_in_match_cases_dirty(
    context: &mut Context,
    v: &Vec<MatchCase>,
    matchee_db_index: Option<DbIndex>,
) -> (r: Result<(), Tainted<IllegalFunRecursionError>>)
    requires
        stack_wf(old(context)@),
        matchee_db_index matches Some(idx) ==> idx.0 < old(context)@.len(),
        forall|k: int| 0 <= k < v@.len() ==> well_scoped((#[trigger] cases_view(v@)[k]).output, old(context)@.len() + cases_view(v@)[k].params.len()),
    ensures
        dirty_outcome(old(context)@, final(context)@, r, validate_cases(old(context)@, cases_view(v@), matchee_entry(old(context)@, matchee_db_index))),
    decreases v, 0nat,
{
    let ghost s0 = context@;
    let ghost e = matchee_entry(s0, matchee_db_index);
    let ghost cv = cases_view(v@);
    let mut i: usize = 0;
    assert(cv.take(0) =~= Seq::<CaseTerm>::empty());
    while i < v.len()
        invariant
            i <= v.len(),
            old(context)@ == s0,
            context@ == s0,
            stack_wf(s0),
            matchee_db_index matches Some(idx) ==> idx.0 < s0.len(),
            e == matchee_entry(s0, matchee_db_index),
            cv == cases_view(v@),
            forall|k: int| 0 <= k < v@.len() ==> well_scoped((#[trigger] cases_view(v@)[k]).output, s0.len() + cases_view(v@)[k].params.len()),
            validate_cases(s0, cv.take(i as int), e) is Ok,
        decreases v.len() - i,
    {
        assert(cv.take(i + 1).drop_last() =~= cv.take(i as int));
        assert(cv.take(i + 1).last() == cv[i as int]);
        assert(cv[i as int] == v@[i as int]@);
        match validate_fun_recursion_in_match_case_dirty(context, &v[i], matchee_db_index) {
            Err(t) => {
                assert(validate_cases(s0, cv.take(i + 1), e) == Err::<(), FunRecursionErrorView>(t.inner()@));
                proof { lemma_cases_error_prefix(s0, cv, e, i + 1); }
                return Err(t);
            },
            Ok(()) => {},
        }
        i += 1;
    }
    assert(cv.take(v.len() as int) =~= cv);
    Ok(())
}

fn validate_fun_recursion_in_match_case_dirty(
    context: &mut Context,
    case: &MatchCase,
    matchee_db_index: Option<DbIndex>,
) -> (r: Result<(), Tainted<IllegalFunRecursionError>>)
    requires
        stack_wf(old(context)@),
        matchee_db_index matches Some(idx) ==> idx.0 < old(context)@.len(),
        well_scoped(case@.output, old(context)@.len() + case@.params.len()),
    ensures
        dirty_outcome(
            old(context)@,
            final(context)@,
            r,
            validate_term(push_n(old(context)@, case@.params.len(), matchee_entry(old(context)@, matchee_db_index)), case@.output),
        ),
    decreases case, 0nat,
{
    let ghost s0 = context@;
    let arity = case.params.len();
    assert(case@.params.len() == arity);
    let entry = match matchee_db_index {
        Some(idx) => ContextEntry::Substruct { superstruct_db_level: context.index_to_level(idx) },
        None => ContextEntry::NoInformation,
    };
    assert(entry == matchee_entry(s0, matchee_db_index));
    let mut i: usize = 0;
    proof { lemma_push_n_wf(s0, 0, entry); }
    assert(push_n(s0, 0, entry) =~= s0);
    while i < arity
        invariant
            i <= arity,
            stack_wf(s0),
            entry matches ContextEntry::Substruct { superstruct_db_level } ==> superstruct_db_level.0 < s0.len(),
            context@ == push_n(s0, i as nat, entry),
        decreases arity - i,
    {
        let _pushed = context.push(entry);
        proof { lemma_push_n_step(s0, i as nat, entry); }
        i += 1;
    }
    proof { lemma_push_n_wf(s0, arity as nat, entry); }
    let ghost s1 = context@;
    match validate_fun_recursion_in_expression_dirty(context, &case.output) {
        Err(t) => {
            proof { lemma_prefix_trans(s0, s1, context@); }
            return Err(t);
        },
        Ok(()) => {},
    }
    context.pop_n(arity);
    assert(context@ =~= s0);
    Ok(())
}

fn validate_fun_recursion_in_forall_dirty(context: &mut Context, forall: &Forall) -> (r: Result<(), Tainted<IllegalFunRecursionError>>)
    requires
        stack_wf(old(context)@),
        well_scoped(Expression::Forall(Box::new(*forall))@, old(context)@.len()),
    ensures
        dirty_outcome(old(context)@, final(context)@, r, validate_term(old(context)@, Expression::Forall(Box::new(*forall))@)),
    decreases forall, 0nat,
{
    let ghost s0 = context@;
    let ghost pv = params_view(forall.params@);
    let ghost s1 = push_n(s0, pv.len(), ContextEntry::NoInformation);
    let arity = forall.params.len();
    assert(pv.len() == arity);
    match validate_fun_recursion_in_params_and_leave_in_context_dirty(context, &forall.params) {
        Err(t) => {
            return Err(t);
        },
        Ok(()) => {},
    }
    proof { lemma_push_n_wf(s0, pv.len(), ContextEntry::NoInformation); }
    match validate_fun_recursion_in_expression_dirty(context, &forall.output) {
        Err(t) => {
            proof { lemma_prefix_trans(s0, s1, context@); }
            return Err(t);
        },
        Ok(()) => {},
    }
    context.pop_n(arity);
    assert(context@ =~= s0);
    Ok(())
}

/// An error in an assertion side only marks that side invalid (see
/// `fun_recursion_marks`), so only the output decides the outcome.
fn validate_fun_recursion_in_check_dirty(context: &mut Context, check: &Check) -> (r: Result<(), Tainted<IllegalFunRecursionError>>)
    requires
        stack_wf(old(context)@),
        well_scoped(Expression::Check(Box::new(*check))@, old(context)@.len()),
    ensures
        dirty_outcome(old(context)@, final(context)@, r, validate_term(old(context)@, Expression::Check(Box::new(*check))@)),
    decreases check, 0nat,
{
    validate_fun_recursion_in_expression_dirty(context, &check.output)
}

// ---------------------------------------------------------------------
// Laws
// ---------------------------------------------------------------------

/// In the body of `fun f(x_0, ..., x_{n-1})` whose first dashed parameter
/// is `x_p` (whatever `p` is), inside a case `C(y_0, ..., y_{m-1})` of a
/// match on `x_p`, a call `f(..)` whose `p`-th argument is a case variable
/// `y` is an accepted recursive call.
pub proof fn lemma_recursive_call_on_a_case_of_the_dashed_param_is_accepted(
    s: Seq<ContextEntry>,
    ps: Seq<ParamTerm>,
    p: int,
    m: nat,
    j: nat,
    fun_name: Seq<IdName>,
    matchee_name: Seq<IdName>,
    case_var: Seq<IdName>,
    ts: Seq<Term>,
)
    requires
        is_first_dashed(ps, p),
        s.len() + ps.len() + 1 + m <= usize::MAX,
        j < m,
        ts.len() == ps.len(),
        ts[p] == (Term::Name { components: case_var, index: j }),
    ensures
        ({
            let n = ps.len();
            let s1 = push_n(s, n, ContextEntry::NoInformation).push(ContextEntry::Fun(fun_restriction(s.len(), ps)));
            let s2 = push_n(s1, m, case_entry(s1, Term::Name { components: matchee_name, index: (n - p) as nat }));
            call_restriction_outcome(s2, Term::Name { components: fun_name, index: m }, ArgList::Unlabeled(ts))
                == Ok::<bool, FunRecursionErrorView>(true)
        }),
{
    let n = ps.len();
    let s1 = push_n(s, n, ContextEntry::NoInformation).push(ContextEntry::Fun(fun_restriction(s.len(), ps)));
    let e = case_entry(s1, Term::Name { components: matchee_name, index: (n - p) as nat });
    let s2 = push_n(s1, m, e);
    let q = choose|q: int| is_first_dashed(ps, q);
    if q < p {
        assert(!ps[q].is_dashed);
    } else if p < q {
        assert(!ps[p].is_dashed);
    }
    assert(q == p);
    let level = s.len() + p;
    assert(fun_restriction(s.len(), ps) == ReferenceRestriction::MustCallWithSubstruct {
        superstruct_db_level: DbLevel(level as usize),
        arg_position: p as usize,
    });
    assert(s2.len() == s.len() + n + 1 + m);
    assert(s2[(s.len() + n) as int] == s1[(s.len() + n) as int]);
    assert(restriction_at(s2, m) == Some(fun_restriction(s.len(), ps)));
    let left = s2.len() - j - 1;
    assert(s2[left] == e);
    assert(e == ContextEntry::Substruct { superstruct_db_level: DbLevel(level as usize) });
    assert(inclusive_substruct(s2, left, level)) by {
        reveal_with_fuel(inclusive_substruct, 2);
    }
    assert(strict_substruct(s2, left, level));
}

}
