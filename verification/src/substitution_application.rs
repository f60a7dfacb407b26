//! Rewriting terms with the substitutions that the type checker learned in
//! the match cases it is inside of.
//!
//! Each learned equation is expanded: an equation between two applications
//! of the same constructor becomes equations between their arguments, one
//! between different constructors shows that the case cannot be reached
//! ("explodes"), and any other becomes a concrete substitution, which is
//! applied to the terms being rewritten and to the equations still waiting,
//! until it changes nothing. This repeats until every equation has been
//! applied. Termination is not evident, so the rewriting takes a fuel: each
//! expansion and each round of a concrete substitution spends one unit.

use vstd::prelude::*;
use crate::ast::{Term, Expression};
use crate::context::{Context, DefinitionView};
use crate::dynamic_substitution::{
    ExpansionView, DynamicSubstitutionExpansionResult, expansion, expansion_ok, expand_dynamic_substitution_shallow,
};
use crate::equality::{copy_expression, expressions_equal};
use crate::eval::{Evaluation, eval, evaluate_well_typed_expression};
use crate::misc::NormalFormId;
use crate::shift::{UpshiftFn, term_fits};
use crate::shift_trait::{ShiftDbIndices, upshift_term};
use crate::substitute::{Substitution, subst_term, subst_fits, subst_expression};
use crate::substitution_context::{DynamicSubstitution, SubstitutionContext, dynamic_substitutions_view};

verus! {

/// Why a computation gave no answer: the fuel ran out, or it reached a step
/// that the type checker never reaches on the inputs it is given (one where
/// the original panics, or one whose indices would leave the machine
/// integers).
pub enum Halt {
    OutOfFuel,
    Stuck,
}

/// An equation waiting to be applied, or already applied.
pub type Tagged = ((Term, Term), bool);

// ---------------------------------------------------------------------
// The substitutions of the context, adjusted to its current length
// ---------------------------------------------------------------------

pub open spec fn equation_fits(d: (Term, Term), amount: nat) -> bool {
    &&& amount <= usize::MAX
    &&& term_fits(d.0, UpshiftFn(amount as usize), 0)
    &&& term_fits(d.1, UpshiftFn(amount as usize), 0)
}

pub open spec fn shift_equation(d: (Term, Term), amount: nat) -> (Term, Term) {
    (upshift_term(d.0, amount as usize, 0), upshift_term(d.1, amount as usize, 0))
}

/// The equations of the substitution context, in order, each shifted past
/// the variables pushed since it was learned. `None` where an entry was
/// learned with a longer context than `len` or a shift leaves the machine
/// integers.
pub open spec fn adjusted_equations(len: nat, sctx: Seq<(nat, Seq<(Term, Term)>)>) -> Option<Seq<(Term, Term)>>
    decreases sctx.len(),
{
    if sctx.len() == 0 {
        Some(seq![])
    } else {
        match adjusted_equations(len, sctx.drop_last()) {
            None => None,
            Some(prefix) => {
                let (l, ds) = sctx.last();
                if l <= len && forall|i: int| 0 <= i < ds.len() ==> equation_fits(#[trigger] ds[i], (len - l) as nat) {
                    Some(prefix + Seq::new(ds.len(), |i: int| shift_equation(ds[i], (len - l) as nat)))
                } else {
                    None
                }
            },
        }
    }
}

// ---------------------------------------------------------------------
// Applying the equations
// ---------------------------------------------------------------------

pub open spec fn is_first_unapplied(subs: Seq<Tagged>, i: int) -> bool {
    &&& 0 <= i < subs.len()
    &&& !subs[i].1
    &&& forall|k: int| 0 <= k < i ==> (#[trigger] subs[k]).1
}

pub open spec fn first_unapplied(subs: Seq<Tagged>) -> Option<int> {
    if exists|i: int| is_first_unapplied(subs, i) {
        Some(choose|i: int| is_first_unapplied(subs, i))
    } else {
        None
    }
}

pub open spec fn all_unapplied(subs: Seq<Tagged>) -> Seq<Tagged> {
    Seq::new(subs.len(), |i: int| (subs[i].0, false))
}

pub open spec fn as_unapplied(ds: Seq<(Term, Term)>) -> Seq<Tagged> {
    Seq::new(ds.len(), |i: int| (ds[i], false))
}

/// Substituting and then evaluating one term.
#[verifier::opaque]
pub open spec fn rewrite_term(ctx: Seq<(Term, DefinitionView)>, c: (Term, Term), t: Term, fuel: nat) -> Result<(Term, bool), Halt> {
    if !subst_fits(t, c.0, c.1) {
        Err(Halt::Stuck)
    } else {
        let s = subst_term(t, c.0, c.1);
        match eval(ctx, s, fuel) {
            Evaluation::Value(v) => Ok((v, s == t)),
            Evaluation::OutOfFuel => Err(Halt::OutOfFuel),
            Evaluation::Stuck => Err(Halt::Stuck),
        }
    }
}

/// The terms rewritten in order, and whether the substitution left every
/// one of them as it was (before evaluation).
pub open spec fn rewrite_terms(ctx: Seq<(Term, DefinitionView)>, c: (Term, Term), ts: Seq<Term>, fuel: nat) -> Result<(Seq<Term>, bool), Halt>
    decreases ts.len(),
{
    if ts.len() == 0 {
        Ok((seq![], true))
    } else {
        match rewrite_terms(ctx, c, ts.drop_last(), fuel) {
            Err(h) => Err(h),
            Ok((prefix, no_op)) => match rewrite_term(ctx, c, ts.last(), fuel) {
                Err(h) => Err(h),
                Ok((v, unchanged)) => Ok((prefix.push(v), no_op && unchanged)),
            },
        }
    }
}

/// The waiting equations rewritten in order (both sides), keeping their
/// tags; a side counts as unchanged where its evaluated result is itself.
pub open spec fn rewrite_equations(ctx: Seq<(Term, DefinitionView)>, c: (Term, Term), subs: Seq<Tagged>, fuel: nat) -> Result<(Seq<Tagged>, bool), Halt>
    decreases subs.len(),
{
    if subs.len() == 0 {
        Ok((seq![], true))
    } else {
        match rewrite_equations(ctx, c, subs.drop_last(), fuel) {
            Err(h) => Err(h),
            Ok((prefix, no_op)) => {
                let d = subs.last().0;
                match rewrite_term(ctx, c, d.0, fuel) {
                    Err(h) => Err(h),
                    Ok((a, _)) => match rewrite_term(ctx, c, d.1, fuel) {
                        Err(h) => Err(h),
                        Ok((b, _)) => Ok((prefix.push(((a, b), subs.last().1)), no_op && a == d.0 && b == d.1)),
                    },
                }
            },
        }
    }
}

/// Applies the concrete substitution `c` until a round changes nothing;
/// after a round that changes something every waiting equation is waiting
/// again.
pub open spec fn apply_concrete(
    ctx: Seq<(Term, DefinitionView)>,
    c: (Term, Term),
    subs: Seq<Tagged>,
    ts: Seq<Term>,
    fuel: nat,
) -> Result<(Seq<Tagged>, Seq<Term>), Halt>
    decreases fuel,
{
    if fuel == 0 {
        Err(Halt::OutOfFuel)
    } else {
        match rewrite_terms(ctx, c, ts, fuel) {
            Err(h) => Err(h),
            Ok((ts2, terms_unchanged)) => match rewrite_equations(ctx, c, subs, fuel) {
                Err(h) => Err(h),
                Ok((subs2, equations_unchanged)) => if terms_unchanged && equations_unchanged {
                    Ok((subs2, ts2))
                } else {
                    apply_concrete(ctx, c, all_unapplied(subs2), ts2, (fuel - 1) as nat)
                },
            },
        }
    }
}

/// Applies the waiting equations to `ts`: `Ok(None)` where one explodes.
pub open spec fn apply_equations(ctx: Seq<(Term, DefinitionView)>, subs: Seq<Tagged>, ts: Seq<Term>, fuel: nat) -> Result<Option<Seq<Term>>, Halt>
    decreases fuel,
{
    match first_unapplied(subs) {
        None => Ok(Some(ts)),
        Some(i) => if fuel == 0 {
            Err(Halt::OutOfFuel)
        } else if !(0 <= i < subs.len()) || !expansion_ok(ctx, subs[i].0.0, subs[i].0.1) {
            Err(Halt::Stuck)
        } else {
            let d = subs[i].0;
            let rest = subs.remove(i);
            match expansion(ctx, d.0, d.1) {
                ExpansionView::Exploded => Ok(None),
                ExpansionView::Replace(ds) => apply_equations(ctx, all_unapplied(rest) + as_unapplied(ds), ts, (fuel - 1) as nat),
                ExpansionView::ApplyConcrete(c) => match apply_concrete(ctx, c, rest, ts, (fuel - 1) as nat) {
                    Err(h) => Err(h),
                    Ok((rest2, ts2)) => apply_equations(ctx, rest2.push((d, true)), ts2, (fuel - 1) as nat),
                },
            }
        },
    }
}

/// The terms rewritten with every equation of the substitution context.
pub open spec fn apply_context_equations(
    ctx: Seq<(Term, DefinitionView)>,
    sctx: Seq<(nat, Seq<(Term, Term)>)>,
    ts: Seq<Term>,
    fuel: nat,
) -> Result<Option<Seq<Term>>, Halt> {
    match adjusted_equations(ctx.len(), sctx) {
        None => Err(Halt::Stuck),
        Some(ds) => apply_equations(ctx, as_unapplied(ds), ts, fuel),
    }
}


// ---------------------------------------------------------------------
// Executable rewriting
// ---------------------------------------------------------------------

pub open spec fn tagged_view(v: Seq<(DynamicSubstitution, bool)>) -> Seq<Tagged> {
    Seq::new(v.len(), |i: int| (v[i].0@, v[i].1))
}

pub open spec fn exprs_seq(v: Seq<Expression>) -> Seq<Term> {
    Seq::new(v.len(), |i: int| v[i]@)
}

pub open spec fn concrete_result(
    r: Option<(Vec<(DynamicSubstitution, bool)>, Vec<Expression>)>,
    x: Result<(Seq<Tagged>, Seq<Term>), Halt>,
) -> bool {
    match r {
        Some(p) => x == Ok::<(Seq<Tagged>, Seq<Term>), Halt>((tagged_view(p.0@), exprs_seq(p.1@))),
        None => x == Err::<(Seq<Tagged>, Seq<Term>), Halt>(Halt::OutOfFuel),
    }
}

/// `Some(Some(ts))`: the rewritten terms; `Some(None)`: an equation
/// exploded; `None`: the fuel ran out.
pub open spec fn equations_result(r: Option<Option<Vec<Expression>>>, x: Result<Option<Seq<Term>>, Halt>) -> bool {
    match r {
        Some(Some(t)) => x == Ok::<Option<Seq<Term>>, Halt>(Some(exprs_seq(t@))),
        Some(None) => x == Ok::<Option<Seq<Term>>, Halt>(None),
        None => x == Err::<Option<Seq<Term>>, Halt>(Halt::OutOfFuel),
    }
}

fn copy_dynamic_substitution(d: &DynamicSubstitution) -> (r: DynamicSubstitution)
    ensures
        r@ == d@,
{
    DynamicSubstitution(
        NormalFormId::unchecked_new(copy_expression(d.0.raw_ref())),
        NormalFormId::unchecked_new(copy_expression(d.1.raw_ref())),
    )
}

fn rewrite_term_exec(context: &mut Context, c: &Substitution, t: &Expression, fuel: usize) -> (r: Option<(Expression, bool)>)
    requires
        !(rewrite_term(old(context)@, c@, t@, fuel as nat) matches Err(Halt::Stuck)),
    ensures
        final(context)@ == old(context)@,
        match r {
            Some((v, u)) => rewrite_term(old(context)@, c@, t@, fuel as nat) == Ok::<(Term, bool), Halt>((v@, u)),
            None => rewrite_term(old(context)@, c@, t@, fuel as nat) == Err::<(Term, bool), Halt>(Halt::OutOfFuel),
        },
{
    reveal(rewrite_term);
    let s = subst_expression(t, c);
    let unchanged = expressions_equal(&s, t);
    match evaluate_well_typed_expression(context, &s, fuel) {
        None => None,
        Some(v) => Some((v.raw(), unchanged)),
    }
}

proof fn lemma_rewrite_terms_err(ctx: Seq<(Term, DefinitionView)>, c: (Term, Term), ts: Seq<Term>, fuel: nat, k: int)
    requires
        0 <= k <= ts.len(),
        rewrite_terms(ctx, c, ts.take(k), fuel) is Err,
    ensures
        rewrite_terms(ctx, c, ts, fuel) == rewrite_terms(ctx, c, ts.take(k), fuel),
    decreases ts.len() - k,
{
    if k < ts.len() {
        assert(ts.take(k + 1).drop_last() =~= ts.take(k));
        lemma_rewrite_terms_err(ctx, c, ts, fuel, k + 1);
    } else {
        assert(ts.take(k) =~= ts);
    }
}

proof fn lemma_rewrite_equations_err(ctx: Seq<(Term, DefinitionView)>, c: (Term, Term), subs: Seq<Tagged>, fuel: nat, k: int)
    requires
        0 <= k <= subs.len(),
        rewrite_equations(ctx, c, subs.take(k), fuel) is Err,
    ensures
        rewrite_equations(ctx, c, subs, fuel) == rewrite_equations(ctx, c, subs.take(k), fuel),
    decreases subs.len() - k,
{
    if k < subs.len() {
        assert(subs.take(k + 1).drop_last() =~= subs.take(k));
        lemma_rewrite_equations_err(ctx, c, subs, fuel, k + 1);
    } else {
        assert(subs.take(k) =~= subs);
    }
}

fn rewrite_terms_exec(context: &mut Context, c: &Substitution, ts: &Vec<Expression>, fuel: usize) -> (r: Option<(Vec<Expression>, bool)>)
    requires
        !(rewrite_terms(old(context)@, c@, exprs_seq(ts@), fuel as nat) matches Err(Halt::Stuck)),
    ensures
        final(context)@ == old(context)@,
        match r {
            Some((v, u)) => rewrite_terms(old(context)@, c@, exprs_seq(ts@), fuel as nat) == Ok::<(Seq<Term>, bool), Halt>((exprs_seq(v@), u)),
            None => rewrite_terms(old(context)@, c@, exprs_seq(ts@), fuel as nat) == Err::<(Seq<Term>, bool), Halt>(Halt::OutOfFuel),
        },
{
    let ghost s0 = context@;
    let ghost tv = exprs_seq(ts@);
    let mut out: Vec<Expression> = Vec::new();
    let mut no_op = true;
    let mut i: usize = 0;
    assert(tv.take(0) =~= Seq::<Term>::empty());
    assert(exprs_seq(out@) =~= Seq::<Term>::empty());
    while i < ts.len()
        invariant
            i <= ts.len(),
            context@ == s0,
            old(context)@ == s0,
            tv == exprs_seq(ts@),
            !(rewrite_terms(s0, c@, tv, fuel as nat) matches Err(Halt::Stuck)),
            rewrite_terms(s0, c@, tv.take(i as int), fuel as nat) == Ok::<(Seq<Term>, bool), Halt>((exprs_seq(out@), no_op)),
            out@.len() == i,
        decreases ts.len() - i,
    {
        assert(tv.take(i + 1).drop_last() =~= tv.take(i as int));
        assert(tv.take(i + 1).last() == tv[i as int]);
        proof {
            if rewrite_term(s0, c@, tv[i as int], fuel as nat) matches Err(Halt::Stuck) {
                lemma_rewrite_terms_err(s0, c@, tv, fuel as nat, i + 1);
            }
        }
        match rewrite_term_exec(context, c, &ts[i], fuel) {
            None => {
                proof { lemma_rewrite_terms_err(s0, c@, tv, fuel as nat, i + 1); }
                return None;
            },
            Some((v, u)) => {
                let ghost before = out@;
                out.push(v);
                no_op = no_op && u;
                assert(exprs_seq(out@) =~= exprs_seq(before).push(out@[i as int]@));
            },
        }
        i += 1;
    }
    assert(tv.take(ts.len() as int) =~= tv);
    Some((out, no_op))
}

fn rewrite_equations_exec(context: &mut Context, c: &Substitution, subs: &Vec<(DynamicSubstitution, bool)>, fuel: usize) -> (r: Option<(Vec<(DynamicSubstitution, bool)>, bool)>)
    requires
        !(rewrite_equations(old(context)@, c@, tagged_view(subs@), fuel as nat) matches Err(Halt::Stuck)),
    ensures
        final(context)@ == old(context)@,
        match r {
            Some((v, u)) => rewrite_equations(old(context)@, c@, tagged_view(subs@), fuel as nat) == Ok::<(Seq<Tagged>, bool), Halt>((tagged_view(v@), u)),
            None => rewrite_equations(old(context)@, c@, tagged_view(subs@), fuel as nat) == Err::<(Seq<Tagged>, bool), Halt>(Halt::OutOfFuel),
        },
{
    let ghost s0 = context@;
    let ghost sv = tagged_view(subs@);
    let mut out: Vec<(DynamicSubstitution, bool)> = Vec::new();
    let mut no_op = true;
    let mut i: usize = 0;
    assert(sv.take(0) =~= Seq::<Tagged>::empty());
    assert(tagged_view(out@) =~= Seq::<Tagged>::empty());
    while i < subs.len()
        invariant
            i <= subs.len(),
            context@ == s0,
            old(context)@ == s0,
            sv == tagged_view(subs@),
            !(rewrite_equations(s0, c@, sv, fuel as nat) matches Err(Halt::Stuck)),
            rewrite_equations(s0, c@, sv.take(i as int), fuel as nat) == Ok::<(Seq<Tagged>, bool), Halt>((tagged_view(out@), no_op)),
            out@.len() == i,
        decreases subs.len() - i,
    {
        assert(sv.take(i + 1).drop_last() =~= sv.take(i as int));
        assert(sv.take(i + 1).last() == sv[i as int]);
        let d = &subs[i].0;
        let tag = subs[i].1;
        proof {
            if rewrite_term(s0, c@, sv[i as int].0.0, fuel as nat) is Err || rewrite_term(s0, c@, sv[i as int].0.1, fuel as nat) is Err {
                lemma_rewrite_equations_err(s0, c@, sv, fuel as nat, i + 1);
            }
        }
        let a = match rewrite_term_exec(context, c, d.0.raw_ref(), fuel) {
            None => {
                proof { lemma_rewrite_equations_err(s0, c@, sv, fuel as nat, i + 1); }
                return None;
            },
            Some((a, _)) => a,
        };
        let b = match rewrite_term_exec(context, c, d.1.raw_ref(), fuel) {
            None => {
                proof { lemma_rewrite_equations_err(s0, c@, sv, fuel as nat, i + 1); }
                return None;
            },
            Some((b, _)) => b,
        };
        let unchanged = expressions_equal(&a, d.0.raw_ref()) && expressions_equal(&b, d.1.raw_ref());
        let ghost before = out@;
        out.push((DynamicSubstitution(NormalFormId::unchecked_new(a), NormalFormId::unchecked_new(b)), tag));
        no_op = no_op && unchanged;
        assert(tagged_view(out@) =~= tagged_view(before).push((out@[i as int].0@, tag)));
        i += 1;
    }
    assert(sv.take(subs.len() as int) =~= sv);
    Some((out, no_op))
}

fn mark_all_as_unapplied(subs: &mut Vec<(DynamicSubstitution, bool)>)
    ensures
        tagged_view(final(subs)@) == all_unapplied(tagged_view(old(subs)@)),
{
    let mut out: Vec<(DynamicSubstitution, bool)> = Vec::new();
    let mut i: usize = 0;
    while i < subs.len()
        invariant
            i <= subs.len(),
            subs@ == old(subs)@,
            out@.len() == i,
            forall|k: int| 0 <= k < i ==> (#[trigger] out@[k]).0@ == subs@[k].0@ && !out@[k].1,
        decreases subs.len() - i,
    {
        out.push((copy_dynamic_substitution(&subs[i].0), false));
        i += 1;
    }
    assert(tagged_view(out@) =~= all_unapplied(tagged_view(old(subs)@)));
    *subs = out;
}

#[verifier::spinoff_prover]
#[verifier::rlimit(80)]
#[verifier::loop_isolation(false)]
fn apply_concrete_exec(
    context: &mut Context,
    c: &Substitution,
    subs: Vec<(DynamicSubstitution, bool)>,
    ts: Vec<Expression>,
    fuel: usize,
) -> (r: Option<(Vec<(DynamicSubstitution, bool)>, Vec<Expression>)>)
    requires
        !(apply_concrete(old(context)@, c@, tagged_view(subs@), exprs_seq(ts@), fuel as nat) matches Err(Halt::Stuck)),
    ensures
        final(context)@ == old(context)@,
        concrete_result(r, apply_concrete(old(context)@, c@, tagged_view(subs@), exprs_seq(ts@), fuel as nat)),
{
    let ghost s0 = context@;
    let ghost goal = apply_concrete(s0, c@, tagged_view(subs@), exprs_seq(ts@), fuel as nat);
    let mut cur_subs = subs;
    let mut cur_ts = ts;
    let mut cur_fuel = fuel;
    loop
        invariant
            context@ == s0,
            old(context)@ == s0,
            apply_concrete(s0, c@, tagged_view(cur_subs@), exprs_seq(cur_ts@), cur_fuel as nat) == goal,
            !(goal matches Err(Halt::Stuck)),
        decreases cur_fuel,
    {
        if cur_fuel == 0 {
            return None;
        }
        let (ts2, terms_unchanged) = match rewrite_terms_exec(context, c, &cur_ts, cur_fuel) {
            None => { return None; },
            Some(x) => x,
        };
        let (mut subs2, equations_unchanged) = match rewrite_equations_exec(context, c, &cur_subs, cur_fuel) {
            None => { return None; },
            Some(x) => x,
        };
        assert(apply_concrete(s0, c@, tagged_view(cur_subs@), exprs_seq(cur_ts@), cur_fuel as nat) == if terms_unchanged && equations_unchanged {
            Ok::<(Seq<Tagged>, Seq<Term>), Halt>((tagged_view(subs2@), exprs_seq(ts2@)))
        } else {
            apply_concrete(s0, c@, all_unapplied(tagged_view(subs2@)), exprs_seq(ts2@), (cur_fuel - 1) as nat)
        });
        if terms_unchanged && equations_unchanged {
            return Some((subs2, ts2));
        }
        mark_all_as_unapplied(&mut subs2);
        cur_subs = subs2;
        cur_ts = ts2;
        cur_fuel = cur_fuel - 1;
    }
}

fn first_unapplied_exec(subs: &Vec<(DynamicSubstitution, bool)>) -> (r: Option<usize>)
    ensures
        match r {
            Some(i) => first_unapplied(tagged_view(subs@)) == Some(i as int) && i < subs@.len(),
            None => first_unapplied(tagged_view(subs@)) is None,
        },
{
    let ghost sv = tagged_view(subs@);
    let mut i: usize = 0;
    while i < subs.len()
        invariant
            i <= subs.len(),
            sv == tagged_view(subs@),
            forall|k: int| 0 <= k < i ==> (#[trigger] sv[k]).1,
        decreases subs.len() - i,
    {
        if !subs[i].1 {
            proof {
                assert(is_first_unapplied(sv, i as int));
                let p = choose|p: int| is_first_unapplied(sv, p);
                assert(is_first_unapplied(sv, p));
                if p < i {
                    assert(sv[p].1);
                } else if p > i {
                    assert(!sv[i as int].1);
                }
            }
            return Some(i);
        }
        i += 1;
    }
    proof {
        if exists|p: int| is_first_unapplied(sv, p) {
            let p = choose|p: int| is_first_unapplied(sv, p);
            assert(sv[p].1);
        }
    }
    None
}

/// Applies the waiting equations to the terms; `Some(None)` where one
/// explodes, `None` where the fuel runs out.
#[verifier::spinoff_prover]
#[verifier::rlimit(80)]
#[verifier::loop_isolation(false)]
fn apply_equations_exec(
    context: &mut Context,
    subs: Vec<(DynamicSubstitution, bool)>,
    ts: Vec<Expression>,
    fuel: usize,
) -> (r: Option<Option<Vec<Expression>>>)
    requires
        !(apply_equations(old(context)@, tagged_view(subs@), exprs_seq(ts@), fuel as nat) matches Err(Halt::Stuck)),
    ensures
        final(context)@ == old(context)@,
        equations_result(r, apply_equations(old(context)@, tagged_view(subs@), exprs_seq(ts@), fuel as nat)),
{
    let ghost s0 = context@;
    let ghost goal = apply_equations(s0, tagged_view(subs@), exprs_seq(ts@), fuel as nat);
    let mut cur_subs = subs;
    let mut cur_ts = ts;
    let mut cur_fuel = fuel;
    loop
        invariant
            context@ == s0,
            old(context)@ == s0,
            apply_equations(s0, tagged_view(cur_subs@), exprs_seq(cur_ts@), cur_fuel as nat) == goal,
            !(goal matches Err(Halt::Stuck)),
        decreases cur_fuel,
    {
        let i = match first_unapplied_exec(&cur_subs) {
            None => { return Some(Some(cur_ts)); },
            Some(i) => i,
        };
        if cur_fuel == 0 {
            return None;
        }
        let ghost sv = tagged_view(cur_subs@);
        let (d, _) = cur_subs.remove(i);
        let ghost rest = tagged_view(cur_subs@);
        assert(rest =~= sv.remove(i as int));
        assert(d@ == sv[i as int].0);
        match expand_dynamic_substitution_shallow(context, &d) {
            DynamicSubstitutionExpansionResult::Exploded => {
                return Some(None);
            },
            DynamicSubstitutionExpansionResult::Replace(ds) => {
                mark_all_as_unapplied(&mut cur_subs);
                let ghost marked = tagged_view(cur_subs@);
                let ghost dsv = dynamic_substitutions_view(ds@);
                let mut k: usize = 0;
                assert(tagged_view(cur_subs@) =~= marked + as_unapplied(dsv.take(0)));
                while k < ds.len()
                    invariant
                        k <= ds.len(),
                        dsv == dynamic_substitutions_view(ds@),
                        tagged_view(cur_subs@) == marked + as_unapplied(dsv.take(k as int)),
                    decreases ds.len() - k,
                {
                    let ghost before = cur_subs@;
                    let x = copy_dynamic_substitution(&ds[k]);
                    assert(x@ == dsv[k as int]);
                    cur_subs.push((x, false));
                    assert(tagged_view(cur_subs@) =~= tagged_view(before).push((dsv[k as int], false)));
                    assert(as_unapplied(dsv.take(k + 1)) =~= as_unapplied(dsv.take(k as int)).push((dsv[k as int], false)));
                    assert(tagged_view(cur_subs@) =~= marked + as_unapplied(dsv.take(k + 1)));
                    k += 1;
                }
                assert(dsv.take(ds.len() as int) =~= dsv);
                assert(tagged_view(cur_subs@) =~= all_unapplied(rest) + as_unapplied(dynamic_substitutions_view(ds@)));
                cur_fuel = cur_fuel - 1;
            },
            DynamicSubstitutionExpansionResult::ApplyConcrete(c) => {
                let (mut rest2, ts2) = match apply_concrete_exec(context, &c, cur_subs, cur_ts, cur_fuel - 1) {
                    None => { return None; },
                    Some(x) => x,
                };
                let ghost before = tagged_view(rest2@);
                rest2.push((d, true));
                assert(tagged_view(rest2@) =~= before.push((sv[i as int].0, true)));
                cur_subs = rest2;
                cur_ts = ts2;
                cur_fuel = cur_fuel - 1;
            },
        }
    }
}


/// Rewrites the terms with every equation of the substitution context:
/// `Some(Some(ts))` gives the rewritten terms, `Some(None)` says an
/// equation explodes (the case cannot be reached), `None` says the fuel
/// ran out.
pub fn apply_substitutions_from_substitution_context(
    context: &mut Context,
    substitution_context: &SubstitutionContext,
    ts: Vec<Expression>,
    fuel: usize,
) -> (r: Option<Option<Vec<Expression>>>)
    requires
        !(apply_context_equations(old(context)@, substitution_context@, exprs_seq(ts@), fuel as nat) matches Err(Halt::Stuck)),
    ensures
        final(context)@ == old(context)@,
        equations_result(r, apply_context_equations(old(context)@, substitution_context@, exprs_seq(ts@), fuel as nat)),
{
    let len = context.len();
    let ds = substitution_context.get_adjusted_substitutions(len);
    let mut tagged: Vec<(DynamicSubstitution, bool)> = Vec::new();
    let ghost dv = dynamic_substitutions_view(ds@);
    let mut i: usize = 0;
    while i < ds.len()
        invariant
            i <= ds@.len(),
            dv == dynamic_substitutions_view(ds@),
            tagged_view(tagged@) == as_unapplied(dv.take(i as int)),
        decreases ds@.len() - i,
    {
        let ghost before = tagged@;
        let x = copy_dynamic_substitution(&ds[i]);
        assert(x@ == dv[i as int]);
        tagged.push((x, false));
        assert(tagged_view(tagged@) =~= tagged_view(before).push((dv[i as int], false)));
        assert(as_unapplied(dv.take(i + 1)) =~= as_unapplied(dv.take(i as int)).push((dv[i as int], false)));
        assert(tagged_view(tagged@) =~= as_unapplied(dv.take(i + 1)));
        i += 1;
    }
    assert(dv.take(ds@.len() as int) =~= dv);
    apply_equations_exec(context, tagged, ts, fuel)
}

}
