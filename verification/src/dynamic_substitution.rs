//! Turning an equation between two normal forms, learned from a match, into
//! substitutions: an equation between two applications of the same
//! constructor becomes equations between their arguments, and any other
//! equation becomes a substitution of one side by the other.

use vstd::prelude::*;
use crate::ast::{Term, IdName, ArgList, LabeledArg, Expression, CallArgList, LabeledCallArg, exprs_view, labeled_args_view};
use crate::context::Context;
use crate::equality::{expressions_equal, identifier_names_equal, copy_expression};
use crate::ast::Call;
use crate::fun_recursion::{arg_term, name_of_label};
use crate::min_db_index::{cutoffs_fit, min_index_term, min_free_db_index_in_expression};
use crate::misc::NormalFormId;
use crate::normal_form::{
    PossibleArgListId, NormalFormAdtExpression, head_lookup_ok, head_index, as_adt, as_variant,
    is_variant_expression, try_as_normal_form_adt_expression, try_as_variant_expression,
};
use crate::substitute::Substitution;
use crate::substitution_context::{DynamicSubstitution, dynamic_substitutions_view};
use crate::subterm::{is_inclusive_subterm, subterm_search_fits, is_left_inclusive_subterm_of_right};

verus! {

// ---------------------------------------------------------------------
// Choosing a direction
// ---------------------------------------------------------------------

/// The substitution (from, to) that the equation `a = b` becomes, or
/// `None` where it says nothing. A side that occurs in the other replaces
/// it; else a variant replaces the other side; else the side with the
/// smaller least free index is replaced.
pub open spec fn concrete_substitution(ctx: Seq<(Term, crate::context::DefinitionView)>, a: Term, b: Term) -> Option<(Term, Term)> {
    if a == b {
        None
    } else if is_inclusive_subterm(a, b) {
        Some((b, a))
    } else if is_inclusive_subterm(b, a) {
        Some((a, b))
    } else if as_variant(ctx, a) is Some {
        Some((b, a))
    } else if as_variant(ctx, b) is Some {
        Some((a, b))
    } else if min_index_term(a, 0)->Some_0 <= min_index_term(b, 0)->Some_0 {
        Some((a, b))
    } else {
        Some((b, a))
    }
}

/// What the choice needs of its inputs, step by step: machine integers
/// for the subterm searches and index computations, and definitions for
/// the heads that it looks up.
pub open spec fn concrete_substitution_ok(ctx: Seq<(Term, crate::context::DefinitionView)>, a: Term, b: Term) -> bool {
    a != b ==> {
        &&& subterm_search_fits(a, b)
        &&& (!is_inclusive_subterm(a, b) ==> {
            &&& subterm_search_fits(b, a)
            &&& (!is_inclusive_subterm(b, a) ==> {
                &&& head_lookup_ok(ctx, a)
                &&& (as_variant(ctx, a) is None ==> {
                    &&& head_lookup_ok(ctx, b)
                    &&& (as_variant(ctx, b) is None ==> cutoffs_fit(a, 0) && cutoffs_fit(b, 0))
                })
            })
        })
    }
}

/// Returns `None` if the dynamic substitution is a no-op.
pub fn get_concrete_substitution(context: &Context, d: &DynamicSubstitution) -> (r: Option<Substitution>)
    requires
        concrete_substitution_ok(context@, d@.0, d@.1),
    ensures
        match r {
            Some(s) => concrete_substitution(context@, d@.0, d@.1) == Some(s@),
            None => concrete_substitution(context@, d@.0, d@.1) is None,
        },
{
    let a = d.0.raw_ref();
    let b = d.1.raw_ref();
    if expressions_equal(a, b) {
        return None;
    }
    if is_left_inclusive_subterm_of_right(a, b) {
        return Some(Substitution { from: copy_expression(b), to: copy_expression(a) });
    }
    if is_left_inclusive_subterm_of_right(b, a) {
        return Some(Substitution { from: copy_expression(a), to: copy_expression(b) });
    }
    if is_variant_expression(context, &d.0) {
        return Some(Substitution { from: copy_expression(b), to: copy_expression(a) });
    }
    if is_variant_expression(context, &d.1) {
        return Some(Substitution { from: copy_expression(a), to: copy_expression(b) });
    }
    if min_free_db_index_in_expression(a).0 <= min_free_db_index_in_expression(b).0 {
        Some(Substitution { from: copy_expression(a), to: copy_expression(b) })
    } else {
        Some(Substitution { from: copy_expression(b), to: copy_expression(a) })
    }
}


// ---------------------------------------------------------------------
// Expanding an equation
// ---------------------------------------------------------------------

#[derive(Debug)]
pub enum DynamicSubstitutionExpansionResult {
    ApplyConcrete(Substitution),
    /// If the original substitution was a no-op, the expansion is
    /// `Replace` with no substitutions.
    Replace(Vec<DynamicSubstitution>),
    /// The two sides can never be equal: the match case is unreachable.
    Exploded,
}

pub enum ExpansionView {
    ApplyConcrete((Term, Term)),
    Replace(Seq<(Term, Term)>),
    Exploded,
}

impl View for DynamicSubstitutionExpansionResult {
    type V = ExpansionView;

    open spec fn view(&self) -> ExpansionView {
        match self {
            DynamicSubstitutionExpansionResult::ApplyConcrete(s) => ExpansionView::ApplyConcrete(s@),
            DynamicSubstitutionExpansionResult::Replace(v) => ExpansionView::Replace(dynamic_substitutions_view(v@)),
            DynamicSubstitutionExpansionResult::Exploded => ExpansionView::Exploded,
        }
    }
}

/// The arguments of a constructor application, in order; an implicit
/// labeled argument `:x` is the name `x`.
pub open spec fn arg_values(a: Option<ArgList>) -> Seq<Term> {
    match a {
        None => seq![],
        Some(args) => Seq::new(crate::fun_recursion::arg_count(args), |i: int| arg_term(args, i)),
    }
}

/// The equations between corresponding arguments.
pub open spec fn pair_up(xs: Seq<Term>, ys: Seq<Term>) -> Seq<(Term, Term)> {
    Seq::new(xs.len(), |i: int| (xs[i], ys[i]))
}

/// Two applications of the same type constructor are equal where their
/// arguments are; applications of different ones never are.
pub open spec fn adt_expansion(l: (Term, Seq<IdName>, Option<ArgList>), r: (Term, Seq<IdName>, Option<ArgList>)) -> ExpansionView {
    if head_index(l.0) != head_index(r.0) {
        ExpansionView::Exploded
    } else {
        ExpansionView::Replace(pair_up(arg_values(l.2), arg_values(r.2)))
    }
}

/// Two applications of the same variant are equal where their arguments
/// are; applications of different variants never are.
pub open spec fn variant_expansion(l: (IdName, Option<ArgList>), r: (IdName, Option<ArgList>)) -> ExpansionView {
    if l.0 != r.0 {
        ExpansionView::Exploded
    } else {
        ExpansionView::Replace(pair_up(arg_values(l.1), arg_values(r.1)))
    }
}

/// What the equation `a = b` expands to. An equation whose two sides are
/// the same is a no-op and expands to no substitutions at all.
pub open spec fn expansion(ctx: Seq<(Term, crate::context::DefinitionView)>, a: Term, b: Term) -> ExpansionView {
    if a == b {
        ExpansionView::Replace(seq![])
    } else if as_adt(ctx, a) is Some && as_adt(ctx, b) is Some {
        adt_expansion(as_adt(ctx, a)->Some_0, as_adt(ctx, b)->Some_0)
    } else if as_variant(ctx, a) is Some && as_variant(ctx, b) is Some {
        variant_expansion(as_variant(ctx, a)->Some_0, as_variant(ctx, b)->Some_0)
    } else {
        match concrete_substitution(ctx, a, b) {
            Some(s) => ExpansionView::ApplyConcrete(s),
            None => ExpansionView::Replace(seq![]),
        }
    }
}

/// What the expansion needs: definitions for both heads, arguments that
/// pair up where two constructors agree, and what the choice of a
/// direction needs otherwise.
pub open spec fn expansion_ok(ctx: Seq<(Term, crate::context::DefinitionView)>, a: Term, b: Term) -> bool {
    a != b ==> expansion_ok_distinct(ctx, a, b)
}

/// What the expansion of an equation between two different sides needs.
pub open spec fn expansion_ok_distinct(ctx: Seq<(Term, crate::context::DefinitionView)>, a: Term, b: Term) -> bool {
    &&& head_lookup_ok(ctx, a)
    &&& head_lookup_ok(ctx, b)
    &&& if as_adt(ctx, a) is Some && as_adt(ctx, b) is Some {
        head_index(as_adt(ctx, a)->Some_0.0) == head_index(as_adt(ctx, b)->Some_0.0) ==> arg_values(as_adt(ctx, a)->Some_0.2).len()
            == arg_values(as_adt(ctx, b)->Some_0.2).len()
    } else if as_variant(ctx, a) is Some && as_variant(ctx, b) is Some {
        as_variant(ctx, a)->Some_0.0 == as_variant(ctx, b)->Some_0.0 ==> arg_values(as_variant(ctx, a)->Some_0.1).len()
            == arg_values(as_variant(ctx, b)->Some_0.1).len()
    } else {
        concrete_substitution_ok(ctx, a, b)
    }
}

fn arg_values_exec(p: &PossibleArgListId) -> (r: Vec<Expression>)
    ensures
        exprs_view(r@) == arg_values(p@),
{
    let mut out: Vec<Expression> = Vec::new();
    match p {
        PossibleArgListId::Nullary => {
            assert(exprs_view(out@) =~= arg_values(p@));
        },
        PossibleArgListId::WithArgs(CallArgList::Unlabeled(v)) => {
            let mut i: usize = 0;
            while i < v.len()
                invariant
                    i <= v.len(),
                    out@.len() == i,
                    forall|k: int| 0 <= k < i ==> (#[trigger] out@[k])@ == exprs_view(v@)[k],
                decreases v.len() - i,
            {
                out.push(copy_expression(&v[i]));
                i += 1;
            }
            assert(exprs_view(out@) =~= arg_values(p@));
        },
        PossibleArgListId::WithArgs(CallArgList::UniquelyLabeled(v)) => {
            let ghost args = ArgList::Labeled(labeled_args_view(v@));
            let mut i: usize = 0;
            while i < v.len()
                invariant
                    i <= v.len(),
                    args == ArgList::Labeled(labeled_args_view(v@)),
                    out@.len() == i,
                    forall|k: int| 0 <= k < i ==> (#[trigger] out@[k])@ == arg_term(args, k),
                decreases v.len() - i,
            {
                assert(labeled_args_view(v@)[i as int] == v@[i as int]@);
                let e = match &v[i] {
                    LabeledCallArg::Implicit { label, db_index } => Expression::Name(name_of_label(label, *db_index)),
                    LabeledCallArg::Explicit { value, .. } => copy_expression(value),
                };
                out.push(e);
                i += 1;
            }
            assert(exprs_view(out@) =~= arg_values(p@));
        },
    }
    out
}

/// The equations between corresponding arguments. The arguments of a
/// normal form are normal forms.
fn pair_up_exec(left: &Vec<Expression>, right: &Vec<Expression>) -> (r: Vec<DynamicSubstitution>)
    requires
        left@.len() == right@.len(),
    ensures
        dynamic_substitutions_view(r@) == pair_up(exprs_view(left@), exprs_view(right@)),
{
    let mut out: Vec<DynamicSubstitution> = Vec::new();
    let mut i: usize = 0;
    while i < left.len()
        invariant
            i <= left.len(),
            left@.len() == right@.len(),
            out@.len() == i,
            forall|k: int| 0 <= k < i ==> (#[trigger] out@[k])@ == (left@[k]@, right@[k]@),
        decreases left.len() - i,
    {
        out.push(DynamicSubstitution(
            NormalFormId::unchecked_new(copy_expression(&left[i])),
            NormalFormId::unchecked_new(copy_expression(&right[i])),
        ));
        i += 1;
    }
    assert(dynamic_substitutions_view(out@) =~= pair_up(exprs_view(left@), exprs_view(right@)));
    out
}

pub fn expand_dynamic_adt_substitution_shallow(left: &NormalFormAdtExpression, right: &NormalFormAdtExpression) -> (r: DynamicSubstitutionExpansionResult)
    requires
        left.type_name_id.db_index == right.type_name_id.db_index ==> arg_values(left.arg_list_id@).len() == arg_values(right.arg_list_id@).len(),
    ensures
        r@ == adt_expansion(left@, right@),
{
    if left.type_name_id.db_index.0 != right.type_name_id.db_index.0 {
        return DynamicSubstitutionExpansionResult::Exploded;
    }
    let left_args = arg_values_exec(&left.arg_list_id);
    let right_args = arg_values_exec(&right.arg_list_id);
    DynamicSubstitutionExpansionResult::Replace(pair_up_exec(&left_args, &right_args))
}

/// Only the names are compared: two sides of an equation have the same
/// type, and a type has at most one variant of a given name.
pub fn expand_dynamic_normal_form_variant_substitution_shallow(
    left: &(crate::ast::Identifier, PossibleArgListId),
    right: &(crate::ast::Identifier, PossibleArgListId),
) -> (r: DynamicSubstitutionExpansionResult)
    requires
        left.0@ == right.0@ ==> arg_values(left.1@).len() == arg_values(right.1@).len(),
    ensures
        r@ == variant_expansion((left.0@, left.1@), (right.0@, right.1@)),
{
    if !identifier_names_equal(&left.0.name, &right.0.name) {
        return DynamicSubstitutionExpansionResult::Exploded;
    }
    let left_args = arg_values_exec(&left.1);
    let right_args = arg_values_exec(&right.1);
    DynamicSubstitutionExpansionResult::Replace(pair_up_exec(&left_args, &right_args))
}

pub fn expand_dynamic_substitution_shallow(context: &Context, d: &DynamicSubstitution) -> (r: DynamicSubstitutionExpansionResult)
    requires
        expansion_ok(context@, d@.0, d@.1),
    ensures
        r@ == expansion(context@, d@.0, d@.1),
{
    if expressions_equal(d.0.raw_ref(), d.1.raw_ref()) {
        let none: Vec<DynamicSubstitution> = Vec::new();
        assert(dynamic_substitutions_view(none@) =~= Seq::<(Term, Term)>::empty());
        return DynamicSubstitutionExpansionResult::Replace(none);
    }
    let left_adt = try_as_normal_form_adt_expression(context, &d.0);
    let right_adt = try_as_normal_form_adt_expression(context, &d.1);
    if let (Some(left), Some(right)) = (&left_adt, &right_adt) {
        return expand_dynamic_adt_substitution_shallow(left, right);
    }
    let left_variant = try_as_variant_expression(context, d.0.raw_ref());
    let right_variant = try_as_variant_expression(context, d.1.raw_ref());
    if let (Some(left), Some(right)) = (&left_variant, &right_variant) {
        return expand_dynamic_normal_form_variant_substitution_shallow(left, right);
    }
    match get_concrete_substitution(context, d) {
        Some(conc_sub) => DynamicSubstitutionExpansionResult::ApplyConcrete(conc_sub),
        None => {
            let none: Vec<DynamicSubstitution> = Vec::new();
            assert(dynamic_substitutions_view(none@) =~= Seq::<(Term, Term)>::empty());
            DynamicSubstitutionExpansionResult::Replace(none)
        },
    }
}


// ---------------------------------------------------------------------
// Fusing two normal forms
// ---------------------------------------------------------------------

/// What equating two normal forms teaches: whether they can never be equal
/// (two different variants), and the equations between their parts.
#[derive(Debug)]
pub struct Fusion {
    pub has_exploded: bool,
    pub substitutions: Vec<DynamicSubstitution>,
}

impl View for Fusion {
    type V = (bool, Seq<(Term, Term)>);

    open spec fn view(&self) -> (bool, Seq<(Term, Term)>) {
        (self.has_exploded, dynamic_substitutions_view(self.substitutions@))
    }
}

/// Two applications of the same variant fuse argument by argument (up to
/// the shorter argument list); applications of different variants
/// explode; anything else is one equation.
pub open spec fn fuse(ctx: Seq<(Term, crate::context::DefinitionView)>, l: Term, r: Term) -> (bool, Seq<(Term, Term)>)
    decreases l, 0nat,
{
    if as_variant(ctx, l) is Some && as_variant(ctx, r) is Some {
        if as_variant(ctx, l)->Some_0.0 == as_variant(ctx, r)->Some_0.0 {
            match (l, r) {
                (Term::Call { args: ArgList::Unlabeled(ls), .. }, Term::Call { args: ArgList::Unlabeled(rs), .. }) => fuse_prefix(
                    ctx,
                    ls,
                    rs,
                    if ls.len() <= rs.len() { ls.len() } else { rs.len() },
                ),
                _ => (false, seq![]),
            }
        } else {
            (true, seq![])
        }
    } else {
        (false, seq![(l, r)])
    }
}

/// The fusions of the first `n` argument pairs, in order.
pub open spec fn fuse_prefix(ctx: Seq<(Term, crate::context::DefinitionView)>, ls: Seq<Term>, rs: Seq<Term>, n: nat) -> (bool, Seq<(Term, Term)>)
    decreases ls, n,
{
    if n == 0 || n > ls.len() || n > rs.len() {
        (false, seq![])
    } else {
        let before = fuse_prefix(ctx, ls, rs, (n - 1) as nat);
        let last = fuse(ctx, ls[n - 1], rs[n - 1]);
        (before.0 || last.0, before.1 + last.1)
    }
}

/// What fusing needs: definitions for the heads that it looks up, and
/// argument lists of the same kind (unlabeled, or none) wherever two
/// applications of the same variant meet.
pub open spec fn fuse_ok(ctx: Seq<(Term, crate::context::DefinitionView)>, l: Term, r: Term) -> bool
    decreases l,
{
    &&& head_lookup_ok(ctx, l)
    &&& head_lookup_ok(ctx, r)
    &&& (as_variant(ctx, l) is Some && as_variant(ctx, r) is Some && as_variant(ctx, l)->Some_0.0 == as_variant(ctx, r)->Some_0.0)
        ==> match (l, r) {
        (Term::Call { args: ArgList::Unlabeled(ls), .. }, Term::Call { args: ArgList::Unlabeled(rs), .. }) => forall|i: int|
            0 <= i < ls.len() && i < rs.len() ==> fuse_ok(ctx, #[trigger] ls[i], rs[i]),
        (Term::Call { .. }, _) => false,
        (_, Term::Call { .. }) => false,
        _ => true,
    }
}

proof fn lemma_fuse_ok_args(ctx: Seq<(Term, crate::context::DefinitionView)>, l: Term, r: Term, ls: Seq<Term>, rs: Seq<Term>)
    requires
        fuse_ok(ctx, l, r),
        as_variant(ctx, l) is Some,
        as_variant(ctx, r) is Some,
        as_variant(ctx, l)->Some_0.0 == as_variant(ctx, r)->Some_0.0,
        l matches Term::Call { args: ArgList::Unlabeled(a), .. } && a == ls,
        r matches Term::Call { args: ArgList::Unlabeled(b), .. } && b == rs,
    ensures
        forall|i: int| 0 <= i < ls.len() && i < rs.len() ==> fuse_ok(ctx, #[trigger] ls[i], rs[i]),
{
}

/// Fuses `left` into `right` (see `fuse`).
pub fn fuse_left_to_right(context: &Context, left: &NormalFormId, right: &NormalFormId) -> (r: Fusion)
    requires
        fuse_ok(context@, left@, right@),
    ensures
        r@ == fuse(context@, left@, right@),
{
    fuse_expressions(context, left.raw_ref(), right.raw_ref())
}

fn fuse_expressions(context: &Context, left: &Expression, right: &Expression) -> (r: Fusion)
    requires
        fuse_ok(context@, left@, right@),
    ensures
        r@ == fuse(context@, left@, right@),
    decreases left, 0nat,
{
    let left_variant = try_as_variant_expression(context, left);
    let right_variant = try_as_variant_expression(context, right);
    if let (Some(lv), Some(rv)) = (&left_variant, &right_variant) {
        if identifier_names_equal(&lv.0.name, &rv.0.name) {
            match (left, right) {
                (Expression::Call(lc), Expression::Call(rc)) => {
                    assert(left@ == Term::Call { callee: Box::new(lc.callee@), args: lc.args@ });
                    assert(right@ == Term::Call { callee: Box::new(rc.callee@), args: rc.args@ });
                    match (&lc.args, &rc.args) {
                        (CallArgList::Unlabeled(ls), CallArgList::Unlabeled(rs)) => {
                            assert(lc.args@ == ArgList::Unlabeled(exprs_view(ls@)));
                            assert(rc.args@ == ArgList::Unlabeled(exprs_view(rs@)));
                            assert(lv.0@ == rv.0@);
                            assert(as_variant(context@, left@) is Some);
                            assert(as_variant(context@, right@) is Some);
                            assert(as_variant(context@, left@)->Some_0.0 == as_variant(context@, right@)->Some_0.0);
                            let ghost lts = exprs_view(ls@);
                            let ghost rts = exprs_view(rs@);
                            assert(left@ == Term::Call { callee: Box::new(lc.callee@), args: ArgList::Unlabeled(lts) });
                            assert(right@ == Term::Call { callee: Box::new(rc.callee@), args: ArgList::Unlabeled(rts) });
                            proof { lemma_fuse_ok_args(context@, left@, right@, lts, rts); }
                            fuse_argument_lists(context, ls, rs)
                        },
                        _ => {
                            proof { assert(false); }
                            Fusion { has_exploded: false, substitutions: Vec::new() }
                        },
                    }
                },
                (Expression::Call(_), _) => {
                    proof { assert(false); }
                    Fusion { has_exploded: false, substitutions: Vec::new() }
                },
                (_, Expression::Call(_)) => {
                    proof { assert(false); }
                    Fusion { has_exploded: false, substitutions: Vec::new() }
                },
                _ => {
                    let none: Vec<DynamicSubstitution> = Vec::new();
                    assert(dynamic_substitutions_view(none@) =~= Seq::<(Term, Term)>::empty());
                    Fusion { has_exploded: false, substitutions: none }
                },
            }
        } else {
            let none: Vec<DynamicSubstitution> = Vec::new();
            assert(dynamic_substitutions_view(none@) =~= Seq::<(Term, Term)>::empty());
            Fusion { has_exploded: true, substitutions: none }
        }
    } else {
        let mut subs: Vec<DynamicSubstitution> = Vec::new();
        subs.push(DynamicSubstitution(
            NormalFormId::unchecked_new(copy_expression(left)),
            NormalFormId::unchecked_new(copy_expression(right)),
        ));
        assert(dynamic_substitutions_view(subs@) =~= seq![(left@, right@)]);
        Fusion { has_exploded: false, substitutions: subs }
    }
}

/// Fuses the arguments pairwise, up to the shorter list, and gathers the
/// results in order.
fn fuse_argument_lists(context: &Context, ls: &Vec<Expression>, rs: &Vec<Expression>) -> (r: Fusion)
    requires
        forall|i: int| 0 <= i < ls@.len() && i < rs@.len() ==> fuse_ok(context@, #[trigger] exprs_view(ls@)[i], exprs_view(rs@)[i]),
    ensures
        r@ == fuse_prefix(
            context@,
            exprs_view(ls@),
            exprs_view(rs@),
            if ls@.len() <= rs@.len() { ls@.len() } else { rs@.len() },
        ),
    decreases ls, 0nat,
{
    let n = if ls.len() <= rs.len() { ls.len() } else { rs.len() };
    let ghost lv = exprs_view(ls@);
    let ghost rv = exprs_view(rs@);
    let mut out = Fusion { has_exploded: false, substitutions: Vec::new() };
    assert(dynamic_substitutions_view(out.substitutions@) =~= Seq::<(Term, Term)>::empty());
    let mut i: usize = 0;
    while i < n
        invariant
            i <= n,
            n <= ls@.len(),
            n <= rs@.len(),
            lv == exprs_view(ls@),
            rv == exprs_view(rs@),
            forall|k: int| 0 <= k < ls@.len() && k < rs@.len() ==> fuse_ok(context@, #[trigger] exprs_view(ls@)[k], exprs_view(rs@)[k]),
            out@ == fuse_prefix(context@, lv, rv, i as nat),
        decreases n - i,
    {
        assert(lv[i as int] == ls@[i as int]@);
        assert(rv[i as int] == rs@[i as int]@);
        let part = fuse_expressions(context, &ls[i], &rs[i]);
        let ghost before = out.substitutions@;
        out.has_exploded = out.has_exploded || part.has_exploded;
        let mut extra = part.substitutions;
        out.substitutions.append(&mut extra);
        assert(dynamic_substitutions_view(out.substitutions@) =~= dynamic_substitutions_view(before) + dynamic_substitutions_view(part.substitutions@));
        i += 1;
    }
    out
}

// ---------------------------------------------------------------------
// Laws
// ---------------------------------------------------------------------

/// An equation says nothing exactly when its two sides are the same;
/// otherwise it becomes a substitution of one side by the other.
pub proof fn lemma_concrete_substitution_uses_both_sides(ctx: Seq<(Term, crate::context::DefinitionView)>, a: Term, b: Term)
    ensures
        concrete_substitution(ctx, a, b) is None <==> a == b,
        concrete_substitution(ctx, a, b) matches Some(s) ==> (s == (a, b) || s == (b, a)),
{
}

/// A side that occurs inside the other replaces it, never the reverse.
pub proof fn lemma_concrete_substitution_keeps_the_subterm(ctx: Seq<(Term, crate::context::DefinitionView)>, a: Term, b: Term)
    requires
        a != b,
        is_inclusive_subterm(a, b),
    ensures
        concrete_substitution(ctx, a, b) == Some((b, a)),
{
}

/// An equation whose two sides are the same expands to no substitutions
/// at all, whatever the sides are.
pub proof fn lemma_no_op_expands_to_nothing(ctx: Seq<(Term, crate::context::DefinitionView)>, a: Term)
    ensures
        expansion(ctx, a, a) == ExpansionView::Replace(seq![]),
{
}

/// Where neither side of an equation occurs in the other and exactly one
/// side is a variant, the substitution replaces the other side by the
/// variant, whichever side of the equation the variant stands on.
pub proof fn lemma_the_variant_side_replaces_the_other(ctx: Seq<(Term, crate::context::DefinitionView)>, a: Term, b: Term)
    requires
        a != b,
        !is_inclusive_subterm(a, b),
        !is_inclusive_subterm(b, a),
        (as_variant(ctx, a) is Some) != (as_variant(ctx, b) is Some),
    ensures
        concrete_substitution(ctx, a, b) matches Some((from, to)) && {
            &&& as_variant(ctx, to) is Some
            &&& as_variant(ctx, from) is None
            &&& ((from == a && to == b) || (from == b && to == a))
        },
{
}

}
