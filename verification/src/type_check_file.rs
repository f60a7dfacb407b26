//! The type checker for files.
//!
//! A type statement's constructor has the type `Type0`, or a forall of the
//! type's normalised parameters with output `Type0`; each variant, checked
//! after the type and the variants before it are in scope, has its
//! normalised return type, or a forall of its normalised parameters with
//! that output. A `let` statement's name has its value's type and stands
//! for its value's normal form. After a file, as many entries are popped
//! as the file has items.

use vstd::prelude::*;
use crate::ast::{Term, IdName, ParamTerm, Identifier, Expression, Forall, Param, copy_identifier, idents_view, params_view};
use crate::context::{Context, ContextEntry, ContextEntryDefinition, DefinitionView, TYPE0_LEVEL, builtin_name_term};
use crate::eval::{push_params, evaluate_well_typed_expression};
use crate::file::{File, FileItem, TypeStatement, Variant, LetStatement, ItemView, VariantView, items_view, variants_view};
use crate::misc::{NormalFormId, TypeCheckError, TypeCheckErrorView};
use crate::normal_form::type0_expression;
use crate::substitution_application::Halt;
use crate::substitution_context::SubstitutionContext;
use crate::type_check::{Checked, norm, type_of, type_params, type0_term, get_type_of_expression_dirty, normalize_params_and_leave_params_in_context_dirty};

verus! {

// ---------------------------------------------------------------------
// The model
// ---------------------------------------------------------------------

/// The forall of `ps` with output `out`, or `out` itself where there are no
/// parameters.
pub open spec fn possibly_nullary_forall(ps: Seq<ParamTerm>, out: Term) -> Term {
    if ps.len() == 0 {
        out
    } else {
        Term::Forall { params: ps, output: Box::new(out) }
    }
}

pub open spec fn variant_names(vs: Seq<VariantView>) -> Seq<IdName> {
    Seq::new(vs.len(), |i: int| vs[i].name)
}

/// The context with the variant checked and pushed.
#[verifier::opaque]
pub open spec fn check_variant(ctx: Seq<(Term, DefinitionView)>, sctx: Seq<(nat, Seq<(Term, Term)>)>, v: VariantView, fuel: nat) -> Checked<Seq<(Term, DefinitionView)>> {
    match type_params(ctx, sctx, v.params, fuel) {
        Err(h) => Err(h),
        Ok(Err(e)) => Ok(Err(e)),
        Ok(Ok(ps)) => {
            let inner = push_params(ctx, ps);
            match type_of(inner, sctx, v.return_type, fuel) {
                Err(h) => Err(h),
                Ok(Err(e)) => Ok(Err(e)),
                Ok(Ok(_)) => match norm(inner, v.return_type, fuel) {
                    Err(h) => Err(h),
                    Ok(rt) => Ok(Ok(ctx.push((possibly_nullary_forall(ps, rt), DefinitionView::Variant(v.name))))),
                },
            }
        },
    }
}

/// The context with the variants checked and pushed in order.
pub open spec fn check_variants(ctx: Seq<(Term, DefinitionView)>, sctx: Seq<(nat, Seq<(Term, Term)>)>, vs: Seq<VariantView>, fuel: nat) -> Checked<Seq<(Term, DefinitionView)>>
    decreases vs.len(),
{
    if vs.len() == 0 {
        Ok(Ok(ctx))
    } else {
        match check_variants(ctx, sctx, vs.drop_last(), fuel) {
            Err(h) => Err(h),
            Ok(Err(e)) => Ok(Err(e)),
            Ok(Ok(c)) => check_variant(c, sctx, vs.last(), fuel),
        }
    }
}

/// The context with the item checked and its names pushed.
#[verifier::opaque]
pub open spec fn check_item(ctx: Seq<(Term, DefinitionView)>, sctx: Seq<(nat, Seq<(Term, Term)>)>, item: ItemView, fuel: nat) -> Checked<Seq<(Term, DefinitionView)>> {
    if ctx.len() <= TYPE0_LEVEL {
        Err(Halt::Stuck)
    } else {
        match item {
            ItemView::Let { value, .. } => match type_of(ctx, sctx, value, fuel) {
                Err(h) => Err(h),
                Ok(Err(e)) => Ok(Err(e)),
                Ok(Ok(t)) => match norm(ctx, value, fuel) {
                    Err(h) => Err(h),
                    Ok(v) => Ok(Ok(ctx.push((t, DefinitionView::Alias(v))))),
                },
            },
            ItemView::Type { params, variants, .. } => match type_params(ctx, sctx, params, fuel) {
                Err(h) => Err(h),
                Ok(Err(e)) => Ok(Err(e)),
                Ok(Ok(ps)) => check_variants(
                    ctx.push((possibly_nullary_forall(ps, type0_term(push_params(ctx, ps))), DefinitionView::Adt(variant_names(variants)))),
                    sctx,
                    variants,
                    fuel,
                ),
            },
        }
    }
}

/// The context with the items checked and their names pushed in order.
pub open spec fn check_items(ctx: Seq<(Term, DefinitionView)>, sctx: Seq<(nat, Seq<(Term, Term)>)>, items: Seq<ItemView>, fuel: nat) -> Checked<Seq<(Term, DefinitionView)>>
    decreases items.len(),
{
    if items.len() == 0 {
        Ok(Ok(ctx))
    } else {
        match check_items(ctx, sctx, items.drop_last(), fuel) {
            Err(h) => Err(h),
            Ok(Err(e)) => Ok(Err(e)),
            Ok(Ok(c)) => check_item(c, sctx, items.last(), fuel),
        }
    }
}

/// The files checked in order, each leaving the context with as many
/// entries popped as it has items.
pub open spec fn check_files(ctx: Seq<(Term, DefinitionView)>, files: Seq<Seq<ItemView>>, fuel: nat) -> Checked<Seq<(Term, DefinitionView)>>
    decreases files.len(),
{
    if files.len() == 0 {
        Ok(Ok(ctx))
    } else {
        match check_files(ctx, files.drop_last(), fuel) {
            Err(h) => Err(h),
            Ok(Err(e)) => Ok(Err(e)),
            Ok(Ok(c)) => match check_items(c, seq![], files.last(), fuel) {
                Err(h) => Err(h),
                Ok(Err(e)) => Ok(Err(e)),
                Ok(Ok(c2)) => if files.last().len() <= c2.len() {
                    Ok(Ok(c2.take(c2.len() - files.last().len())))
                } else {
                    Err(Halt::Stuck)
                },
            },
        }
    }
}

/// The builtins `Type1` and `Type0`.
pub open spec fn builtins() -> Seq<(Term, DefinitionView)> {
    seq![(builtin_name_term("Type2"@), DefinitionView::Uninterpreted), (builtin_name_term("Type1"@), DefinitionView::Uninterpreted)]
}

pub open spec fn files_view(files: Seq<File>) -> Seq<Seq<ItemView>> {
    Seq::new(files.len(), |i: int| files[i]@)
}

/// Whether the files type-check, starting from the builtins.
pub open spec fn type_check_files_spec(files: Seq<Seq<ItemView>>, fuel: nat) -> Checked<()> {
    match check_files(builtins(), files, fuel) {
        Err(h) => Err(h),
        Ok(Err(e)) => Ok(Err(e)),
        Ok(Ok(_)) => Ok(Ok(())),
    }
}

/// `r` is what checking a step gave, and on success the context is the
/// one the step leaves.
pub open spec fn stepped(r: Option<Result<(), TypeCheckError>>, x: Checked<Seq<(Term, DefinitionView)>>, after: Seq<(Term, DefinitionView)>) -> bool {
    match r {
        Some(Ok(())) => x == Ok::<Result<Seq<(Term, DefinitionView)>, TypeCheckErrorView>, Halt>(Ok(after)),
        Some(Err(e)) => x == Ok::<Result<Seq<(Term, DefinitionView)>, TypeCheckErrorView>, Halt>(Err(e@)),
        None => x == Err::<Result<Seq<(Term, DefinitionView)>, TypeCheckErrorView>, Halt>(Halt::OutOfFuel),
    }
}


// ---------------------------------------------------------------------
// Checking
// ---------------------------------------------------------------------

fn possibly_nullary_forall_exec(ps: Vec<Param>, out: Expression) -> (r: Expression)
    ensures
        r@ == possibly_nullary_forall(params_view(ps@), out@),
{
    if ps.len() == 0 {
        out
    } else {
        Expression::Forall(Box::new(Forall { params: ps, output: out }))
    }
}

fn type_check_variant_dirty(context: &mut Context, substitution_context: &SubstitutionContext, v: &Variant, fuel: usize) -> (r: Option<Result<(), TypeCheckError>>)
    requires
        !(check_variant(old(context)@, substitution_context@, v@, fuel as nat) matches Err(Halt::Stuck)),
    ensures
        stepped(r, check_variant(old(context)@, substitution_context@, v@, fuel as nat), final(context)@),
{
    reveal(check_variant);
    let ghost s0 = context@;
    let n = v.params.len();
    let ps = match normalize_params_and_leave_params_in_context_dirty(context, substitution_context, &v.params, fuel) {
        None => return None,
        Some(Err(x)) => return Some(Err(x)),
        Some(Ok(ps)) => ps,
    };
    match get_type_of_expression_dirty(context, substitution_context, &v.return_type, fuel) {
        None => { return None; },
        Some(Err(x)) => { return Some(Err(x)); },
        Some(Ok(_)) => {},
    }
    let rt = match evaluate_well_typed_expression(context, &v.return_type, fuel) {
        None => return None,
        Some(x) => x,
    };
    assert(params_view(ps@).len() == n);
    context.pop_n(n);
    assert(context@ =~= s0);
    let t = possibly_nullary_forall_exec(ps, rt.raw());
    context.push(ContextEntry { type_id: NormalFormId::unchecked_new(t), definition: ContextEntryDefinition::Variant { name_id: copy_identifier(&v.name) } });
    Some(Ok(()))
}

proof fn lemma_check_variants_prefix(ctx: Seq<(Term, DefinitionView)>, sctx: Seq<(nat, Seq<(Term, Term)>)>, vs: Seq<VariantView>, fuel: nat, k: int)
    requires
        0 <= k <= vs.len(),
        !(check_variants(ctx, sctx, vs.take(k), fuel) is Ok && check_variants(ctx, sctx, vs.take(k), fuel)->Ok_0 is Ok),
    ensures
        check_variants(ctx, sctx, vs, fuel) == check_variants(ctx, sctx, vs.take(k), fuel),
    decreases vs.len() - k,
{
    if k < vs.len() {
        assert(vs.take(k + 1).drop_last() =~= vs.take(k));
        lemma_check_variants_prefix(ctx, sctx, vs, fuel, k + 1);
    } else {
        assert(vs.take(k) =~= vs);
    }
}

fn type_check_variants_dirty(context: &mut Context, substitution_context: &SubstitutionContext, vs: &Vec<Variant>, fuel: usize) -> (r: Option<Result<(), TypeCheckError>>)
    requires
        !(check_variants(old(context)@, substitution_context@, variants_view(vs@), fuel as nat) matches Err(Halt::Stuck)),
    ensures
        stepped(r, check_variants(old(context)@, substitution_context@, variants_view(vs@), fuel as nat), final(context)@),
{
    let ghost s0 = context@;
    let ghost sv = substitution_context@;
    let ghost vv = variants_view(vs@);
    let mut i: usize = 0;
    assert(vv.take(0) =~= Seq::<VariantView>::empty());
    while i < vs.len()
        invariant
            i <= vs.len(),
            old(context)@ == s0,
            sv == substitution_context@,
            vv == variants_view(vs@),
            !(check_variants(s0, sv, vv, fuel as nat) matches Err(Halt::Stuck)),
            check_variants(s0, sv, vv.take(i as int), fuel as nat) == Ok::<Result<Seq<(Term, DefinitionView)>, TypeCheckErrorView>, Halt>(Ok(context@)),
        decreases vs.len() - i,
    {
        assert(vv.take(i + 1).drop_last() =~= vv.take(i as int));
        assert(vv.take(i + 1).last() == vv[i as int]);
        assert(vv[i as int] == vs@[i as int]@);
        proof {
            let x = check_variants(s0, sv, vv.take(i + 1), fuel as nat);
            if !(x is Ok && x->Ok_0 is Ok) {
                lemma_check_variants_prefix(s0, sv, vv, fuel as nat, i + 1);
            }
        }
        match type_check_variant_dirty(context, substitution_context, &vs[i], fuel) {
            None => {
                proof { lemma_check_variants_prefix(s0, sv, vv, fuel as nat, i + 1); }
                return None;
            },
            Some(Err(x)) => {
                proof { lemma_check_variants_prefix(s0, sv, vv, fuel as nat, i + 1); }
                return Some(Err(x));
            },
            Some(Ok(())) => {},
        }
        i += 1;
    }
    assert(vv.take(vs.len() as int) =~= vv);
    Some(Ok(()))
}

fn variant_names_exec(vs: &Vec<Variant>) -> (r: Vec<Identifier>)
    ensures
        idents_view(r@) == variant_names(variants_view(vs@)),
{
    let mut out: Vec<Identifier> = Vec::new();
    let mut i: usize = 0;
    while i < vs.len()
        invariant
            i <= vs.len(),
            out@.len() == i,
            forall|k: int| 0 <= k < i ==> (#[trigger] out@[k])@ == variants_view(vs@)[k].name,
        decreases vs.len() - i,
    {
        assert(variants_view(vs@)[i as int] == vs@[i as int]@);
        out.push(copy_identifier(&vs[i].name));
        i += 1;
    }
    assert(idents_view(out@) =~= variant_names(variants_view(vs@)));
    out
}

fn type_check_type_statement_dirty(context: &mut Context, substitution_context: &SubstitutionContext, t: &TypeStatement, fuel: usize) -> (r: Option<Result<(), TypeCheckError>>)
    requires
        !(check_item(old(context)@, substitution_context@, ItemView::Type { name: t.name@, params: params_view(t.params@), variants: variants_view(t.variants@) }, fuel as nat) matches Err(Halt::Stuck)),
    ensures
        stepped(r, check_item(old(context)@, substitution_context@, ItemView::Type { name: t.name@, params: params_view(t.params@), variants: variants_view(t.variants@) }, fuel as nat), final(context)@),
{
    reveal(check_item);
    let ghost s0 = context@;
    let n = t.params.len();
    let ps = match normalize_params_and_leave_params_in_context_dirty(context, substitution_context, &t.params, fuel) {
        None => return None,
        Some(Err(x)) => return Some(Err(x)),
        Some(Ok(ps)) => ps,
    };
    let ty = type0_expression(context);
    assert(params_view(ps@).len() == n);
    context.pop_n(n);
    assert(context@ =~= s0);
    let ctor = possibly_nullary_forall_exec(ps, ty.raw());
    context.push(ContextEntry { type_id: NormalFormId::unchecked_new(ctor), definition: ContextEntryDefinition::Adt { variant_name_list_id: variant_names_exec(&t.variants) } });
    type_check_variants_dirty(context, substitution_context, &t.variants, fuel)
}

fn type_check_let_statement_dirty(context: &mut Context, substitution_context: &SubstitutionContext, l: &LetStatement, fuel: usize) -> (r: Option<Result<(), TypeCheckError>>)
    requires
        !(check_item(old(context)@, substitution_context@, ItemView::Let { name: l.name@, value: l.value@ }, fuel as nat) matches Err(Halt::Stuck)),
    ensures
        stepped(r, check_item(old(context)@, substitution_context@, ItemView::Let { name: l.name@, value: l.value@ }, fuel as nat), final(context)@),
{
    reveal(check_item);
    let t = match get_type_of_expression_dirty(context, substitution_context, &l.value, fuel) {
        None => return None,
        Some(Err(x)) => return Some(Err(x)),
        Some(Ok(t)) => t,
    };
    let v = match evaluate_well_typed_expression(context, &l.value, fuel) {
        None => return None,
        Some(v) => v,
    };
    context.push(ContextEntry { type_id: t, definition: ContextEntryDefinition::Alias { value_id: v } });
    Some(Ok(()))
}

proof fn lemma_check_items_prefix(ctx: Seq<(Term, DefinitionView)>, sctx: Seq<(nat, Seq<(Term, Term)>)>, items: Seq<ItemView>, fuel: nat, k: int)
    requires
        0 <= k <= items.len(),
        !(check_items(ctx, sctx, items.take(k), fuel) is Ok && check_items(ctx, sctx, items.take(k), fuel)->Ok_0 is Ok),
    ensures
        check_items(ctx, sctx, items, fuel) == check_items(ctx, sctx, items.take(k), fuel),
    decreases items.len() - k,
{
    if k < items.len() {
        assert(items.take(k + 1).drop_last() =~= items.take(k));
        lemma_check_items_prefix(ctx, sctx, items, fuel, k + 1);
    } else {
        assert(items.take(k) =~= items);
    }
}

/// Checks the items in order, leaving their names in the context.
pub fn type_check_file_items(context: &mut Context, substitution_context: &SubstitutionContext, items: &Vec<FileItem>, fuel: usize) -> (r: Option<Result<(), TypeCheckError>>)
    requires
        !(check_items(old(context)@, substitution_context@, items_view(items@), fuel as nat) matches Err(Halt::Stuck)),
    ensures
        stepped(r, check_items(old(context)@, substitution_context@, items_view(items@), fuel as nat), final(context)@),
{
    let ghost s0 = context@;
    let ghost sv = substitution_context@;
    let ghost iv = items_view(items@);
    let mut i: usize = 0;
    assert(iv.take(0) =~= Seq::<ItemView>::empty());
    while i < items.len()
        invariant
            i <= items.len(),
            old(context)@ == s0,
            sv == substitution_context@,
            iv == items_view(items@),
            !(check_items(s0, sv, iv, fuel as nat) matches Err(Halt::Stuck)),
            check_items(s0, sv, iv.take(i as int), fuel as nat) == Ok::<Result<Seq<(Term, DefinitionView)>, TypeCheckErrorView>, Halt>(Ok(context@)),
        decreases items.len() - i,
    {
        assert(iv.take(i + 1).drop_last() =~= iv.take(i as int));
        assert(iv.take(i + 1).last() == iv[i as int]);
        assert(iv[i as int] == items@[i as int]@);
        proof {
            let x = check_items(s0, sv, iv.take(i + 1), fuel as nat);
            if !(x is Ok && x->Ok_0 is Ok) {
                lemma_check_items_prefix(s0, sv, iv, fuel as nat, i + 1);
            }
        }
        let step = match &items[i] {
            FileItem::Type(t) => type_check_type_statement_dirty(context, substitution_context, t, fuel),
            FileItem::Let(l) => type_check_let_statement_dirty(context, substitution_context, l, fuel),
        };
        match step {
            None => {
                proof { lemma_check_items_prefix(s0, sv, iv, fuel as nat, i + 1); }
                return None;
            },
            Some(Err(x)) => {
                proof { lemma_check_items_prefix(s0, sv, iv, fuel as nat, i + 1); }
                return Some(Err(x));
            },
            Some(Ok(())) => {},
        }
        i += 1;
    }
    assert(iv.take(items.len() as int) =~= iv);
    Some(Ok(()))
}

proof fn lemma_check_files_prefix(ctx: Seq<(Term, DefinitionView)>, files: Seq<Seq<ItemView>>, fuel: nat, k: int)
    requires
        0 <= k <= files.len(),
        !(check_files(ctx, files.take(k), fuel) is Ok && check_files(ctx, files.take(k), fuel)->Ok_0 is Ok),
    ensures
        check_files(ctx, files, fuel) == check_files(ctx, files.take(k), fuel),
    decreases files.len() - k,
{
    if k < files.len() {
        assert(files.take(k + 1).drop_last() =~= files.take(k));
        lemma_check_files_prefix(ctx, files, fuel, k + 1);
    } else {
        assert(files.take(k) =~= files);
    }
}

/// Type-checks the files in order, starting from the builtins: `Some(Ok)`
/// where they all type-check, `Some(Err)` with the first error otherwise,
/// `None` where the fuel ran out.
pub fn type_check_files(files: &Vec<File>, fuel: usize) -> (r: Option<Result<(), TypeCheckError>>)
    requires
        !(type_check_files_spec(files_view(files@), fuel as nat) matches Err(Halt::Stuck)),
    ensures
        match r {
            Some(Ok(())) => type_check_files_spec(files_view(files@), fuel as nat) == Ok::<Result<(), TypeCheckErrorView>, Halt>(Ok(())),
            Some(Err(e)) => type_check_files_spec(files_view(files@), fuel as nat) == Ok::<Result<(), TypeCheckErrorView>, Halt>(Err(e@)),
            None => type_check_files_spec(files_view(files@), fuel as nat) == Err::<Result<(), TypeCheckErrorView>, Halt>(Halt::OutOfFuel),
        },
{
    let mut context = Context::with_builtins();
    let substitution_context = SubstitutionContext::empty();
    let ghost s0 = context@;
    assert(s0 =~= builtins());
    let ghost fv = files_view(files@);
    let mut i: usize = 0;
    assert(fv.take(0) =~= Seq::<Seq<ItemView>>::empty());
    while i < files.len()
        invariant
            i <= files.len(),
            s0 == builtins(),
            substitution_context@ == Seq::<(nat, Seq<(Term, Term)>)>::empty(),
            fv == files_view(files@),
            !(check_files(s0, fv, fuel as nat) matches Err(Halt::Stuck)),
            check_files(s0, fv.take(i as int), fuel as nat) == Ok::<Result<Seq<(Term, DefinitionView)>, TypeCheckErrorView>, Halt>(Ok(context@)),
        decreases files.len() - i,
    {
        assert(fv.take(i + 1).drop_last() =~= fv.take(i as int));
        assert(fv.take(i + 1).last() == fv[i as int]);
        assert(fv[i as int] == files@[i as int]@);
        assert(files@[i as int]@ == items_view(files@[i as int].items@));
        assert(substitution_context@ =~= seq![]);
        proof {
            let x = check_files(s0, fv.take(i + 1), fuel as nat);
            if !(x is Ok && x->Ok_0 is Ok) {
                lemma_check_files_prefix(s0, fv, fuel as nat, i + 1);
            }
        }
        let items = &files[i].items;
        match type_check_file_items(&mut context, &substitution_context, items, fuel) {
            None => {
                proof { lemma_check_files_prefix(s0, fv, fuel as nat, i + 1); }
                return None;
            },
            Some(Err(x)) => {
                proof { lemma_check_files_prefix(s0, fv, fuel as nat, i + 1); }
                return Some(Err(x));
            },
            Some(Ok(())) => {},
        }
        if items.len() > context.len() {
            proof { lemma_check_files_prefix(s0, fv, fuel as nat, i + 1); }
            return vstd::pervasive::unreached();
        }
        context.pop_n(items.len());
        i += 1;
    }
    assert(fv.take(files.len() as int) =~= fv);
    Some(Ok(()))
}

}
