//! The recursion check over a whole file.

use vstd::prelude::*;
use crate::ast::{ParamTerm, params_view};
use crate::file::{
    File, FileItem, TypeStatement, Variant, LetStatement, ItemView, VariantView, item_binding_count,
    items_binding_count, items_view, variants_view, lemma_items_binding_count_step,
};
use crate::fun_recursion::{
    IllegalFunRecursionError, FunRecursionErrorView, push_n, well_scoped, validate_term, validate_params,
    is_prefix, lemma_push_n_wf, lemma_push_n_step, lemma_prefix_trans,
    check_fun_recursion_in_expression, validate_fun_recursion_in_expression_dirty,
    validate_fun_recursion_in_params_and_leave_in_context_dirty,
};
use crate::fun_recursion_context::{Context, ContextEntry, Tainted, stack_wf};
use crate::fun_recursion_marks::{mark_params, mark_term, mark_expression, mark_params_and_leave_in_context};
use crate::ast::copy_identifier;

verus! {

// ---------------------------------------------------------------------
// The model
// ---------------------------------------------------------------------

pub open spec fn params_scoped(ps: Seq<ParamTerm>, n: nat) -> bool {
    forall|i: int| 0 <= i < ps.len() ==> well_scoped(#[trigger] ps[i].type_, n + i as nat)
}

pub open spec fn variant_scoped(v: VariantView, n: nat) -> bool {
    &&& params_scoped(v.params, n)
    &&& well_scoped(v.return_type, n + v.params.len())
}

/// A type statement's parameters see the names before it; its `k`-th
/// variant sees those, the type, and the `k` variants before it.
pub open spec fn item_scoped(item: ItemView, n: nat) -> bool {
    match item {
        ItemView::Type { params, variants, .. } => {
            &&& params_scoped(params, n)
            &&& forall|k: int| 0 <= k < variants.len() ==> variant_scoped(#[trigger] variants[k], n + 1 + k as nat)
        },
        ItemView::Let { value, .. } => well_scoped(value, n),
    }
}

/// Every item's names are bound by the `n` names before the file or by
/// the items before it.
pub open spec fn items_scoped(items: Seq<ItemView>, n: nat) -> bool {
    forall|k: int| 0 <= k < items.len() ==> item_scoped(#[trigger] items[k], n + items_binding_count(items.take(k)))
}

/// The context that a file starts in: `Type1` and `Type0`.
pub open spec fn file_context() -> Seq<ContextEntry> {
    seq![ContextEntry::NoInformation, ContextEntry::NoInformation]
}

pub open spec fn validate_variant(s: Seq<ContextEntry>, v: VariantView) -> Result<(), FunRecursionErrorView> {
    match validate_params(s, v.params) {
        Err(e) => Err(e),
        Ok(()) => validate_term(push_n(s, v.params.len(), ContextEntry::NoInformation), v.return_type),
    }
}

/// The `k`-th variant is checked with the `k` variants before it in scope.
pub open spec fn validate_variants(s: Seq<ContextEntry>, vs: Seq<VariantView>) -> Result<(), FunRecursionErrorView>
    decreases vs.len(),
{
    if vs.len() == 0 {
        Ok(())
    } else {
        match validate_variants(s, vs.drop_last()) {
            Err(e) => Err(e),
            Ok(()) => validate_variant(push_n(s, (vs.len() - 1) as nat, ContextEntry::NoInformation), vs.last()),
        }
    }
}

pub open spec fn validate_item(s: Seq<ContextEntry>, item: ItemView) -> Result<(), FunRecursionErrorView> {
    match item {
        ItemView::Type { params, variants, .. } => match validate_params(s, params) {
            Err(e) => Err(e),
            Ok(()) => validate_variants(s.push(ContextEntry::NoInformation), variants),
        },
        ItemView::Let { value, .. } => validate_term(s, value),
    }
}

/// The first illegal recursion in the items, each checked with the names
/// that the items before it bind in scope.
pub open spec fn validate_items(s: Seq<ContextEntry>, items: Seq<ItemView>) -> Result<(), FunRecursionErrorView>
    decreases items.len(),
{
    if items.len() == 0 {
        Ok(())
    } else {
        match validate_items(s, items.drop_last()) {
            Err(e) => Err(e),
            Ok(()) => validate_item(
                push_n(s, items_binding_count(items.drop_last()), ContextEntry::NoInformation),
                items.last(),
            ),
        }
    }
}

pub proof fn lemma_push_n_add(s: Seq<ContextEntry>, a: nat, b: nat, e: ContextEntry)
    ensures
        push_n(push_n(s, a, e), b, e) == push_n(s, a + b, e),
{
    assert(push_n(push_n(s, a, e), b, e) =~= push_n(s, a + b, e));
}

pub proof fn lemma_variants_error_prefix(s: Seq<ContextEntry>, vs: Seq<VariantView>, k: int)
    requires
        0 <= k <= vs.len(),
        validate_variants(s, vs.take(k)) is Err,
    ensures
        validate_variants(s, vs) == validate_variants(s, vs.take(k)),
    decreases vs.len() - k,
{
    if k == vs.len() {
        assert(vs.take(k) =~= vs);
    } else {
        assert(vs.take(k + 1).drop_last() =~= vs.take(k));
        lemma_variants_error_prefix(s, vs, k + 1);
    }
}

pub proof fn lemma_items_error_prefix(s: Seq<ContextEntry>, items: Seq<ItemView>, k: int)
    requires
        0 <= k <= items.len(),
        validate_items(s, items.take(k)) is Err,
    ensures
        validate_items(s, items) == validate_items(s, items.take(k)),
    decreases items.len() - k,
{
    if k == items.len() {
        assert(items.take(k) =~= items);
    } else {
        assert(items.take(k + 1).drop_last() =~= items.take(k));
        lemma_items_error_prefix(s, items, k + 1);
    }
}


// ---------------------------------------------------------------------
// The file with its invalid assertion sides marked
// ---------------------------------------------------------------------

pub open spec fn mark_variant(s: Seq<ContextEntry>, v: VariantView) -> VariantView {
    VariantView {
        params: mark_params(s, v.params),
        return_type: mark_term(push_n(s, v.params.len(), ContextEntry::NoInformation), v.return_type),
        ..v
    }
}

/// The `k`-th variant is marked with the `k` variants before it in scope.
pub open spec fn mark_variants(s: Seq<ContextEntry>, vs: Seq<VariantView>) -> Seq<VariantView> {
    Seq::new(vs.len(), |k: int| mark_variant(push_n(s, k as nat, ContextEntry::NoInformation), vs[k]))
}

pub open spec fn mark_item(s: Seq<ContextEntry>, item: ItemView) -> ItemView {
    match item {
        ItemView::Type { name, params, variants } => ItemView::Type {
            name,
            params: mark_params(s, params),
            variants: mark_variants(s.push(ContextEntry::NoInformation), variants),
        },
        ItemView::Let { name, value } => ItemView::Let { name, value: mark_term(s, value) },
    }
}

/// Each item marked with the names that the items before it bind in scope.
pub open spec fn mark_items(s: Seq<ContextEntry>, items: Seq<ItemView>) -> Seq<ItemView> {
    Seq::new(
        items.len(),
        |k: int| mark_item(push_n(s, items_binding_count(items.take(k)), ContextEntry::NoInformation), items[k]),
    )
}

fn mark_variant_exec(context: &mut Context, v: &Variant) -> (r: Variant)
    requires
        stack_wf(old(context)@),
        variant_scoped(v@, old(context)@.len()),
    ensures
        final(context)@ == old(context)@.push(ContextEntry::NoInformation),
        r@ == mark_variant(old(context)@, v@),
{
    let ghost s0 = context@;
    let arity = v.params.len();
    assert(params_view(v.params@).len() == arity);
    let params = mark_params_and_leave_in_context(context, &v.params);
    proof { lemma_push_n_wf(s0, arity as nat, ContextEntry::NoInformation); }
    let return_type = mark_expression(context, &v.return_type);
    context.pop_n(arity);
    assert(context@ =~= s0);
    let _pushed = context.push(ContextEntry::NoInformation);
    Variant { name: copy_identifier(&v.name), params, return_type }
}

fn mark_item_exec(context: &mut Context, item: &FileItem) -> (r: FileItem)
    requires
        stack_wf(old(context)@),
        item_scoped(item@, old(context)@.len()),
    ensures
        final(context)@ == push_n(old(context)@, item_binding_count(item@), ContextEntry::NoInformation),
        r@ == mark_item(old(context)@, item@),
{
    let ghost s0 = context@;
    match item {
        FileItem::Let(l) => {
            let value = mark_expression(context, &l.value);
            let _pushed = context.push(ContextEntry::NoInformation);
            assert(context@ =~= push_n(s0, 1, ContextEntry::NoInformation));
            FileItem::Let(LetStatement { name: copy_identifier(&l.name), value })
        },
        FileItem::Type(t) => {
            let ghost vv = variants_view(t.variants@);
            let arity = t.params.len();
            assert(params_view(t.params@).len() == arity);
            let params = mark_params_and_leave_in_context(context, &t.params);
            context.pop_n(arity);
            assert(context@ =~= s0);
            let _pushed = context.push(ContextEntry::NoInformation);
            let ghost s1 = context@;
            proof { lemma_push_n_wf(s0, 1, ContextEntry::NoInformation); }
            assert(s1 =~= push_n(s0, 1, ContextEntry::NoInformation));
            let v = &t.variants;
            let mut out: Vec<Variant> = Vec::new();
            let mut i: usize = 0;
            assert(push_n(s1, 0, ContextEntry::NoInformation) =~= s1);
            while i < v.len()
                invariant
                    i <= v.len(),
                    stack_wf(s1),
                    s1 == s0.push(ContextEntry::NoInformation),
                    vv == variants_view(v@),
                    forall|k: int| 0 <= k < vv.len() ==> variant_scoped(#[trigger] vv[k], s0.len() + 1 + k as nat),
                    context@ == push_n(s1, i as nat, ContextEntry::NoInformation),
                    out@.len() == i,
                    forall|k: int| 0 <= k < i ==> (#[trigger] out@[k])@ == mark_variant(push_n(s1, k as nat, ContextEntry::NoInformation), vv[k]),
                decreases v.len() - i,
            {
                proof { lemma_push_n_wf(s1, i as nat, ContextEntry::NoInformation); }
                assert(vv[i as int] == v@[i as int]@);
                let x = mark_variant_exec(context, &v[i]);
                proof { lemma_push_n_step(s1, i as nat, ContextEntry::NoInformation); }
                out.push(x);
                i += 1;
            }
            assert(variants_view(out@) =~= mark_variants(s1, vv));
            proof { lemma_push_n_add(s0, 1, v@.len(), ContextEntry::NoInformation); }
            FileItem::Type(TypeStatement { name: copy_identifier(&t.name), params, variants: out })
        },
    }
}

#[verifier::spinoff_prover]
#[verifier::rlimit(50)]
fn mark_file(file: &File) -> (r: File)
    requires
        items_scoped(file@, 2),
    ensures
        r@ == mark_items(file_context(), file@),
{
    let mut context = Context::new();
    let ghost s0 = context@;
    let ghost fv = file@;
    let v = &file.items;
    let mut out: Vec<FileItem> = Vec::new();
    let mut i: usize = 0;
    assert(fv.take(0) =~= Seq::<ItemView>::empty());
    assert(items_binding_count(fv.take(0)) == 0) by {
        reveal(items_binding_count);
    }
    assert(push_n(s0, 0, ContextEntry::NoInformation) =~= s0);
    while i < v.len()
        invariant
            i <= v.len(),
            s0 == file_context(),
            fv == items_view(v@),
            fv == file@,
            items_scoped(fv, 2),
            context@ == push_n(s0, items_binding_count(fv.take(i as int)), ContextEntry::NoInformation),
            out@.len() == i,
            forall|k: int|
                0 <= k < i ==> (#[trigger] out@[k])@ == mark_item(
                    push_n(s0, items_binding_count(fv.take(k)), ContextEntry::NoInformation),
                    fv[k],
                ),
        decreases v.len() - i,
    {
        proof { lemma_push_n_wf(s0, items_binding_count(fv.take(i as int)), ContextEntry::NoInformation); }
        assert(fv[i as int] == v@[i as int]@);
        assert(item_scoped(fv[i as int], 2 + items_binding_count(fv.take(i as int))));
        let x = mark_item_exec(&mut context, &v[i]);
        proof {
            lemma_items_binding_count_step(fv, i as int);
            lemma_push_n_add(
                s0,
                items_binding_count(fv.take(i as int)),
                item_binding_count(fv[i as int]),
                ContextEntry::NoInformation,
            );
        }
        out.push(x);
        i += 1;
    }
    assert(items_view(out@) =~= mark_items(s0, fv));
    File { items: out }
}

// ---------------------------------------------------------------------
// The check
// ---------------------------------------------------------------------

/// Checks every item of the file, in order, and returns the first error;
/// on success it gives back the file with each check assertion side that
/// holds illegal recursion marked invalid.
pub fn validate_fun_recursion_in_file(file: &File) -> (r: Result<File, IllegalFunRecursionError>)
    requires
        items_scoped(file@, 2),
    ensures
        match r {
            Ok(f) => validate_items(file_context(), file@) is Ok && f@ == mark_items(file_context(), file@),
            Err(e) => validate_items(file_context(), file@) == Err::<(), FunRecursionErrorView>(e@),
        },
{
    match check_fun_recursion_in_file(file) {
        Err(e) => Err(e),
        Ok(()) => Ok(mark_file(file)),
    }
}

/// Checks every item of the file, in order, and returns the first error.
#[verifier::spinoff_prover]
#[verifier::rlimit(50)]
fn check_fun_recursion_in_file(file: &File) -> (r: Result<(), IllegalFunRecursionError>)
    requires
        items_scoped(file@, 2),
    ensures
        match r {
            Ok(()) => validate_items(file_context(), file@) is Ok,
            Err(e) => validate_items(file_context(), file@) == Err::<(), FunRecursionErrorView>(e@),
        },
{
    let mut context = Context::new();
    let ghost s0 = context@;
    let ghost fv = file@;
    let v = &file.items;
    let mut i: usize = 0;
    assert(fv.take(0) =~= Seq::<ItemView>::empty());
    assert(items_binding_count(fv.take(0)) == 0) by {
        reveal(items_binding_count);
    }
    assert(push_n(s0, 0, ContextEntry::NoInformation) =~= s0);
    while i < v.len()
        invariant
            i <= v.len(),
            s0 == file_context(),
            fv == items_view(v@),
            fv == file@,
            items_scoped(fv, 2),
            context@ == push_n(s0, items_binding_count(fv.take(i as int)), ContextEntry::NoInformation),
            validate_items(s0, fv.take(i as int)) is Ok,
        decreases v.len() - i,
    {
        proof { lemma_push_n_wf(s0, items_binding_count(fv.take(i as int)), ContextEntry::NoInformation); }
        assert(fv.take(i + 1).drop_last() =~= fv.take(i as int));
        assert(fv.take(i + 1).last() == fv[i as int]);
        assert(fv[i as int] == v@[i as int]@);
        assert(item_scoped(fv[i as int], 2 + items_binding_count(fv.take(i as int))));
        match validate_fun_recursion_in_file_item(&mut context, &v[i]) {
            Err(e) => {
                assert(validate_items(s0, fv.take(i + 1)) == Err::<(), FunRecursionErrorView>(e@));
                proof { lemma_items_error_prefix(s0, fv, i + 1); }
                return Err(e);
            },
            Ok(()) => {},
        }
        proof {
            lemma_items_binding_count_step(fv, i as int);
            lemma_push_n_add(
                s0,
                items_binding_count(fv.take(i as int)),
                item_binding_count(fv[i as int]),
                ContextEntry::NoInformation,
            );
        }
        i += 1;
    }
    assert(fv.take(v.len() as int) =~= fv);
    Ok(())
}

/// Checks one item; on success the names it binds are pushed, and on
/// failure the context is as before.
fn validate_fun_recursion_in_file_item(context: &mut Context, item: &FileItem) -> (r: Result<(), IllegalFunRecursionError>)
    requires
        stack_wf(old(context)@),
        item_scoped(item@, old(context)@.len()),
    ensures
        match r {
            Ok(()) => {
                &&& final(context)@ == push_n(old(context)@, item_binding_count(item@), ContextEntry::NoInformation)
                &&& validate_item(old(context)@, item@) is Ok
            },
            Err(e) => {
                &&& final(context)@ == old(context)@
                &&& validate_item(old(context)@, item@) == Err::<(), FunRecursionErrorView>(e@)
            },
        },
{
    match item {
        FileItem::Type(t) => validate_fun_recursion_in_type_statement(context, t),
        FileItem::Let(l) => validate_fun_recursion_in_let_statement(context, l),
    }
}

fn validate_fun_recursion_in_let_statement(context: &mut Context, l: &LetStatement) -> (r: Result<(), IllegalFunRecursionError>)
    requires
        stack_wf(old(context)@),
        well_scoped(l.value@, old(context)@.len()),
    ensures
        match r {
            Ok(()) => {
                &&& final(context)@ == push_n(old(context)@, 1, ContextEntry::NoInformation)
                &&& validate_term(old(context)@, l.value@) is Ok
            },
            Err(e) => {
                &&& final(context)@ == old(context)@
                &&& validate_term(old(context)@, l.value@) == Err::<(), FunRecursionErrorView>(e@)
            },
        },
{
    match check_fun_recursion_in_expression(context, &l.value) {
        Err(e) => {
            return Err(e);
        },
        Ok(()) => {},
    }
    let _pushed = context.push(ContextEntry::NoInformation);
    assert(context@ =~= push_n(old(context)@, 1, ContextEntry::NoInformation));
    Ok(())
}

fn validate_fun_recursion_in_type_statement(context: &mut Context, t: &TypeStatement) -> (r: Result<(), IllegalFunRecursionError>)
    requires
        stack_wf(old(context)@),
        item_scoped(FileItem::Type(*t)@, old(context)@.len()),
    ensures
        match r {
            Ok(()) => {
                &&& final(context)@ == push_n(old(context)@, 1 + t.variants@.len(), ContextEntry::NoInformation)
                &&& validate_item(old(context)@, FileItem::Type(*t)@) is Ok
            },
            Err(e) => {
                &&& final(context)@ == old(context)@
                &&& validate_item(old(context)@, FileItem::Type(*t)@) == Err::<(), FunRecursionErrorView>(e@)
            },
        },
{
    let original_len = context.len();
    match validate_fun_recursion_in_type_statement_dirty(context, t) {
        Ok(()) => Ok(()),
        Err(tainted) => {
            context.truncate(original_len);
            assert(context@ =~= old(context)@);
            Err(tainted.untaint())
        },
    }
}

fn validate_fun_recursion_in_type_statement_dirty(context: &mut Context, t: &TypeStatement) -> (r: Result<(), Tainted<IllegalFunRecursionError>>)
    requires
        stack_wf(old(context)@),
        item_scoped(FileItem::Type(*t)@, old(context)@.len()),
    ensures
        match r {
            Ok(()) => {
                &&& final(context)@ == push_n(old(context)@, 1 + t.variants@.len(), ContextEntry::NoInformation)
                &&& validate_item(old(context)@, FileItem::Type(*t)@) is Ok
            },
            Err(tainted) => {
                &&& validate_item(old(context)@, FileItem::Type(*t)@) == Err::<(), FunRecursionErrorView>(tainted.inner()@)
                &&& is_prefix(old(context)@, final(context)@)
            },
        },
{
    let ghost s0 = context@;
    let ghost pv = params_view(t.params@);
    let ghost vv = variants_view(t.variants@);
    let arity = t.params.len();
    assert(pv.len() == arity);
    match validate_fun_recursion_in_params_and_leave_in_context_dirty(context, &t.params) {
        Err(tainted) => {
            return Err(tainted);
        },
        Ok(()) => {},
    }
    context.pop_n(arity);
    assert(context@ =~= s0);
    let _pushed = context.push(ContextEntry::NoInformation);
    let ghost s1 = context@;
    proof { lemma_push_n_wf(s0, 1, ContextEntry::NoInformation); }
    assert(s1 =~= push_n(s0, 1, ContextEntry::NoInformation));
    let v = &t.variants;
    let mut i: usize = 0;
    assert(vv.take(0) =~= Seq::<VariantView>::empty());
    assert(push_n(s1, 0, ContextEntry::NoInformation) =~= s1);
    while i < v.len()
        invariant
            i <= v.len(),
            old(context)@ == s0,
            stack_wf(s0),
            s1 == push_n(s0, 1, ContextEntry::NoInformation),
            s1 == s0.push(ContextEntry::NoInformation),
            stack_wf(s1),
            vv == variants_view(v@),
            vv == variants_view(t.variants@),
            pv == params_view(t.params@),
            forall|k: int| 0 <= k < vv.len() ==> crate::fun_recursion_file::variant_scoped(#[trigger] vv[k], s0.len() + 1 + k as nat),
            context@ == push_n(s1, i as nat, ContextEntry::NoInformation),
            validate_params(s0, pv) is Ok,
            validate_variants(s1, vv.take(i as int)) is Ok,
        decreases v.len() - i,
    {
        proof { lemma_push_n_wf(s1, i as nat, ContextEntry::NoInformation); }
        assert(vv.take(i + 1).drop_last() =~= vv.take(i as int));
        assert(vv.take(i + 1).last() == vv[i as int]);
        assert(vv[i as int] == v@[i as int]@);
        let ghost before = context@;
        match validate_fun_recursion_in_variant_dirty(context, &v[i]) {
            Err(tainted) => {
                assert(validate_variants(s1, vv.take(i + 1)) == Err::<(), FunRecursionErrorView>(tainted.inner()@));
                proof {
                    lemma_variants_error_prefix(s1, vv, i + 1);
                    assert(validate_variants(s1, vv) == Err::<(), FunRecursionErrorView>(tainted.inner()@));
                    assert(validate_item(s0, FileItem::Type(*t)@) == Err::<(), FunRecursionErrorView>(tainted.inner()@));
                    lemma_prefix_trans(s0, s1, before);
                    lemma_prefix_trans(s0, before, context@);
                }
                return Err(tainted);
            },
            Ok(()) => {},
        }
        proof { lemma_push_n_step(s1, i as nat, ContextEntry::NoInformation); }
        i += 1;
    }
    assert(vv.take(v.len() as int) =~= vv);
    proof { lemma_push_n_add(s0, 1, v@.len(), ContextEntry::NoInformation); }
    Ok(())
}

/// Checks a variant's parameter types and return type, then pushes the
/// variant's name.
fn validate_fun_recursion_in_variant_dirty(context: &mut Context, variant: &Variant) -> (r: Result<(), Tainted<IllegalFunRecursionError>>)
    requires
        stack_wf(old(context)@),
        variant_scoped(variant@, old(context)@.len()),
    ensures
        match r {
            Ok(()) => {
                &&& final(context)@ == old(context)@.push(ContextEntry::NoInformation)
                &&& validate_variant(old(context)@, variant@) is Ok
            },
            Err(tainted) => {
                &&& validate_variant(old(context)@, variant@) == Err::<(), FunRecursionErrorView>(tainted.inner()@)
                &&& is_prefix(old(context)@, final(context)@)
            },
        },
{
    let ghost s0 = context@;
    let ghost pv = params_view(variant.params@);
    let ghost s1 = push_n(s0, pv.len(), ContextEntry::NoInformation);
    let arity = variant.params.len();
    assert(pv.len() == arity);
    match validate_fun_recursion_in_params_and_leave_in_context_dirty(context, &variant.params) {
        Err(tainted) => {
            return Err(tainted);
        },
        Ok(()) => {},
    }
    proof { lemma_push_n_wf(s0, pv.len(), ContextEntry::NoInformation); }
    match validate_fun_recursion_in_expression_dirty(context, &variant.return_type) {
        Err(tainted) => {
            proof { lemma_prefix_trans(s0, s1, context@); }
            return Err(tainted);
        },
        Ok(()) => {},
    }
    context.pop_n(arity);
    assert(context@ =~= s0);
    let _pushed = context.push(ContextEntry::NoInformation);
    Ok(())
}

}
