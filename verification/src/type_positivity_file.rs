//! The positivity check over a whole file, and its context.

use vstd::prelude::*;
use crate::file::{File, FileItem, TypeStatement, ItemView, items_view};
use crate::type_positivity::TypePositivityError;

verus! {

/// What a name in scope of the positivity check stands for.
#[derive(Clone, Copy, Debug, PartialEq, Eq, Structural)]
pub enum ContextEntryDefinition {
    /// The type statement at the given position of the file.
    Adt(usize),
    /// The given variant of the type statement at the given position.
    Variant(usize, usize),
    Uninterpreted,
}

#[derive(Debug)]
pub struct Context {
    local_stack: Vec<ContextEntryDefinition>,
}

impl View for Context {
    type V = Seq<ContextEntryDefinition>;

    closed spec fn view(&self) -> Seq<ContextEntryDefinition> {
        self.local_stack@
    }
}

impl Context {
    /// `Type1` and `Type0`, which are neither types nor variants of a file.
    pub fn with_builtins() -> (r: Self)
        ensures
            r@ == seq![ContextEntryDefinition::Uninterpreted, ContextEntryDefinition::Uninterpreted],
    {
        let r = Self { local_stack: vec![ContextEntryDefinition::Uninterpreted, ContextEntryDefinition::Uninterpreted] };
        assert(r@ =~= seq![ContextEntryDefinition::Uninterpreted, ContextEntryDefinition::Uninterpreted]);
        r
    }

    /// Panics if `n > self.len()`.
    pub fn pop_n(&mut self, n: usize)
        requires
            n <= old(self)@.len(),
        ensures
            final(self)@ == old(self)@.take(old(self)@.len() - n),
    {
        let new_len = self.local_stack.len() - n;
        self.local_stack.truncate(new_len);
    }

    pub fn push(&mut self, entry: ContextEntryDefinition)
        ensures
            final(self)@ == old(self)@.push(entry),
    {
        self.local_stack.push(entry);
    }

    pub fn len(&self) -> (r: usize)
        ensures
            r == self@.len(),
    {
        self.local_stack.len()
    }
}

/// The check of a variant is not written yet, so the file-level check
/// only accepts files whose types have no variants.
pub open spec fn has_no_variants(items: Seq<ItemView>) -> bool {
    forall|k: int| 0 <= k < items.len() ==> (#[trigger] items[k] matches ItemView::Type { variants, .. } ==> variants.len() == 0)
}

/// The context after the first `k` items: two builtins, then one entry per
/// item (a type for a type statement, nothing known for a `let`).
pub open spec fn positivity_context_after(items: Seq<ItemView>, k: int) -> Seq<ContextEntryDefinition> {
    seq![ContextEntryDefinition::Uninterpreted, ContextEntryDefinition::Uninterpreted] + Seq::new(
        k as nat,
        |i: int|
            if items[i] is Type {
                ContextEntryDefinition::Adt(i as usize)
            } else {
                ContextEntryDefinition::Uninterpreted
            },
    )
}

/// Checks the type statements of a file in order. A file whose types have
/// no variants has nothing that could appear negatively, so it passes.
pub fn validate_type_positivity_in_file(file: &File) -> (r: Result<(), TypePositivityError>)
    requires
        has_no_variants(file@),
    ensures
        r is Ok,
{
    let mut context = Context::with_builtins();
    let v = &file.items;
    let ghost fv = file@;
    let mut i: usize = 0;
    assert(context@ =~= positivity_context_after(fv, 0));
    while i < v.len()
        invariant
            i <= v.len(),
            fv == items_view(v@),
            has_no_variants(fv),
            context@ == positivity_context_after(fv, i as int),
        decreases v.len() - i,
    {
        assert(fv[i as int] == v@[i as int]@);
        match validate_type_positivity_in_file_item(&mut context, &v[i], i) {
            Err(e) => {
                return Err(e);
            },
            Ok(()) => {},
        }
        assert(context@ =~= positivity_context_after(fv, i + 1));
        i += 1;
    }
    Ok(())
}

fn validate_type_positivity_in_file_item(context: &mut Context, item: &FileItem, position: usize) -> (r: Result<(), TypePositivityError>)
    requires
        item@ matches ItemView::Type { variants, .. } ==> variants.len() == 0,
    ensures
        r is Ok,
        final(context)@ == old(context)@.push(
            if item@ is Type {
                ContextEntryDefinition::Adt(position)
            } else {
                ContextEntryDefinition::Uninterpreted
            },
        ),
{
    match item {
        FileItem::Type(t) => validate_type_positivity_in_type_statement(context, t, position),
        FileItem::Let(_) => {
            context.push(ContextEntryDefinition::Uninterpreted);
            Ok(())
        },
    }
}

fn validate_type_positivity_in_type_statement(context: &mut Context, t: &TypeStatement, position: usize) -> (r: Result<(), TypePositivityError>)
    requires
        t.variants@.len() == 0,
    ensures
        r is Ok,
        final(context)@ == old(context)@.push(ContextEntryDefinition::Adt(position)),
{
    context.push(ContextEntryDefinition::Adt(position));
    Ok(())
}

}
