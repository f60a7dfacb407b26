//! A source file: a list of type and `let` statements, each of which binds
//! names that the statements after it can use.

use vstd::prelude::*;
use crate::ast::{IdName, Identifier, Param, ParamTerm, Expression, Term, params_view};

verus! {

#[derive(Debug)]
pub struct File {
    pub items: Vec<FileItem>,
}

#[derive(Debug)]
pub enum FileItem {
    Type(TypeStatement),
    Let(LetStatement),
}

/// `type Name(params) { variants }`: binds the type's name, then each
/// variant's name.
#[derive(Debug)]
pub struct TypeStatement {
    pub name: Identifier,
    pub params: Vec<Param>,
    pub variants: Vec<Variant>,
}

#[derive(Debug)]
pub struct Variant {
    pub name: Identifier,
    pub params: Vec<Param>,
    pub return_type: Expression,
}

/// `let name = value;`: binds the name.
#[derive(Debug)]
pub struct LetStatement {
    pub name: Identifier,
    pub value: Expression,
}

pub struct VariantView {
    pub name: IdName,
    pub params: Seq<ParamTerm>,
    pub return_type: Term,
}

pub enum ItemView {
    Type { name: IdName, params: Seq<ParamTerm>, variants: Seq<VariantView> },
    Let { name: IdName, value: Term },
}

pub open spec fn variant_view(v: Variant) -> VariantView {
    VariantView { name: v.name@, params: params_view(v.params@), return_type: v.return_type@ }
}

pub open spec fn variants_view(s: Seq<Variant>) -> Seq<VariantView> {
    Seq::new(
        s.len(),
        |i: int|
            if 0 <= i < s.len() {
                variant_view(s[i])
            } else {
                VariantView { name: IdName::Standard(seq![]), params: seq![], return_type: crate::ast::dummy_term() }
            },
    )
}

pub open spec fn item_view(item: FileItem) -> ItemView {
    match item {
        FileItem::Type(t) => ItemView::Type { name: t.name@, params: params_view(t.params@), variants: variants_view(t.variants@) },
        FileItem::Let(l) => ItemView::Let { name: l.name@, value: l.value@ },
    }
}

pub open spec fn items_view(s: Seq<FileItem>) -> Seq<ItemView> {
    Seq::new(s.len(), |i: int| if 0 <= i < s.len() { item_view(s[i]) } else { ItemView::Let { name: IdName::Standard(seq![]), value: crate::ast::dummy_term() } })
}

impl View for Variant {
    type V = VariantView;

    open spec fn view(&self) -> VariantView {
        variant_view(*self)
    }
}

impl View for FileItem {
    type V = ItemView;

    open spec fn view(&self) -> ItemView {
        item_view(*self)
    }
}

impl View for File {
    type V = Seq<ItemView>;

    open spec fn view(&self) -> Seq<ItemView> {
        items_view(self.items@)
    }
}

/// How many names an item binds.
pub open spec fn item_binding_count(item: ItemView) -> nat {
    match item {
        ItemView::Type { variants, .. } => 1 + variants.len(),
        ItemView::Let { .. } => 1,
    }
}

/// How many names the items bind.
#[verifier::opaque]
pub open spec fn items_binding_count(items: Seq<ItemView>) -> nat
    decreases items.len(),
{
    if items.len() == 0 {
        0
    } else {
        items_binding_count(items.drop_last()) + item_binding_count(items.last())
    }
}

pub proof fn lemma_items_binding_count_step(items: Seq<ItemView>, i: int)
    requires
        0 <= i < items.len(),
    ensures
        items_binding_count(items.take(i + 1)) == items_binding_count(items.take(i)) + item_binding_count(items[i]),
        items_binding_count(items.take(0)) == 0,
{
    reveal(items_binding_count);
    assert(items.take(i + 1).drop_last() =~= items.take(i));
}

}
