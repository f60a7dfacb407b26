//! Recognising the head of a normal form (an ADT, a variant), and turning
//! an equation between two normal forms into substitutions.

use vstd::prelude::*;
use crate::ast::{
    DbIndex, Term, IdName, ArgList, LabeledArg, Identifier, IdentifierName, ReservedIdentifierName, Expression, NameExpression, CallArgList,
    LabeledCallArg, idents_view, exprs_view, labeled_args_view, copy_identifier, copy_identifiers,
};
use crate::context::{
    Context, ContextEntryDefinition, DefinitionView, TYPE0_LEVEL, TYPE1_LEVEL, definition_fits_up,
    shift_definition_up,
};
use crate::equality::{expressions_equal, identifier_names_equal, copy_expression, copy_call_arg_list};
use crate::min_db_index::{cutoffs_fit, min_index_term, min_free_db_index_in_expression};
use crate::misc::NormalFormId;
use crate::substitute::Substitution;
use crate::substitution_context::DynamicSubstitution;
use crate::subterm::{is_inclusive_subterm, subterm_search_fits, is_left_inclusive_subterm_of_right};

verus! {

// ---------------------------------------------------------------------
// Heads of normal forms
// ---------------------------------------------------------------------

/// The arguments of an ADT or variant expression: none for a bare name.
#[derive(Debug)]
pub enum PossibleArgListId {
    Nullary,
    WithArgs(CallArgList),
}

impl View for PossibleArgListId {
    type V = Option<ArgList>;

    open spec fn view(&self) -> Option<ArgList> {
        match self {
            PossibleArgListId::Nullary => None,
            PossibleArgListId::WithArgs(a) => Some(a@),
        }
    }
}

/// A normal form whose head names an algebraic data type.
#[derive(Debug)]
pub struct NormalFormAdtExpression {
    pub type_name_id: NameExpression,
    pub variant_name_list_id: Vec<Identifier>,
    pub arg_list_id: PossibleArgListId,
}

impl View for NormalFormAdtExpression {
    type V = (Term, Seq<IdName>, Option<ArgList>);

    open spec fn view(&self) -> (Term, Seq<IdName>, Option<ArgList>) {
        (self.type_name_id@, idents_view(self.variant_name_list_id@), self.arg_list_id@)
    }
}

/// The index of the name at the head of `t`: `t` itself or the callee of
/// a call.
pub open spec fn head_index(t: Term) -> Option<nat> {
    match t {
        Term::Name { index, .. } => Some(index),
        Term::Call { callee, .. } => match *callee {
            Term::Name { index, .. } => Some(index),
            _ => None,
        },
        _ => None,
    }
}

/// The name at the head of `t`.
pub open spec fn head_name(t: Term) -> Term {
    match t {
        Term::Call { callee, .. } => *callee,
        _ => t,
    }
}

pub open spec fn head_args(t: Term) -> Option<ArgList> {
    match t {
        Term::Call { args, .. } => Some(args),
        _ => None,
    }
}

/// The context can give the definition of the variable with this index.
pub open spec fn lookup_ok(ctx: Seq<(Term, DefinitionView)>, index: nat) -> bool {
    &&& index < ctx.len()
    &&& ctx.len() - index - 1 != TYPE1_LEVEL
    &&& index + 1 <= usize::MAX
    &&& definition_fits_up(ctx[ctx.len() - index - 1].1, (index + 1) as usize, 0)
}

pub open spec fn head_lookup_ok(ctx: Seq<(Term, DefinitionView)>, t: Term) -> bool {
    head_index(t) matches Some(i) ==> lookup_ok(ctx, i)
}

/// The definition of the variable with this index, relative to the top of
/// the context.
pub open spec fn definition_at(ctx: Seq<(Term, DefinitionView)>, index: nat) -> DefinitionView {
    shift_definition_up(ctx[ctx.len() - index - 1].1, (index + 1) as usize, 0)
}

/// `t` as an ADT expression: its type name, the names of the type's
/// variants, and its arguments.
pub open spec fn as_adt(ctx: Seq<(Term, DefinitionView)>, t: Term) -> Option<(Term, Seq<IdName>, Option<ArgList>)> {
    match head_index(t) {
        Some(i) => match definition_at(ctx, i) {
            DefinitionView::Adt(names) => Some((head_name(t), names, head_args(t))),
            _ => None,
        },
        None => None,
    }
}

/// `t` as a variant expression: the variant's name and its arguments.
pub open spec fn as_variant(ctx: Seq<(Term, DefinitionView)>, t: Term) -> Option<(IdName, Option<ArgList>)> {
    match head_index(t) {
        Some(i) => match definition_at(ctx, i) {
            DefinitionView::Variant(name) => Some((name, head_args(t))),
            _ => None,
        },
        None => None,
    }
}

fn copy_name(n: &NameExpression) -> (r: NameExpression)
    ensures
        r@ == n@,
{
    NameExpression { components: copy_identifiers(&n.components), db_index: n.db_index }
}

/// The definition of the name at the head of an expression, made
/// relative to the top of the context.
fn head_definition(context: &Context, e: &Expression) -> (r: Option<ContextEntryDefinition>)
    requires
        head_lookup_ok(context@, e@),
    ensures
        match r {
            Some(d) => head_index(e@) matches Some(i) && d@ == definition_at(context@, i),
            None => head_index(e@) is None,
        },
{
    match e {
        Expression::Name(n) => {
            assert(e@ == Term::Name { components: idents_view(n.components@), index: n.db_index.0 as nat });
            assert(head_index(e@) == Some(n.db_index.0 as nat));
            let d = context.get_definition(n.db_index);
            assert(d@ == definition_at(context@, n.db_index.0 as nat));
            Some(d)
        },
        Expression::Call(c) => match &c.callee {
            Expression::Name(n) => {
                assert(c.callee@ == Term::Name { components: idents_view(n.components@), index: n.db_index.0 as nat });
                assert(e@ == Term::Call { callee: Box::new(c.callee@), args: c.args@ });
                assert(head_index(e@) == Some(n.db_index.0 as nat));
                let d = context.get_definition(n.db_index);
                assert(d@ == definition_at(context@, n.db_index.0 as nat));
                Some(d)
            },
            _ => None,
        },
        _ => None,
    }
}

/// The name and the arguments of an expression whose head is a name.
fn head_parts(e: &Expression) -> (r: (NameExpression, PossibleArgListId))
    requires
        head_index(e@) is Some,
    ensures
        r.0@ == head_name(e@),
        r.1@ == head_args(e@),
{
    match e {
        Expression::Name(n) => (copy_name(n), PossibleArgListId::Nullary),
        Expression::Call(c) => match &c.callee {
            Expression::Name(n) => {
                assert(e@ == Term::Call { callee: Box::new(c.callee@), args: c.args@ });
                (copy_name(n), PossibleArgListId::WithArgs(copy_call_arg_list(&c.args)))
            },
            _ => {
                assert(e@ == Term::Call { callee: Box::new(c.callee@), args: c.args@ });
                assert(c.callee@ !is Name);
                proof { assert(false); }
                (copy_name_of_nothing(), PossibleArgListId::Nullary)
            },
        },
        _ => {
            proof { assert(false); }
            (copy_name_of_nothing(), PossibleArgListId::Nullary)
        },
    }
}

fn copy_name_of_nothing() -> (r: NameExpression) {
    NameExpression { components: Vec::new(), db_index: DbIndex(0) }
}

/// The ADT that heads the expression, if one does.
pub fn try_as_normal_form_adt_expression(context: &Context, expression_id: &NormalFormId) -> (r: Option<NormalFormAdtExpression>)
    requires
        head_lookup_ok(context@, expression_id@),
    ensures
        match r {
            Some(a) => as_adt(context@, expression_id@) == Some(a@),
            None => as_adt(context@, expression_id@) is None,
        },
{
    let e = expression_id.raw_ref();
    match head_definition(context, e) {
        Some(ContextEntryDefinition::Adt { variant_name_list_id }) => {
            let (type_name_id, arg_list_id) = head_parts(e);
            Some(NormalFormAdtExpression { type_name_id, variant_name_list_id, arg_list_id })
        },
        _ => None,
    }
}

/// The variant that heads the expression, if one does.
pub fn try_as_variant_expression(context: &Context, expression_id: &Expression) -> (r: Option<(Identifier, PossibleArgListId)>)
    requires
        head_lookup_ok(context@, expression_id@),
    ensures
        match r {
            Some((name, args)) => as_variant(context@, expression_id@) == Some((name@, args@)),
            None => as_variant(context@, expression_id@) is None,
        },
{
    match head_definition(context, expression_id) {
        Some(ContextEntryDefinition::Variant { name_id }) => {
            let (_, arg_list_id) = head_parts(expression_id);
            Some((name_id, arg_list_id))
        },
        _ => None,
    }
}

pub fn is_variant_expression(context: &Context, expression_id: &NormalFormId) -> (r: bool)
    requires
        head_lookup_ok(context@, expression_id@),
    ensures
        r == as_variant(context@, expression_id@) is Some,
{
    try_as_variant_expression(context, expression_id.raw_ref()).is_some()
}

/// The name `Type`, referring to `Type0`.
pub fn type0_expression(context: &Context) -> (r: NormalFormId)
    requires
        context@.len() > TYPE0_LEVEL,
    ensures
        r@ == (Term::Name {
            components: seq![IdName::Reserved(ReservedIdentifierName::TypeTitleCase)],
            index: (context@.len() - 1 - TYPE0_LEVEL) as nat,
        }),
{
    let components = vec![Identifier { name: IdentifierName::Reserved(ReservedIdentifierName::TypeTitleCase) }];
    assert(idents_view(components@) =~= seq![IdName::Reserved(ReservedIdentifierName::TypeTitleCase)]);
    let name = crate::misc::add_name_expression_and_overwrite_component_ids(components, context.type0_dbi());
    NormalFormId::unchecked_new(Expression::Name(name))
}

/// Whether the term is the name `Type0` or `Type1`.
pub fn is_term_equal_to_type0_or_type1(context: &Context, term: &NormalFormId) -> (r: bool)
    requires
        context@.len() > TYPE0_LEVEL,
    ensures
        r == (term@ matches Term::Name { index, .. } && (index == context@.len() - 1 - TYPE0_LEVEL || index
            == context@.len() - 1 - TYPE1_LEVEL)),
{
    match term.raw_ref() {
        Expression::Name(n) => {
            let i = n.db_index;
            i.0 == context.type0_dbi().0 || i.0 == context.type1_dbi().0
        },
        _ => false,
    }
}

/// Whether the term is an ADT without variants.
pub fn is_term_equal_to_a_trivially_empty_type(context: &Context, term: &NormalFormId) -> (r: bool)
    requires
        head_lookup_ok(context@, term@),
    ensures
        r == (as_adt(context@, term@) matches Some(a) && a.1.len() == 0),
{
    match try_as_normal_form_adt_expression(context, term) {
        Some(adt) => adt.variant_name_list_id.len() == 0,
        None => false,
    }
}

/// The position of the first name equal to `target`.
pub open spec fn is_first_position(names: Seq<IdName>, target: IdName, p: int) -> bool {
    &&& 0 <= p < names.len()
    &&& names[p] == target
    &&& forall|j: int| 0 <= j < p ==> names[j] != target
}

/// The index of the variant with the given name of the ADT that heads an
/// expression: the variants are bound right after their type, in order.
pub fn get_db_index_for_adt_variant_of_name(
    context: &Context,
    adt_expression: &NormalFormAdtExpression,
    target_variant_name_id: &Identifier,
) -> (r: DbIndex)
    requires
        lookup_ok(context@, adt_expression.type_name_id.db_index.0 as nat),
        definition_at(context@, adt_expression.type_name_id.db_index.0 as nat) matches DefinitionView::Adt(names)
            && exists|p: int| is_first_position(names, target_variant_name_id@, p) && p < adt_expression.type_name_id.db_index.0,
    ensures
        definition_at(context@, adt_expression.type_name_id.db_index.0 as nat) matches DefinitionView::Adt(names)
            && is_first_position(names, target_variant_name_id@, adt_expression.type_name_id.db_index.0 - 1 - r.0),
{
    let type_dbi = adt_expression.type_name_id.db_index;
    let definition = context.get_definition(type_dbi);
    let variant_name_list_id = match definition {
        ContextEntryDefinition::Adt { variant_name_list_id } => variant_name_list_id,
        _ => {
            proof { assert(false); }
            Vec::new()
        },
    };
    let ghost names = idents_view(variant_name_list_id@);
    assert(definition_at(context@, type_dbi.0 as nat) == DefinitionView::Adt(names));
    let mut i: usize = 0;
    while i < variant_name_list_id.len()
        invariant
            i <= variant_name_list_id@.len(),
            type_dbi == adt_expression.type_name_id.db_index,
            definition_at(context@, type_dbi.0 as nat) == DefinitionView::Adt(names),
            names == idents_view(variant_name_list_id@),
            exists|p: int| is_first_position(names, target_variant_name_id@, p) && p < type_dbi.0,
            forall|j: int| 0 <= j < i ==> names[j] != target_variant_name_id@,
        decreases variant_name_list_id@.len() - i,
    {
        assert(names[i as int] == variant_name_list_id@[i as int]@);
        if identifier_names_equal(&variant_name_list_id[i].name, &target_variant_name_id.name) {
            proof {
                let p = choose|p: int| is_first_position(names, target_variant_name_id@, p) && p < type_dbi.0;
                assert(is_first_position(names, target_variant_name_id@, i as int));
                if p < i {
                    assert(names[p] != target_variant_name_id@);
                } else if p > i {
                    assert(names[i as int] != target_variant_name_id@);
                }
            }
            return DbIndex(type_dbi.0 - 1 - i);
        }
        i += 1;
    }
    proof {
        let p = choose|p: int| is_first_position(names, target_variant_name_id@, p) && p < type_dbi.0;
        assert(names[p] != target_variant_name_id@);
    }
    DbIndex(0)
}

}
