//! The type checker's context: the types and definitions of the variables
//! in scope, each stored relative to its own position in the stack.

use vstd::prelude::*;
use crate::ast::{
    DbIndex, DbLevel, Term, IdName, Identifier, IdentifierName, Expression, NameExpression,
    idents_view, copy_identifier, copy_identifiers,
};
use crate::misc::NormalFormId;
use crate::shift::{DbIndexTooSmallForDownshiftError, shift_term, DownshiftFn, UpshiftFn, term_fits};
use crate::shift_trait::{ShiftDbIndices, upshift_term};

verus! {

pub enum DefinitionView {
    Alias(Term),
    Adt(Seq<IdName>),
    Variant(IdName),
    Uninterpreted,
}

#[derive(Debug)]
pub enum ContextEntryDefinition {
    Alias { value_id: NormalFormId },
    /// Algebraic data type, with its variants' names.
    Adt { variant_name_list_id: Vec<Identifier> },
    Variant { name_id: Identifier },
    Uninterpreted,
}

impl View for ContextEntryDefinition {
    type V = DefinitionView;

    open spec fn view(&self) -> DefinitionView {
        match self {
            ContextEntryDefinition::Alias { value_id } => DefinitionView::Alias(value_id@),
            ContextEntryDefinition::Adt { variant_name_list_id } => DefinitionView::Adt(idents_view(variant_name_list_id@)),
            ContextEntryDefinition::Variant { name_id } => DefinitionView::Variant(name_id@),
            ContextEntryDefinition::Uninterpreted => DefinitionView::Uninterpreted,
        }
    }
}

/// Only an alias holds an expression; shifting leaves the rest alone.
pub open spec fn shift_definition_up(d: DefinitionView, amount: usize, cutoff: nat) -> DefinitionView {
    match d {
        DefinitionView::Alias(t) => DefinitionView::Alias(upshift_term(t, amount, cutoff)),
        _ => d,
    }
}

pub open spec fn try_downshift_definition(d: DefinitionView, amount: usize, cutoff: nat) -> Result<DefinitionView, DbIndexTooSmallForDownshiftError> {
    match d {
        DefinitionView::Alias(t) => match shift_term(t, DownshiftFn(amount), cutoff) {
            Err(e) => Err(e),
            Ok(t2) => Ok(DefinitionView::Alias(t2)),
        },
        _ => Ok(d),
    }
}

pub open spec fn definition_fits_up(d: DefinitionView, amount: usize, cutoff: nat) -> bool {
    match d {
        DefinitionView::Alias(t) => term_fits(t, UpshiftFn(amount), cutoff),
        _ => true,
    }
}

pub open spec fn definition_fits_down(d: DefinitionView, amount: usize, cutoff: nat) -> bool {
    match d {
        DefinitionView::Alias(t) => term_fits(t, DownshiftFn(amount), cutoff),
        _ => true,
    }
}

impl ContextEntryDefinition {
    /// Shifts the free indices of an alias's value up; other definitions
    /// hold no expression and come back as they are.
    pub fn upshift_with_cutoff(&self, amount: usize, cutoff: usize) -> (r: Self)
        requires
            definition_fits_up(self@, amount, cutoff as nat),
        ensures
            r@ == shift_definition_up(self@, amount, cutoff as nat),
    {
        match self {
            ContextEntryDefinition::Alias { value_id } => ContextEntryDefinition::Alias { value_id: value_id.upshift_with_cutoff(amount, cutoff) },
            ContextEntryDefinition::Adt { variant_name_list_id } => ContextEntryDefinition::Adt { variant_name_list_id: copy_identifiers(variant_name_list_id) },
            ContextEntryDefinition::Variant { name_id } => ContextEntryDefinition::Variant { name_id: copy_identifier(name_id) },
            ContextEntryDefinition::Uninterpreted => ContextEntryDefinition::Uninterpreted,
        }
    }

    pub fn upshift(&self, amount: usize) -> (r: Self)
        requires
            definition_fits_up(self@, amount, 0),
        ensures
            r@ == shift_definition_up(self@, amount, 0),
    {
        self.upshift_with_cutoff(amount, 0)
    }

    /// Shifts the free indices of an alias's value down, failing where one
    /// of them is too small.
    pub fn try_downshift_with_cutoff(&self, amount: usize, cutoff: usize) -> (r: Result<Self, DbIndexTooSmallForDownshiftError>)
        requires
            definition_fits_down(self@, amount, cutoff as nat),
        ensures
            match (r, try_downshift_definition(self@, amount, cutoff as nat)) {
                (Ok(a), Ok(b)) => a@ == b,
                (Err(x), Err(y)) => x == y,
                _ => false,
            },
    {
        match self {
            ContextEntryDefinition::Alias { value_id } => match value_id.try_downshift_with_cutoff(amount, cutoff) {
                Err(e) => Err(e),
                Ok(v) => Ok(ContextEntryDefinition::Alias { value_id: v }),
            },
            ContextEntryDefinition::Adt { variant_name_list_id } => Ok(ContextEntryDefinition::Adt { variant_name_list_id: copy_identifiers(variant_name_list_id) }),
            ContextEntryDefinition::Variant { name_id } => Ok(ContextEntryDefinition::Variant { name_id: copy_identifier(name_id) }),
            ContextEntryDefinition::Uninterpreted => Ok(ContextEntryDefinition::Uninterpreted),
        }
    }

    pub fn try_downshift(&self, amount: usize) -> (r: Result<Self, DbIndexTooSmallForDownshiftError>)
        requires
            definition_fits_down(self@, amount, 0),
        ensures
            match (r, try_downshift_definition(self@, amount, 0)) {
                (Ok(a), Ok(b)) => a@ == b,
                (Err(x), Err(y)) => x == y,
                _ => false,
            },
    {
        self.try_downshift_with_cutoff(amount, 0)
    }
}

#[derive(Debug)]
pub struct ContextEntry {
    pub type_id: NormalFormId,
    pub definition: ContextEntryDefinition,
}

impl View for ContextEntry {
    type V = (Term, DefinitionView);

    open spec fn view(&self) -> (Term, DefinitionView) {
        (self.type_id@, self.definition@)
    }
}

/// Each entry's type and definition are expressed relative to the entry's
/// own position: an index `i` in the entry at level `l` refers to the
/// variable at level `l - 1 - i`.
#[derive(Debug)]
pub struct Context {
    local_type_stack: Vec<ContextEntry>,
}

impl View for Context {
    type V = Seq<(Term, DefinitionView)>;

    closed spec fn view(&self) -> Seq<(Term, DefinitionView)> {
        Seq::new(self.local_type_stack@.len(), |i: int| self.local_type_stack@[i]@)
    }
}

/// The level of `Type1`.
pub const TYPE1_LEVEL: usize = 0;

/// The level of `Type0`.
pub const TYPE0_LEVEL: usize = 1;

/// A name with one standard component.
pub open spec fn builtin_name_term(name: Seq<char>) -> Term {
    Term::Name { components: seq![IdName::Standard(name)], index: 0 }
}

fn builtin_name(name: &str) -> (r: NormalFormId)
    ensures
        r@ == builtin_name_term(name@),
{
    let components = vec![Identifier { name: IdentifierName::Standard(String::from_str(name)) }];
    let e = Expression::Name(NameExpression { components, db_index: DbIndex(0) });
    assert(e@ == builtin_name_term(name@)) by {
        assert(idents_view(components@) =~= seq![IdName::Standard(name@)]);
    }
    NormalFormId::unchecked_new(e)
}

impl Context {
    /// The context of a file: `Type1`, which has no type, and `Type0`, whose
    /// type is `Type1`.
    pub fn with_builtins() -> (r: Self)
        ensures
            r@.len() == 2,
            r@[0] == (builtin_name_term("Type2"@), DefinitionView::Uninterpreted),
            r@[1] == (builtin_name_term("Type1"@), DefinitionView::Uninterpreted),
    {
        let type1_entry = ContextEntry { type_id: builtin_name("Type2"), definition: ContextEntryDefinition::Uninterpreted };
        let type0_entry = ContextEntry { type_id: builtin_name("Type1"), definition: ContextEntryDefinition::Uninterpreted };
        let mut stack: Vec<ContextEntry> = Vec::new();
        stack.push(type1_entry);
        stack.push(type0_entry);
        Self { local_type_stack: stack }
    }

    /// Panics if `n > self.len()`.
    pub fn pop_n(&mut self, n: usize)
        requires
            n <= old(self)@.len(),
        ensures
            final(self)@ == old(self)@.take(old(self)@.len() - n),
    {
        let new_len = self.local_type_stack.len() - n;
        self.local_type_stack.truncate(new_len);
        assert(self@ =~= old(self)@.take(old(self)@.len() - n));
    }

    pub fn push(&mut self, entry: ContextEntry)
        ensures
            final(self)@ == old(self)@.push(entry@),
    {
        let ghost e = entry@;
        self.local_type_stack.push(entry);
        assert(self@ =~= old(self)@.push(e));
    }

    pub fn len(&self) -> (r: usize)
        ensures
            r == self@.len(),
    {
        self.local_type_stack.len()
    }

    /// The De Bruijn index of `Type0`.
    pub fn type0_dbi(&self) -> (r: DbIndex)
        requires
            self@.len() > TYPE0_LEVEL,
        ensures
            r.0 == self@.len() - 1 - TYPE0_LEVEL,
    {
        self.level_to_index(DbLevel(TYPE0_LEVEL))
    }

    /// The De Bruijn index of `Type1`.
    pub fn type1_dbi(&self) -> (r: DbIndex)
        requires
            self@.len() > TYPE1_LEVEL,
        ensures
            r.0 == self@.len() - 1 - TYPE1_LEVEL,
    {
        self.level_to_index(DbLevel(TYPE1_LEVEL))
    }

    pub fn level_to_index(&self, level: DbLevel) -> (r: DbIndex)
        requires
            level.0 < self@.len(),
        ensures
            r.0 == self@.len() - level.0 - 1,
    {
        DbIndex(self.local_type_stack.len() - level.0 - 1)
    }

    pub fn index_to_level(&self, index: DbIndex) -> (r: DbLevel)
        requires
            index.0 < self@.len(),
        ensures
            r.0 == self@.len() - index.0 - 1,
    {
        DbLevel(self.local_type_stack.len() - index.0 - 1)
    }

    /// The type of the variable with the given index, expressed relative to
    /// the top of the stack. `Type1` has no type.
    pub fn get_type(&self, index: DbIndex) -> (r: NormalFormId)
        requires
            index.0 < self@.len(),
            self@.len() - index.0 - 1 != TYPE1_LEVEL,
            index.0 + 1 <= usize::MAX,
            term_fits(self@[self@.len() - index.0 - 1].0, UpshiftFn((index.0 + 1) as usize), 0),
        ensures
            r@ == upshift_term(self@[self@.len() - index.0 - 1].0, (index.0 + 1) as usize, 0),
    {
        let level = self.index_to_level(index);
        assert(self.local_type_stack@[level.0 as int]@ == self@[level.0 as int]);
        self.local_type_stack[level.0].type_id.upshift(index.0 + 1)
    }

    /// The definition of the variable with the given index, expressed
    /// relative to the top of the stack. `Type1` has no definition.
    pub fn get_definition(&self, index: DbIndex) -> (r: ContextEntryDefinition)
        requires
            index.0 < self@.len(),
            self@.len() - index.0 - 1 != TYPE1_LEVEL,
            index.0 + 1 <= usize::MAX,
            definition_fits_up(self@[self@.len() - index.0 - 1].1, (index.0 + 1) as usize, 0),
        ensures
            r@ == shift_definition_up(self@[self@.len() - index.0 - 1].1, (index.0 + 1) as usize, 0),
    {
        let level = self.index_to_level(index);
        assert(self.local_type_stack@[level.0 as int]@ == self@[level.0 as int]);
        self.local_type_stack[level.0].definition.upshift(index.0 + 1)
    }
}

}
