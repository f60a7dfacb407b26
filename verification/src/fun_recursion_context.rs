//! The context of the recursion check: what is known of each variable in
//! scope, indexed by De Bruijn level.

use vstd::prelude::*;
use crate::ast::{DbIndex, DbLevel};

verus! {

/// What a recursive function may do with its own name.
#[derive(Clone, Copy, Debug, PartialEq, Eq, Structural)]
pub enum ReferenceRestriction {
    /// It may only call itself, with a strict substructure of its decreasing
    /// parameter (at the given level) in the given argument position.
    MustCallWithSubstruct { superstruct_db_level: DbLevel, arg_position: usize },
    /// It has no decreasing parameter, so it may not call itself.
    CannotCall,
}

#[derive(Clone, Copy, Debug, PartialEq, Eq, Structural)]
pub enum ContextEntry {
    /// A variable bound by a match case on the variable at the given level.
    Substruct { superstruct_db_level: DbLevel },
    /// The name of the function whose body is being checked.
    Fun(ReferenceRestriction),
    NoInformation,
}

/// A value computed while the context was being changed, which the
/// caller must not use before the context is put back in order.
#[derive(Debug)]
pub struct Tainted<T>(T);

impl<T> Tainted<T> {
    pub fn new(value: T) -> (r: Self)
        ensures
            r.inner() == value,
    {
        Self(value)
    }

    pub closed spec fn inner(self) -> T {
        self.0
    }

    pub fn untaint(self) -> (r: T)
        ensures
            r == self.inner(),
    {
        self.0
    }
}

#[derive(Debug)]
pub struct Context {
    stack: Vec<ContextEntry>,
}

/// A substructure entry always points below itself.
pub open spec fn stack_wf(s: Seq<ContextEntry>) -> bool {
    forall|i: int|
        0 <= i < s.len() ==> ((#[trigger] s[i]) matches ContextEntry::Substruct { superstruct_db_level } ==> superstruct_db_level.0 < i)
}

/// Whether the variable at level `left` is the one at level `right`, or
/// reached from it by a chain of match cases.
pub open spec fn inclusive_substruct(s: Seq<ContextEntry>, left: int, right: int) -> bool
    decreases left,
{
    if left == right {
        true
    } else if 0 <= left < s.len() {
        match s[left] {
            ContextEntry::Substruct { superstruct_db_level } => if 0 <= superstruct_db_level.0 < left {
                inclusive_substruct(s, superstruct_db_level.0 as int, right)
            } else {
                false
            },
            _ => false,
        }
    } else {
        false
    }
}

pub open spec fn strict_substruct(s: Seq<ContextEntry>, left: int, right: int) -> bool {
    left != right && inclusive_substruct(s, left, right)
}

/// The restriction on the variable with the given index, if it names a
/// function whose body is being checked.
pub open spec fn restriction_at(s: Seq<ContextEntry>, index: nat) -> Option<ReferenceRestriction> {
    match s[s.len() - index - 1] {
        ContextEntry::Fun(r) => Some(r),
        _ => None,
    }
}

impl View for Context {
    type V = Seq<ContextEntry>;

    closed spec fn view(&self) -> Seq<ContextEntry> {
        self.stack@
    }
}

impl Context {
    /// The context of a file: `Type1` and `Type0`, of which nothing is known.
    pub fn new() -> (r: Self)
        ensures
            r@ == seq![ContextEntry::NoInformation, ContextEntry::NoInformation],
            stack_wf(r@),
    {
        let r = Self { stack: vec![ContextEntry::NoInformation, ContextEntry::NoInformation] };
        assert(r@ =~= seq![ContextEntry::NoInformation, ContextEntry::NoInformation]);
        r
    }

    pub fn len(&self) -> (r: usize)
        ensures
            r == self@.len(),
    {
        self.stack.len()
    }

    pub fn index_to_level(&self, index: DbIndex) -> (r: DbLevel)
        requires
            index.0 < self@.len(),
        ensures
            r.0 == self@.len() - index.0 - 1,
    {
        DbLevel(self.stack.len() - index.0 - 1)
    }

    /// Panics if `n > self.len()`.
    pub fn pop_n(&mut self, n: usize)
        requires
            n <= old(self)@.len(),
        ensures
            final(self)@ == old(self)@.take(old(self)@.len() - n),
    {
        let new_len = self.stack.len() - n;
        self.stack.truncate(new_len);
    }

    /// Panics if `new_len > self.len()`.
    pub fn truncate(&mut self, new_len: usize)
        requires
            new_len <= old(self)@.len(),
        ensures
            final(self)@ == old(self)@.take(new_len as int),
    {
        self.stack.truncate(new_len);
    }

    /// Never fails; the `Result` makes the caller one that returns a
    /// tainted error, whose context the caller's caller restores.
    pub fn push(&mut self, entry: ContextEntry) -> (r: Result<(), Tainted<std::convert::Infallible>>)
        ensures
            final(self)@ == old(self)@.push(entry),
            r is Ok,
    {
        self.stack.push(entry);
        Ok(())
    }

    pub fn reference_restriction(&self, index: DbIndex) -> (r: Option<ReferenceRestriction>)
        requires
            index.0 < self@.len(),
        ensures
            r == restriction_at(self@, index.0 as nat),
    {
        let level = self.index_to_level(index);
        match self.stack[level.0] {
            ContextEntry::Substruct { .. } => None,
            ContextEntry::Fun(restriction) => Some(restriction),
            ContextEntry::NoInformation => None,
        }
    }

    pub fn is_left_strict_substruct_of_right(&self, left: DbLevel, right: DbLevel) -> (r: bool)
        requires
            stack_wf(self@),
            left.0 < self@.len(),
        ensures
            r == strict_substruct(self@, left.0 as int, right.0 as int),
    {
        left.0 != right.0 && self.is_left_inclusive_substruct_of_right(left, right)
    }

    fn is_left_inclusive_substruct_of_right(&self, left: DbLevel, right: DbLevel) -> (r: bool)
        requires
            stack_wf(self@),
            left.0 < self@.len(),
        ensures
            r == inclusive_substruct(self@, left.0 as int, right.0 as int),
    {
        let mut current = left;
        loop
            invariant
                stack_wf(self@),
                current.0 < self@.len(),
                inclusive_substruct(self@, left.0 as int, right.0 as int) == inclusive_substruct(
                    self@,
                    current.0 as int,
                    right.0 as int,
                ),
            decreases current.0,
        {
            if current.0 == right.0 {
                return true;
            }
            match self.stack[current.0] {
                ContextEntry::Substruct { superstruct_db_level } => {
                    assert(self@[current.0 as int] == ContextEntry::Substruct { superstruct_db_level });
                    current = superstruct_db_level;
                },
                ContextEntry::Fun(_) => {
                    return false;
                },
                ContextEntry::NoInformation => {
                    return false;
                },
            }
        }
    }
}

}
