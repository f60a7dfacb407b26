//! A rotation of De Bruijn indices: the `len` indices at the cutoff move up
//! past the next `pivot - len` ones, which move down by `len`.

use vstd::prelude::*;
use crate::ast::{DbIndex, Expression, Term};
use crate::shift::{ShiftFn, DbIndexTooSmallForDownshiftError, shift_term, term_fits, try_shift_expression};
use crate::shift_laws::{undoes_at_or_above, lemma_shift_is_undone};

verus! {

#[derive(Clone, Copy, Debug, PartialEq, Eq, Structural)]
pub struct Bishift {
    len: usize,
    pivot: DbIndex,
}

impl Bishift {
    #[verifier::type_invariant]
    spec fn len_within_pivot(self) -> bool {
        self.len <= self.pivot.0
    }

    pub closed spec fn spec_len(self) -> nat {
        self.len as nat
    }

    pub closed spec fn spec_pivot(self) -> nat {
        self.pivot.0 as nat
    }

    pub fn new(len: usize, pivot: DbIndex) -> (r: Self)
        requires
            len <= pivot.0,
        ensures
            r == bishift_fn(len, pivot),
    {
        Bishift { len, pivot }
    }

    /// How far the moved indices go up.
    pub fn distance(self) -> (r: usize)
        ensures
            r == self.spec_pivot() - self.spec_len(),
    {
        proof { use_type_invariant(&self); }
        self.pivot.0 - self.len
    }
}

/// The rotation of `len` indices below `pivot`.
pub closed spec fn bishift_fn(len: usize, pivot: DbIndex) -> Bishift {
    Bishift { len, pivot }
}

/// The rotation of `len` indices below `pivot` has those two amounts.
pub proof fn lemma_bishift_fn(len: usize, pivot: DbIndex)
    ensures
        bishift_fn(len, pivot).spec_len() == len,
        bishift_fn(len, pivot).spec_pivot() == pivot.0,
{
}

impl ShiftFn for Bishift {
    type ShiftError = DbIndexTooSmallForDownshiftError;

    /// Indices below the cutoff and from `cutoff + pivot` on stay; the
    /// rest rotate. A rotation never fails.
    open spec fn spec_try_apply(&self, i: nat, cutoff: nat) -> Result<nat, DbIndexTooSmallForDownshiftError> {
        if i < cutoff {
            Ok(i)
        } else if i < cutoff + self.spec_len() {
            Ok((i + self.spec_pivot() - self.spec_len()) as nat)
        } else if i < cutoff + self.spec_pivot() {
            Ok((i - self.spec_len()) as nat)
        } else {
            Ok(i)
        }
    }

    fn try_apply(&self, i: DbIndex, cutoff: usize) -> (r: Result<DbIndex, DbIndexTooSmallForDownshiftError>) {
        proof { use_type_invariant(self); }
        if i.0 < cutoff {
            Ok(i)
        } else if i.0 - cutoff < self.len {
            Ok(DbIndex(i.0 + (self.pivot.0 - self.len)))
        } else if i.0 - cutoff < self.pivot.0 {
            Ok(DbIndex(i.0 - self.len))
        } else {
            Ok(i)
        }
    }
}

/// The rotation by the remaining `pivot - len` indices undoes the rotation
/// by `len` at every cutoff.
pub proof fn lemma_complement_undoes_bishift_on_indices(len: usize, pivot: DbIndex, c: nat)
    requires
        len <= pivot.0,
    ensures
        undoes_at_or_above(bishift_fn(len, pivot), bishift_fn((pivot.0 - len) as usize, pivot), c),
{
    let f = bishift_fn(len, pivot);
    let g = bishift_fn((pivot.0 - len) as usize, pivot);
    assert forall|i: nat, c2: nat| c2 >= c implies (#[trigger] f.spec_try_apply(i, c2)) is Ok && g.spec_try_apply(
        f.spec_try_apply(i, c2)->Ok_0,
        c2,
    ) == Ok::<nat, DbIndexTooSmallForDownshiftError>(i) by {
        assert(f.spec_len() == len && f.spec_pivot() == pivot.0);
        assert(g.spec_len() == pivot.0 - len && g.spec_pivot() == pivot.0);
    }
}

/// Rotating a term never fails, and rotating the result by the remaining
/// `pivot - len` indices gives back the term.
pub proof fn lemma_complement_undoes_bishift(t: Term, len: usize, pivot: DbIndex, c: nat)
    requires
        len <= pivot.0,
    ensures
        shift_term(t, bishift_fn(len, pivot), c) is Ok,
        shift_term(shift_term(t, bishift_fn(len, pivot), c)->Ok_0, bishift_fn((pivot.0 - len) as usize, pivot), c)
            == Ok::<Term, DbIndexTooSmallForDownshiftError>(t),
{
    lemma_complement_undoes_bishift_on_indices(len, pivot, c);
    lemma_shift_is_undone(t, bishift_fn(len, pivot), bishift_fn((pivot.0 - len) as usize, pivot), c);
}

/// Rotates the free indices of `e` (see `Bishift`); this never fails.
pub fn try_bishift(e: &Expression, len: usize, pivot: DbIndex) -> (r: Result<Expression, DbIndexTooSmallForDownshiftError>)
    requires
        len <= pivot.0,
        term_fits(e@, bishift_fn(len, pivot), 0),
    ensures
        r matches Ok(x) && shift_term(e@, bishift_fn(len, pivot), 0) == Ok::<Term, DbIndexTooSmallForDownshiftError>(x@),
{
    proof { lemma_complement_undoes_bishift(e@, len, pivot, 0); }
    try_shift_expression(e, Bishift::new(len, pivot), 0)
}

/// Rotates the free indices of `e` (see `Bishift`).
pub fn bishift(e: &Expression, len: usize, pivot: DbIndex) -> (r: Expression)
    requires
        len <= pivot.0,
        term_fits(e@, bishift_fn(len, pivot), 0),
    ensures
        shift_term(e@, bishift_fn(len, pivot), 0) == Ok::<Term, DbIndexTooSmallForDownshiftError>(r@),
{
    match try_bishift(e, len, pivot) {
        Ok(x) => x,
        Err(_) => vstd::pervasive::unreached(),
    }
}

}
