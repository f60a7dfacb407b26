//! The shifting interface shared by expressions and the values built from them.

use vstd::prelude::*;
use crate::ast::{Expression, Term};
use crate::shift::{
    ShiftFn, UpshiftFn, DownshiftFn, DbIndexTooSmallForDownshiftError, shift_term, term_fits,
    try_shift_expression,
};
use crate::shift_laws::lemma_downshift_undoes_upshift;

verus! {

/// A value whose free De Bruijn indices can be shifted.
pub trait ShiftDbIndices: Sized + View {
    /// What an upshift by `amount` at `cutoff` does to the value's view.
    spec fn spec_upshift(v: Self::V, amount: usize, cutoff: nat) -> Self::V;

    /// What a downshift by `amount` at `cutoff` does to the value's view.
    spec fn spec_try_downshift(v: Self::V, amount: usize, cutoff: nat) -> Result<Self::V, DbIndexTooSmallForDownshiftError>;

    /// The upshift stays within machine integers.
    spec fn upshift_fits(v: Self::V, amount: usize, cutoff: nat) -> bool;

    /// The downshift's cutoffs stay within machine integers.
    spec fn downshift_fits(v: Self::V, amount: usize, cutoff: nat) -> bool;

    fn upshift_with_cutoff(&self, amount: usize, cutoff: usize) -> (r: Self)
        requires
            Self::upshift_fits(self@, amount, cutoff as nat),
        ensures
            r@ == Self::spec_upshift(self@, amount, cutoff as nat),
    ;

    fn try_downshift_with_cutoff(&self, amount: usize, cutoff: usize) -> (r: Result<Self, DbIndexTooSmallForDownshiftError>)
        requires
            Self::downshift_fits(self@, amount, cutoff as nat),
        ensures
            match (r, Self::spec_try_downshift(self@, amount, cutoff as nat)) {
                (Ok(a), Ok(b)) => a@ == b,
                (Err(x), Err(y)) => x == y,
                _ => false,
            },
    ;

    fn upshift(&self, amount: usize) -> (r: Self)
        requires
            Self::upshift_fits(self@, amount, 0),
        ensures
            r@ == Self::spec_upshift(self@, amount, 0),
    {
        self.upshift_with_cutoff(amount, 0)
    }

    /// Panics where the downshift fails.
    fn downshift(&self, amount: usize) -> (r: Self)
        requires
            Self::downshift_fits(self@, amount, 0),
            Self::spec_try_downshift(self@, amount, 0) is Ok,
        ensures
            Self::spec_try_downshift(self@, amount, 0) == Ok::<Self::V, DbIndexTooSmallForDownshiftError>(r@),
    {
        self.downshift_with_cutoff(amount, 0)
    }

    fn try_downshift(&self, amount: usize) -> (r: Result<Self, DbIndexTooSmallForDownshiftError>)
        requires
            Self::downshift_fits(self@, amount, 0),
        ensures
            match (r, Self::spec_try_downshift(self@, amount, 0)) {
                (Ok(a), Ok(b)) => a@ == b,
                (Err(x), Err(y)) => x == y,
                _ => false,
            },
    {
        self.try_downshift_with_cutoff(amount, 0)
    }

    /// Panics where the downshift fails.
    fn downshift_with_cutoff(&self, amount: usize, cutoff: usize) -> (r: Self)
        requires
            Self::downshift_fits(self@, amount, cutoff as nat),
            Self::spec_try_downshift(self@, amount, cutoff as nat) is Ok,
        ensures
            Self::spec_try_downshift(self@, amount, cutoff as nat) == Ok::<Self::V, DbIndexTooSmallForDownshiftError>(r@),
    {
        match self.try_downshift_with_cutoff(amount, cutoff) {
            Ok(x) => x,
            Err(_) => vstd::pervasive::unreached(),
        }
    }
}

/// The upshift of a term, which never fails.
pub open spec fn upshift_term(t: Term, amount: usize, cutoff: nat) -> Term {
    shift_term(t, UpshiftFn(amount), cutoff)->Ok_0
}

impl ShiftDbIndices for Expression {
    open spec fn spec_upshift(v: Term, amount: usize, cutoff: nat) -> Term {
        upshift_term(v, amount, cutoff)
    }

    open spec fn spec_try_downshift(v: Term, amount: usize, cutoff: nat) -> Result<Term, DbIndexTooSmallForDownshiftError> {
        shift_term(v, DownshiftFn(amount), cutoff)
    }

    open spec fn upshift_fits(v: Term, amount: usize, cutoff: nat) -> bool {
        term_fits(v, UpshiftFn(amount), cutoff)
    }

    open spec fn downshift_fits(v: Term, amount: usize, cutoff: nat) -> bool {
        term_fits(v, DownshiftFn(amount), cutoff)
    }

    fn upshift_with_cutoff(&self, amount: usize, cutoff: usize) -> (r: Self) {
        proof {
            lemma_downshift_undoes_upshift(self@, amount, cutoff as nat);
        }
        match try_shift_expression(self, UpshiftFn(amount), cutoff) {
            Ok(x) => x,
            Err(_) => vstd::pervasive::unreached(),
        }
    }

    fn try_downshift_with_cutoff(&self, amount: usize, cutoff: usize) -> (r: Result<Self, DbIndexTooSmallForDownshiftError>) {
        try_shift_expression(self, DownshiftFn(amount), cutoff)
    }
}

}
