//! The stack of substitutions that the type checker learns while it
//! descends into match cases.

use vstd::prelude::*;
use crate::ast::Term;
use crate::misc::NormalFormId;
use crate::shift::{DbIndexTooSmallForDownshiftError, shift_term, DownshiftFn, UpshiftFn, term_fits};
use crate::shift_trait::{ShiftDbIndices, upshift_term};
use crate::substitution_application::{adjusted_equations, equation_fits, shift_equation};

verus! {

/// A substitution between two normal forms that may go either way.
#[derive(Debug)]
pub struct DynamicSubstitution(pub NormalFormId, pub NormalFormId);

impl View for DynamicSubstitution {
    type V = (Term, Term);

    open spec fn view(&self) -> (Term, Term) {
        (self.0@, self.1@)
    }
}

impl ShiftDbIndices for DynamicSubstitution {
    open spec fn spec_upshift(v: (Term, Term), amount: usize, cutoff: nat) -> (Term, Term) {
        (upshift_term(v.0, amount, cutoff), upshift_term(v.1, amount, cutoff))
    }

    open spec fn spec_try_downshift(v: (Term, Term), amount: usize, cutoff: nat) -> Result<(Term, Term), DbIndexTooSmallForDownshiftError> {
        match shift_term(v.0, DownshiftFn(amount), cutoff) {
            Err(e) => Err(e),
            Ok(a) => match shift_term(v.1, DownshiftFn(amount), cutoff) {
                Err(e) => Err(e),
                Ok(b) => Ok((a, b)),
            },
        }
    }

    open spec fn upshift_fits(v: (Term, Term), amount: usize, cutoff: nat) -> bool {
        term_fits(v.0, UpshiftFn(amount), cutoff) && term_fits(v.1, UpshiftFn(amount), cutoff)
    }

    open spec fn downshift_fits(v: (Term, Term), amount: usize, cutoff: nat) -> bool {
        term_fits(v.0, DownshiftFn(amount), cutoff) && term_fits(v.1, DownshiftFn(amount), cutoff)
    }

    fn upshift_with_cutoff(&self, amount: usize, cutoff: usize) -> (r: Self) {
        DynamicSubstitution(self.0.upshift_with_cutoff(amount, cutoff), self.1.upshift_with_cutoff(amount, cutoff))
    }

    fn try_downshift_with_cutoff(&self, amount: usize, cutoff: usize) -> (r: Result<Self, DbIndexTooSmallForDownshiftError>) {
        let a = match self.0.try_downshift_with_cutoff(amount, cutoff) {
            Err(e) => { return Err(e); },
            Ok(x) => x,
        };
        let b = match self.1.try_downshift_with_cutoff(amount, cutoff) {
            Err(e) => { return Err(e); },
            Ok(x) => x,
        };
        Ok(DynamicSubstitution(a, b))
    }
}

pub open spec fn dynamic_substitutions_view(s: Seq<DynamicSubstitution>) -> Seq<(Term, Term)> {
    Seq::new(s.len(), |i: int| s[i]@)
}

/// The substitutions learned at one point, with the length the type
/// checker's context had there.
#[derive(Debug)]
pub struct SubstitutionContextEntry {
    pub context_len: usize,
    pub unadjusted_substitutions: Vec<DynamicSubstitution>,
}

impl View for SubstitutionContextEntry {
    type V = (nat, Seq<(Term, Term)>);

    open spec fn view(&self) -> (nat, Seq<(Term, Term)>) {
        (self.context_len as nat, dynamic_substitutions_view(self.unadjusted_substitutions@))
    }
}

#[derive(Debug)]
pub struct SubstitutionContext {
    stack: Vec<SubstitutionContextEntry>,
}

impl View for SubstitutionContext {
    type V = Seq<(nat, Seq<(Term, Term)>)>;

    closed spec fn view(&self) -> Seq<(nat, Seq<(Term, Term)>)> {
        Seq::new(self.stack@.len(), |i: int| self.stack@[i]@)
    }
}

impl SubstitutionContext {
    pub fn empty() -> (r: Self)
        ensures
            r@ == Seq::<(nat, Seq<(Term, Term)>)>::empty(),
    {
        let r = Self { stack: Vec::new() };
        assert(r@ =~= Seq::<(nat, Seq<(Term, Term)>)>::empty());
        r
    }

    pub fn len(&self) -> (r: usize)
        ensures
            r == self@.len(),
    {
        self.stack.len()
    }

    pub fn push(&mut self, entry: SubstitutionContextEntry)
        ensures
            final(self)@ == old(self)@.push(entry@),
    {
        let ghost e = entry@;
        self.stack.push(entry);
        assert(self@ =~= old(self)@.push(e));
    }

    /// Panics on an empty context.
    pub fn pop(&mut self)
        requires
            old(self)@.len() > 0,
        ensures
            final(self)@ == old(self)@.drop_last(),
    {
        self.stack.pop();
        assert(self@ =~= old(self)@.drop_last());
    }

    /// Panics where `new_len` exceeds the length.
    pub fn truncate(&mut self, new_len: usize)
        requires
            new_len <= old(self)@.len(),
        ensures
            final(self)@ == old(self)@.take(new_len as int),
    {
        self.stack.truncate(new_len);
        assert(self@ =~= old(self)@.take(new_len as int));
    }

    /// The equations of every entry, in order, each shifted past the
    /// variables pushed onto a context of length `len` since it was
    /// learned.
    pub fn get_adjusted_substitutions(&self, len: usize) -> (r: Vec<DynamicSubstitution>)
        requires
            adjusted_equations(len as nat, self@) is Some,
        ensures
            dynamic_substitutions_view(r@) == adjusted_equations(len as nat, self@)->Some_0,
    {
        let ghost sv = self@;
        let mut out: Vec<DynamicSubstitution> = Vec::new();
        let mut i: usize = 0;
        assert(sv.take(0) =~= Seq::<(nat, Seq<(Term, Term)>)>::empty());
        assert(dynamic_substitutions_view(out@) =~= Seq::<(Term, Term)>::empty());
        proof { lemma_adjusted_prefix(len as nat, sv, sv.len() as int); }
        assert(sv.take(sv.len() as int) =~= sv);
        while i < self.stack.len()
            invariant
                i <= self.stack@.len(),
                sv == self@,
                sv.len() == self.stack@.len(),
                adjusted_equations(len as nat, sv) is Some,
                adjusted_equations(len as nat, sv.take(i as int)) == Some(dynamic_substitutions_view(out@)),
            decreases self.stack@.len() - i,
        {
            proof { lemma_adjusted_prefix(len as nat, sv, i + 1); }
            assert(sv.take(i + 1).drop_last() =~= sv.take(i as int));
            assert(sv.take(i + 1).last() == sv[i as int]);
            assert(sv[i as int] == self.stack@[i as int]@);
            let entry = &self.stack[i];
            let amount = len - entry.context_len;
            let ghost ds = dynamic_substitutions_view(entry.unadjusted_substitutions@);
            let ghost prefix = dynamic_substitutions_view(out@);
            let mut j: usize = 0;
            while j < entry.unadjusted_substitutions.len()
                invariant
                    j <= entry.unadjusted_substitutions@.len(),
                    ds == dynamic_substitutions_view(entry.unadjusted_substitutions@),
                    amount == len - entry.context_len,
                    forall|k: int| 0 <= k < ds.len() ==> equation_fits(#[trigger] ds[k], amount as nat),
                    dynamic_substitutions_view(out@) == prefix + Seq::new(j as nat, |k: int| shift_equation(ds[k], amount as nat)),
                decreases entry.unadjusted_substitutions@.len() - j,
            {
                let d = &entry.unadjusted_substitutions[j];
                assert(d@ == ds[j as int]);
                let ghost before = out@;
                let x = d.upshift(amount);
                assert(x@ == shift_equation(ds[j as int], amount as nat));
                out.push(x);
                assert(dynamic_substitutions_view(out@) =~= dynamic_substitutions_view(before).push(x@));
                assert(dynamic_substitutions_view(out@) =~= prefix + Seq::new((j + 1) as nat, |k: int| shift_equation(ds[k], amount as nat)));
                j += 1;
            }
            assert(Seq::new(entry.unadjusted_substitutions@.len() as nat, |k: int| shift_equation(ds[k], amount as nat))
                =~= Seq::new(ds.len(), |k: int| shift_equation(ds[k], (len - sv[i as int].0) as nat)));
            i += 1;
        }
        out
    }
}

/// The equations of a prefix of the context adjust where those of the whole do.
pub proof fn lemma_adjusted_prefix(len: nat, sctx: Seq<(nat, Seq<(Term, Term)>)>, k: int)
    requires
        0 <= k <= sctx.len(),
        adjusted_equations(len, sctx) is Some,
    ensures
        adjusted_equations(len, sctx.take(k)) is Some,
    decreases sctx.len() - k,
{
    if k < sctx.len() {
        lemma_adjusted_prefix(len, sctx, k + 1);
        assert(sctx.take(k + 1).drop_last() =~= sctx.take(k));
    } else {
        assert(sctx.take(k) =~= sctx);
    }
}

}
