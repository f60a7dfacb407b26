//! Small pieces the type checker is built from: normal forms, name
//! expressions, and the check that a match covers an ADT's variants.

use vstd::prelude::*;
use crate::ast::{
    DbIndex, Term, IdName, Identifier, Expression, NameExpression, Forall, MatchCase, idents_view,
    cases_view, params_view,
};
use crate::equality::identifiers_equal;
use crate::shift::{DbIndexTooSmallForDownshiftError};
use crate::shift_trait::ShiftDbIndices;

verus! {

/// An expression that is in normal form.
#[derive(Debug)]
pub struct NormalFormId(Expression);

impl View for NormalFormId {
    type V = Term;

    closed spec fn view(&self) -> Term {
        self.0@
    }
}

impl NormalFormId {
    /// Wraps an expression that the caller knows to be in normal form.
    pub fn unchecked_new(expression: Expression) -> (r: Self)
        ensures
            r@ == expression@,
    {
        Self(expression)
    }

    pub fn raw(self) -> (r: Expression)
        ensures
            r@ == self@,
    {
        self.0
    }

    pub fn raw_ref(&self) -> (r: &Expression)
        ensures
            r@ == self@,
    {
        &self.0
    }
}

impl ShiftDbIndices for NormalFormId {
    open spec fn spec_upshift(v: Term, amount: usize, cutoff: nat) -> Term {
        Expression::spec_upshift(v, amount, cutoff)
    }

    open spec fn spec_try_downshift(v: Term, amount: usize, cutoff: nat) -> Result<Term, DbIndexTooSmallForDownshiftError> {
        Expression::spec_try_downshift(v, amount, cutoff)
    }

    open spec fn upshift_fits(v: Term, amount: usize, cutoff: nat) -> bool {
        Expression::upshift_fits(v, amount, cutoff)
    }

    open spec fn downshift_fits(v: Term, amount: usize, cutoff: nat) -> bool {
        Expression::downshift_fits(v, amount, cutoff)
    }

    fn upshift_with_cutoff(&self, amount: usize, cutoff: usize) -> (r: Self) {
        NormalFormId::unchecked_new(self.0.upshift_with_cutoff(amount, cutoff))
    }

    fn try_downshift_with_cutoff(&self, amount: usize, cutoff: usize) -> (r: Result<Self, DbIndexTooSmallForDownshiftError>) {
        match self.0.try_downshift_with_cutoff(amount, cutoff) {
            Ok(x) => Ok(NormalFormId::unchecked_new(x)),
            Err(e) => Err(e),
        }
    }
}

/// Unwrapping a result that cannot be an error.
pub trait SafeUnwrap<T>: Sized {
    spec fn spec_ok_value(self) -> Option<T>;

    /// This is guaranteed to never panic: an infallible result is `Ok`.
    /// The error type `Infallible` has no values, but Verus sees it as an
    /// opaque type and cannot match on it with no arms, so the caller
    /// states that the result is `Ok`; every value of the type meets this.
    fn safe_unwrap(self) -> (r: T)
        requires
            self.spec_ok_value() is Some,
        ensures
            self.spec_ok_value() == Some(r),
    ;
}

impl<T> SafeUnwrap<T> for Result<T, std::convert::Infallible> {
    open spec fn spec_ok_value(self) -> Option<T> {
        match self {
            Ok(x) => Some(x),
            Err(_) => None,
        }
    }

    fn safe_unwrap(self) -> (r: T) {
        match self {
            Ok(x) => x,
            Err(_) => vstd::pervasive::unreached(),
        }
    }
}

/// Builds a name expression from its components (the first and last of
/// which would give it its source span).
pub fn add_name_expression_and_overwrite_component_ids(components: Vec<Identifier>, db_index: DbIndex) -> (r: NameExpression)
    requires
        components@.len() > 0,
    ensures
        r.components@ == components@,
        r.db_index == db_index,
{
    NameExpression { components, db_index }
}

/// Builds a name expression from existing components.
pub fn add_name_expression(component_ids: Vec<Identifier>, db_index: DbIndex) -> (r: NameExpression)
    requires
        component_ids@.len() > 0,
    ensures
        r.components@ == component_ids@,
        r.db_index == db_index,
{
    NameExpression { components: component_ids, db_index }
}

impl Forall {
    /// A forall without parameters is just its output.
    pub fn collapse_if_nullary(self) -> (r: Expression)
        ensures
            r@ == if self.params@.len() == 0 {
                self.output@
            } else {
                Term::Forall { params: params_view(self.params@), output: Box::new(self.output@) }
            },
    {
        if self.params.len() == 0 {
            self.output
        } else {
            Expression::Forall(Box::new(self))
        }
    }
}

// ---------------------------------------------------------------------
// Matching a match's cases against an ADT's variants
// ---------------------------------------------------------------------

/// Why an expression or a file does not type-check.
#[derive(Debug)]
pub enum TypeCheckError {
    /// Positions in the case list.
    DuplicateMatchCase { existing_match_case_id: usize, new_match_case_id: usize },
    /// A position in the variant list.
    MissingMatchCase { variant_name_id: usize },
    /// A position in the case list.
    ExtraneousMatchCase { case_id: usize },
    /// An expression in the place of a type whose type is neither `Type0`
    /// nor `Type1`.
    IllegalTypeExpression(Expression),
    /// A callee whose type is not a forall.
    IllegalCallee(Expression),
    WrongNumberOfArguments { call_id: Expression, expected: usize, actual: usize },
    /// Labeled arguments for unlabeled parameters, or the other way round.
    CallLabelednessMismatch { call_id: Expression },
    TypeMismatch { expression_id: Expression, expected_type_id: NormalFormId, actual_type_id: NormalFormId },
}

pub enum TypeCheckErrorView {
    DuplicateMatchCase { existing: nat, new: nat },
    MissingMatchCase { variant: nat },
    ExtraneousMatchCase { case: nat },
    IllegalTypeExpression(Term),
    IllegalCallee(Term),
    WrongNumberOfArguments { call: Term, expected: nat, actual: nat },
    CallLabelednessMismatch { call: Term },
    TypeMismatch { expression: Term, expected_type: Term, actual_type: Term },
}

impl View for TypeCheckError {
    type V = TypeCheckErrorView;

    open spec fn view(&self) -> TypeCheckErrorView {
        match self {
            TypeCheckError::DuplicateMatchCase { existing_match_case_id, new_match_case_id } => TypeCheckErrorView::DuplicateMatchCase {
                existing: *existing_match_case_id as nat,
                new: *new_match_case_id as nat,
            },
            TypeCheckError::MissingMatchCase { variant_name_id } => TypeCheckErrorView::MissingMatchCase { variant: *variant_name_id as nat },
            TypeCheckError::ExtraneousMatchCase { case_id } => TypeCheckErrorView::ExtraneousMatchCase { case: *case_id as nat },
            TypeCheckError::IllegalTypeExpression(e) => TypeCheckErrorView::IllegalTypeExpression(e@),
            TypeCheckError::IllegalCallee(e) => TypeCheckErrorView::IllegalCallee(e@),
            TypeCheckError::WrongNumberOfArguments { call_id, expected, actual } => TypeCheckErrorView::WrongNumberOfArguments {
                call: call_id@,
                expected: *expected as nat,
                actual: *actual as nat,
            },
            TypeCheckError::CallLabelednessMismatch { call_id } => TypeCheckErrorView::CallLabelednessMismatch { call: call_id@ },
            TypeCheckError::TypeMismatch { expression_id, expected_type_id, actual_type_id } => TypeCheckErrorView::TypeMismatch {
                expression: expression_id@,
                expected_type: expected_type_id@,
                actual_type: actual_type_id@,
            },
        }
    }
}

pub open spec fn case_names(cases: Seq<MatchCase>) -> Seq<IdName> {
    Seq::new(cases.len(), |i: int| cases_view(cases)[i].variant_name)
}

/// No two cases name the same variant.
pub open spec fn no_duplicate_names(names: Seq<IdName>) -> bool {
    forall|i: int, j: int| 0 <= i < j < names.len() ==> names[i] != names[j]
}

pub open spec fn names_contain(names: Seq<IdName>, n: IdName) -> bool {
    exists|i: int| 0 <= i < names.len() && names[i] == n
}

/// The error that reports the first case (in order) whose variant an
/// earlier case already covers, together with the first such earlier case.
pub open spec fn is_first_duplicate(names: Seq<IdName>, existing: int, new: int) -> bool {
    &&& 0 <= existing < new < names.len()
    &&& names[existing] == names[new]
    &&& forall|i: int| 0 <= i < existing ==> names[i] != names[new]
    &&& no_duplicate_names(names.take(new))
}

pub fn verify_there_are_no_duplicate_cases(cases: &Vec<MatchCase>) -> (r: Result<(), TypeCheckError>)
    ensures
        r is Ok <==> no_duplicate_names(case_names(cases@)),
        r matches Err(e) ==> e matches TypeCheckError::DuplicateMatchCase { existing_match_case_id, new_match_case_id }
            && is_first_duplicate(case_names(cases@), existing_match_case_id as int, new_match_case_id as int),
{
    let ghost names = case_names(cases@);
    let mut j: usize = 0;
    while j < cases.len()
        invariant
            j <= cases.len(),
            names == case_names(cases@),
            no_duplicate_names(names.take(j as int)),
        decreases cases.len() - j,
    {
        let mut i: usize = 0;
        while i < j
            invariant
                i <= j < cases.len(),
                names == case_names(cases@),
                no_duplicate_names(names.take(j as int)),
                forall|k: int| 0 <= k < i ==> #[trigger] names[k] != names[j as int],
            decreases j - i,
        {
            if identifiers_equal(&cases[i].variant_name, &cases[j].variant_name) {
                assert(names[i as int] == cases@[i as int].variant_name@);
                assert(names[j as int] == cases@[j as int].variant_name@);
                assert(!no_duplicate_names(names));
                assert(forall|k: int| 0 <= k < i ==> #[trigger] names[k] != names[j as int]);
                assert(is_first_duplicate(names, i as int, j as int));
                return Err(TypeCheckError::DuplicateMatchCase { existing_match_case_id: i, new_match_case_id: j });
            }
            assert(names[i as int] == cases@[i as int].variant_name@);
            assert(names[j as int] == cases@[j as int].variant_name@);
            i += 1;
        }
        assert(no_duplicate_names(names.take(j + 1))) by {
            assert forall|a: int, b: int| 0 <= a < b < j + 1 implies #[trigger] names.take(j + 1)[a] != #[trigger] names.take(j + 1)[b] by {
                if b < j {
                    assert(names.take(j as int)[a] == names[a]);
                    assert(names.take(j as int)[b] == names[b]);
                }
            }
        }
        j += 1;
    }
    assert(names.take(cases.len() as int) =~= names);
    Ok(())
}

pub fn verify_that_every_variant_has_a_case(variant_names: &Vec<Identifier>, cases: &Vec<MatchCase>) -> (r: Result<(), TypeCheckError>)
    ensures
        r is Ok <==> forall|v: int| 0 <= v < variant_names@.len() ==> names_contain(case_names(cases@), #[trigger] idents_view(variant_names@)[v]),
        r matches Err(e) ==> e matches TypeCheckError::MissingMatchCase { variant_name_id } && {
            &&& variant_name_id < variant_names@.len()
            &&& !names_contain(case_names(cases@), idents_view(variant_names@)[variant_name_id as int])
            &&& forall|v: int| 0 <= v < variant_name_id ==> names_contain(case_names(cases@), #[trigger] idents_view(variant_names@)[v])
        },
{
    let ghost names = case_names(cases@);
    let ghost variants = idents_view(variant_names@);
    let mut v: usize = 0;
    while v < variant_names.len()
        invariant
            v <= variant_names.len(),
            names == case_names(cases@),
            variants == idents_view(variant_names@),
            forall|k: int| 0 <= k < v ==> names_contain(names, #[trigger] variants[k]),
        decreases variant_names.len() - v,
    {
        let mut found = false;
        let mut c: usize = 0;
        while c < cases.len()
            invariant
                v < variant_names.len(),
                c <= cases.len(),
                names == case_names(cases@),
                variants == idents_view(variant_names@),
                found ==> names_contain(names, variants[v as int]),
                !found ==> forall|k: int| 0 <= k < c ==> #[trigger] names[k] != variants[v as int],
            decreases cases.len() - c,
        {
            if identifiers_equal(&cases[c].variant_name, &variant_names[v]) {
                assert(names[c as int] == cases@[c as int].variant_name@);
                assert(variants[v as int] == variant_names@[v as int]@);
                assert(names[c as int] == variants[v as int]);
                found = true;
            } else {
                assert(names[c as int] == cases@[c as int].variant_name@);
                assert(variants[v as int] == variant_names@[v as int]@);
            }
            c += 1;
        }
        if !found {
            assert(!names_contain(names, variants[v as int]));
            return Err(TypeCheckError::MissingMatchCase { variant_name_id: v });
        }
        v += 1;
    }
    Ok(())
}

pub fn verify_that_every_case_has_a_variant(variant_names: &Vec<Identifier>, cases: &Vec<MatchCase>) -> (r: Result<(), TypeCheckError>)
    ensures
        r is Ok <==> forall|c: int| 0 <= c < cases@.len() ==> names_contain(idents_view(variant_names@), #[trigger] case_names(cases@)[c]),
        r matches Err(e) ==> e matches TypeCheckError::ExtraneousMatchCase { case_id } && {
            &&& case_id < cases@.len()
            &&& !names_contain(idents_view(variant_names@), case_names(cases@)[case_id as int])
            &&& forall|c: int| 0 <= c < case_id ==> names_contain(idents_view(variant_names@), #[trigger] case_names(cases@)[c])
        },
{
    let ghost names = case_names(cases@);
    let ghost variants = idents_view(variant_names@);
    let mut c: usize = 0;
    while c < cases.len()
        invariant
            c <= cases.len(),
            names == case_names(cases@),
            variants == idents_view(variant_names@),
            forall|k: int| 0 <= k < c ==> names_contain(variants, #[trigger] names[k]),
        decreases cases.len() - c,
    {
        let mut found = false;
        let mut v: usize = 0;
        while v < variant_names.len()
            invariant
                c < cases.len(),
                v <= variant_names.len(),
                names == case_names(cases@),
                variants == idents_view(variant_names@),
                found ==> names_contain(variants, names[c as int]),
                !found ==> forall|k: int| 0 <= k < v ==> #[trigger] variants[k] != names[c as int],
            decreases variant_names.len() - v,
        {
            if identifiers_equal(&variant_names[v], &cases[c].variant_name) {
                assert(names[c as int] == cases@[c as int].variant_name@);
                assert(variants[v as int] == variant_names@[v as int]@);
                assert(variants[v as int] == names[c as int]);
                found = true;
            } else {
                assert(names[c as int] == cases@[c as int].variant_name@);
                assert(variants[v as int] == variant_names@[v as int]@);
            }
            v += 1;
        }
        if !found {
            assert(!names_contain(variants, names[c as int]));
            return Err(TypeCheckError::ExtraneousMatchCase { case_id: c });
        }
        c += 1;
    }
    Ok(())
}

/// Checks, in this order, that no two cases cover the same variant, that
/// every variant has a case, and that every case names a variant.
pub fn verify_variant_to_case_bijection(variant_names: &Vec<Identifier>, cases: &Vec<MatchCase>) -> (r: Result<(), TypeCheckError>)
    ensures
        r is Ok <==> {
            &&& no_duplicate_names(case_names(cases@))
            &&& forall|v: int| 0 <= v < variant_names@.len() ==> names_contain(case_names(cases@), #[trigger] idents_view(variant_names@)[v])
            &&& forall|c: int| 0 <= c < cases@.len() ==> names_contain(idents_view(variant_names@), #[trigger] case_names(cases@)[c])
        },
        r matches Err(TypeCheckError::DuplicateMatchCase { existing_match_case_id, new_match_case_id })
            ==> is_first_duplicate(case_names(cases@), existing_match_case_id as int, new_match_case_id as int),
        r matches Err(TypeCheckError::MissingMatchCase { variant_name_id }) ==> {
            &&& no_duplicate_names(case_names(cases@))
            &&& variant_name_id < variant_names@.len()
            &&& !names_contain(case_names(cases@), idents_view(variant_names@)[variant_name_id as int])
            &&& forall|v: int| 0 <= v < variant_name_id ==> names_contain(case_names(cases@), #[trigger] idents_view(variant_names@)[v])
        },
        r matches Err(TypeCheckError::ExtraneousMatchCase { case_id }) ==> {
            &&& no_duplicate_names(case_names(cases@))
            &&& forall|v: int| 0 <= v < variant_names@.len() ==> names_contain(case_names(cases@), #[trigger] idents_view(variant_names@)[v])
            &&& case_id < cases@.len()
            &&& !names_contain(idents_view(variant_names@), case_names(cases@)[case_id as int])
            &&& forall|c: int| 0 <= c < case_id ==> names_contain(idents_view(variant_names@), #[trigger] case_names(cases@)[c])
        },
{
    match verify_there_are_no_duplicate_cases(cases) {
        Err(e) => { return Err(e); },
        Ok(()) => {},
    }
    match verify_that_every_variant_has_a_case(variant_names, cases) {
        Err(e) => { return Err(e); },
        Ok(()) => {},
    }
    verify_that_every_case_has_a_variant(variant_names, cases)
}

}
