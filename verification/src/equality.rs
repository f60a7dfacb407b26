//! Structural equality of expressions, and deep copies.

use vstd::prelude::*;
use crate::ast::{
    Term, IdName, Identifier, IdentifierName, Expression, NameExpression, Call, CallArgList,
    LabeledCallArg, Param, Fun, Match, MatchCase, Forall, Check, CheckAssertion, idents_view,
    exprs_view, labeled_args_view, params_view, cases_view, assertions_view, optional_view,
    copy_identifier, copy_identifiers, copy_optional_identifier, IllegalFunRecursionError,
    IllegalFunRecursionExpression, invalid_view,
};

verus! {

pub fn identifier_names_equal(a: &IdentifierName, b: &IdentifierName) -> (r: bool)
    ensures
        r == (a@ == b@),
{
    match (a, b) {
        (IdentifierName::Standard(x), IdentifierName::Standard(y)) => x.eq(y),
        (IdentifierName::Reserved(x), IdentifierName::Reserved(y)) => *x == *y,
        _ => false,
    }
}

pub fn identifiers_equal(a: &Identifier, b: &Identifier) -> (r: bool)
    ensures
        r == (a@ == b@),
{
    identifier_names_equal(&a.name, &b.name)
}

pub fn identifier_lists_equal(a: &Vec<Identifier>, b: &Vec<Identifier>) -> (r: bool)
    ensures
        r == (idents_view(a@) == idents_view(b@)),
{
    if a.len() != b.len() {
        assert(idents_view(a@).len() != idents_view(b@).len());
        return false;
    }
    let mut i: usize = 0;
    while i < a.len()
        invariant
            i <= a.len(),
            a.len() == b.len(),
            forall|k: int| 0 <= k < i ==> idents_view(a@)[k] == idents_view(b@)[k],
        decreases a.len() - i,
    {
        if !identifiers_equal(&a[i], &b[i]) {
            assert(idents_view(a@)[i as int] != idents_view(b@)[i as int]);
            return false;
        }
        i += 1;
    }
    assert(idents_view(a@) =~= idents_view(b@));
    true
}

pub fn optional_identifiers_equal(a: &Option<Identifier>, b: &Option<Identifier>) -> (r: bool)
    ensures
        r == ((match *a { Some(x) => Some(x@), None => None::<IdName> }) == (match *b { Some(x) => Some(x@), None => None::<IdName> })),
{
    match (a, b) {
        (Some(x), Some(y)) => identifiers_equal(x, y),
        (None, None) => true,
        _ => false,
    }
}

/// Two expressions are equal when they are the same tree, with the same
/// names and the same De Bruijn indices.
pub fn expressions_equal(a: &Expression, b: &Expression) -> (r: bool)
    ensures
        r == (a@ == b@),
    decreases a,
{
    match (a, b) {
        (Expression::Name(x), Expression::Name(y)) => {
            x.db_index.0 == y.db_index.0 && identifier_lists_equal(&x.components, &y.components)
        },
        (Expression::Call(x), Expression::Call(y)) => {
            expressions_equal(&x.callee, &y.callee) && call_arg_lists_equal(&x.args, &y.args)
        },
        (Expression::Fun(x), Expression::Fun(y)) => {
            identifiers_equal(&x.name, &y.name) && params_equal(&x.params, &y.params)
                && expressions_equal(&x.return_type, &y.return_type)
                && expressions_equal(&x.body, &y.body)
                && x.skip_type_checking_body == y.skip_type_checking_body
        },
        (Expression::Match(x), Expression::Match(y)) => {
            expressions_equal(&x.matchee, &y.matchee) && cases_equal(&x.cases, &y.cases)
        },
        (Expression::Forall(x), Expression::Forall(y)) => {
            params_equal(&x.params, &y.params) && expressions_equal(&x.output, &y.output)
        },
        (Expression::Check(x), Expression::Check(y)) => {
            assertions_equal(&x.assertions, &y.assertions) && expressions_equal(&x.output, &y.output)
        },
        _ => false,
    }
}

pub fn call_arg_lists_equal(a: &CallArgList, b: &CallArgList) -> (r: bool)
    ensures
        r == (a@ == b@),
    decreases a,
{
    match (a, b) {
        (CallArgList::Unlabeled(x), CallArgList::Unlabeled(y)) => expression_lists_equal(x, y),
        (CallArgList::UniquelyLabeled(x), CallArgList::UniquelyLabeled(y)) => labeled_call_args_equal(x, y),
        _ => false,
    }
}

pub fn expression_lists_equal(a: &Vec<Expression>, b: &Vec<Expression>) -> (r: bool)
    ensures
        r == (exprs_view(a@) == exprs_view(b@)),
    decreases a,
{
    if a.len() != b.len() {
        assert(exprs_view(a@).len() != exprs_view(b@).len());
        return false;
    }
    let mut i: usize = 0;
    while i < a.len()
        invariant
            i <= a.len(),
            a.len() == b.len(),
            forall|k: int| 0 <= k < i ==> exprs_view(a@)[k] == exprs_view(b@)[k],
        decreases a.len() - i,
    {
        if !expressions_equal(&a[i], &b[i]) {
            assert(exprs_view(a@)[i as int] != exprs_view(b@)[i as int]);
            return false;
        }
        i += 1;
    }
    assert(exprs_view(a@) =~= exprs_view(b@));
    true
}

pub fn labeled_call_arg_equal(a: &LabeledCallArg, b: &LabeledCallArg) -> (r: bool)
    ensures
        r == (a@ == b@),
    decreases a,
{
    match (a, b) {
        (LabeledCallArg::Implicit { label: l1, db_index: i1 }, LabeledCallArg::Implicit { label: l2, db_index: i2 }) => {
            i1.0 == i2.0 && identifiers_equal(l1, l2)
        },
        (LabeledCallArg::Explicit { label: l1, value: v1 }, LabeledCallArg::Explicit { label: l2, value: v2 }) => {
            identifiers_equal(l1, l2) && expressions_equal(v1, v2)
        },
        _ => false,
    }
}

pub fn labeled_call_args_equal(a: &Vec<LabeledCallArg>, b: &Vec<LabeledCallArg>) -> (r: bool)
    ensures
        r == (labeled_args_view(a@) == labeled_args_view(b@)),
    decreases a,
{
    if a.len() != b.len() {
        assert(labeled_args_view(a@).len() != labeled_args_view(b@).len());
        return false;
    }
    let mut i: usize = 0;
    while i < a.len()
        invariant
            i <= a.len(),
            a.len() == b.len(),
            forall|k: int| 0 <= k < i ==> labeled_args_view(a@)[k] == labeled_args_view(b@)[k],
        decreases a.len() - i,
    {
        if !labeled_call_arg_equal(&a[i], &b[i]) {
            assert(labeled_args_view(a@)[i as int] != labeled_args_view(b@)[i as int]);
            return false;
        }
        i += 1;
    }
    assert(labeled_args_view(a@) =~= labeled_args_view(b@));
    true
}

pub fn params_equal(a: &Vec<Param>, b: &Vec<Param>) -> (r: bool)
    ensures
        r == (params_view(a@) == params_view(b@)),
    decreases a,
{
    if a.len() != b.len() {
        assert(params_view(a@).len() != params_view(b@).len());
        return false;
    }
    let mut i: usize = 0;
    while i < a.len()
        invariant
            i <= a.len(),
            a.len() == b.len(),
            forall|k: int| 0 <= k < i ==> params_view(a@)[k] == params_view(b@)[k],
        decreases a.len() - i,
    {
        let p = &a[i];
        let q = &b[i];
        let same = optional_identifiers_equal(&p.label, &q.label) && p.is_dashed == q.is_dashed
            && identifiers_equal(&p.name, &q.name) && expressions_equal(&p.type_, &q.type_);
        if !same {
            assert(params_view(a@)[i as int] != params_view(b@)[i as int]);
            return false;
        }
        i += 1;
    }
    assert(params_view(a@) =~= params_view(b@));
    true
}

pub fn cases_equal(a: &Vec<MatchCase>, b: &Vec<MatchCase>) -> (r: bool)
    ensures
        r == (cases_view(a@) == cases_view(b@)),
    decreases a,
{
    if a.len() != b.len() {
        assert(cases_view(a@).len() != cases_view(b@).len());
        return false;
    }
    let mut i: usize = 0;
    while i < a.len()
        invariant
            i <= a.len(),
            a.len() == b.len(),
            forall|k: int| 0 <= k < i ==> cases_view(a@)[k] == cases_view(b@)[k],
        decreases a.len() - i,
    {
        let p = &a[i];
        let q = &b[i];
        let same = identifiers_equal(&p.variant_name, &q.variant_name)
            && identifier_lists_equal(&p.params, &q.params) && expressions_equal(&p.output, &q.output);
        if !same {
            assert(cases_view(a@)[i as int] != cases_view(b@)[i as int]);
            return false;
        }
        i += 1;
    }
    assert(cases_view(a@) =~= cases_view(b@));
    true
}

pub fn optional_expressions_equal(a: &Option<Expression>, b: &Option<Expression>) -> (r: bool)
    ensures
        r == (optional_view(*a) == optional_view(*b)),
    decreases a,
{
    match (a, b) {
        (Some(x), Some(y)) => expressions_equal(x, y),
        (None, None) => true,
        _ => false,
    }
}

pub fn name_expressions_equal(a: &NameExpression, b: &NameExpression) -> (r: bool)
    ensures
        r == (a@ == b@),
{
    identifier_lists_equal(&a.components, &b.components) && a.db_index.0 == b.db_index.0
}

pub fn fun_recursion_errors_equal(a: &IllegalFunRecursionError, b: &IllegalFunRecursionError) -> (r: bool)
    ensures
        r == (a@ == b@),
    decreases a,
{
    match (a, b) {
        (
            IllegalFunRecursionError::RecursiveReferenceWasNotDirectCall { reference: x },
            IllegalFunRecursionError::RecursiveReferenceWasNotDirectCall { reference: y },
        ) => name_expressions_equal(x, y),
        (
            IllegalFunRecursionError::NonSubstructPassedToDecreasingParam { callee: c1, arg: a1 },
            IllegalFunRecursionError::NonSubstructPassedToDecreasingParam { callee: c2, arg: a2 },
        ) => name_expressions_equal(c1, c2) && expressions_equal(a1, a2),
        (
            IllegalFunRecursionError::RecursivelyCalledFunctionWithoutDecreasingParam { callee: x },
            IllegalFunRecursionError::RecursivelyCalledFunctionWithoutDecreasingParam { callee: y },
        ) => name_expressions_equal(x, y),
        _ => false,
    }
}

pub fn invalid_sides_equal(a: &Option<IllegalFunRecursionExpression>, b: &Option<IllegalFunRecursionExpression>) -> (r: bool)
    ensures
        r == (invalid_view(*a) == invalid_view(*b)),
    decreases a,
{
    match (a, b) {
        (Some(x), Some(y)) => expressions_equal(&x.expression, &y.expression) && fun_recursion_errors_equal(&x.error, &y.error),
        (None, None) => true,
        _ => false,
    }
}

pub fn assertions_equal(a: &Vec<CheckAssertion>, b: &Vec<CheckAssertion>) -> (r: bool)
    ensures
        r == (assertions_view(a@) == assertions_view(b@)),
    decreases a,
{
    if a.len() != b.len() {
        assert(assertions_view(a@).len() != assertions_view(b@).len());
        return false;
    }
    let mut i: usize = 0;
    while i < a.len()
        invariant
            i <= a.len(),
            a.len() == b.len(),
            forall|k: int| 0 <= k < i ==> assertions_view(a@)[k] == assertions_view(b@)[k],
        decreases a.len() - i,
    {
        let p = &a[i];
        let q = &b[i];
        let same = p.kind == q.kind && optional_expressions_equal(&p.left, &q.left)
            && optional_expressions_equal(&p.right, &q.right) && invalid_sides_equal(&p.left_invalid, &q.left_invalid)
            && invalid_sides_equal(&p.right_invalid, &q.right_invalid);
        if !same {
            assert(assertions_view(a@)[i as int] != assertions_view(b@)[i as int]);
            return false;
        }
        i += 1;
    }
    assert(assertions_view(a@) =~= assertions_view(b@));
    true
}


// ---------------------------------------------------------------------
// Deep copies
// ---------------------------------------------------------------------

pub fn copy_expression(e: &Expression) -> (r: Expression)
    ensures
        r@ == e@,
    decreases e,
{
    match e {
        Expression::Name(n) => Expression::Name(NameExpression { components: copy_identifiers(&n.components), db_index: n.db_index }),
        Expression::Call(c) => Expression::Call(Box::new(Call { callee: copy_expression(&c.callee), args: copy_call_arg_list(&c.args) })),
        Expression::Fun(f) => Expression::Fun(Box::new(Fun {
            name: copy_identifier(&f.name),
            params: copy_params(&f.params),
            return_type: copy_expression(&f.return_type),
            body: copy_expression(&f.body),
            skip_type_checking_body: f.skip_type_checking_body,
        })),
        Expression::Match(m) => Expression::Match(Box::new(Match { matchee: copy_expression(&m.matchee), cases: copy_cases(&m.cases) })),
        Expression::Forall(f) => Expression::Forall(Box::new(Forall { params: copy_params(&f.params), output: copy_expression(&f.output) })),
        Expression::Check(c) => Expression::Check(Box::new(Check { assertions: copy_assertions(&c.assertions), output: copy_expression(&c.output) })),
    }
}

pub fn copy_call_arg_list(a: &CallArgList) -> (r: CallArgList)
    ensures
        r@ == a@,
    decreases a,
{
    match a {
        CallArgList::Unlabeled(v) => CallArgList::Unlabeled(copy_expressions(v)),
        CallArgList::UniquelyLabeled(v) => CallArgList::UniquelyLabeled(copy_labeled_call_args(v)),
    }
}

pub fn copy_expressions(v: &Vec<Expression>) -> (r: Vec<Expression>)
    ensures
        exprs_view(r@) == exprs_view(v@),
    decreases v,
{
    let mut out: Vec<Expression> = Vec::new();
    let mut i: usize = 0;
    while i < v.len()
        invariant
            i <= v.len(),
            exprs_view(out@) == exprs_view(v@).take(i as int),
        decreases v.len() - i,
    {
        let x = copy_expression(&v[i]);
        let ghost before = out@;
        out.push(x);
        assert(exprs_view(out@) =~= exprs_view(before).push(x@));
        i += 1;
        assert(exprs_view(out@) =~= exprs_view(v@).take(i as int));
    }
    assert(exprs_view(v@).take(v.len() as int) =~= exprs_view(v@));
    out
}

pub fn copy_labeled_call_arg(a: &LabeledCallArg) -> (r: LabeledCallArg)
    ensures
        r@ == a@,
    decreases a,
{
    match a {
        LabeledCallArg::Implicit { label, db_index } => LabeledCallArg::Implicit { label: copy_identifier(label), db_index: *db_index },
        LabeledCallArg::Explicit { label, value } => LabeledCallArg::Explicit { label: copy_identifier(label), value: copy_expression(value) },
    }
}

pub fn copy_labeled_call_args(v: &Vec<LabeledCallArg>) -> (r: Vec<LabeledCallArg>)
    ensures
        labeled_args_view(r@) == labeled_args_view(v@),
    decreases v,
{
    let mut out: Vec<LabeledCallArg> = Vec::new();
    let mut i: usize = 0;
    while i < v.len()
        invariant
            i <= v.len(),
            labeled_args_view(out@) == labeled_args_view(v@).take(i as int),
        decreases v.len() - i,
    {
        let x = copy_labeled_call_arg(&v[i]);
        let ghost before = out@;
        out.push(x);
        assert(labeled_args_view(out@) =~= labeled_args_view(before).push(x@));
        i += 1;
        assert(labeled_args_view(out@) =~= labeled_args_view(v@).take(i as int));
    }
    assert(labeled_args_view(v@).take(v.len() as int) =~= labeled_args_view(v@));
    out
}

pub fn copy_param(p: &Param) -> (r: Param)
    ensures
        r@ == p@,
    decreases p,
{
    Param {
        label: copy_optional_identifier(&p.label),
        is_dashed: p.is_dashed,
        name: copy_identifier(&p.name),
        type_: copy_expression(&p.type_),
    }
}

pub fn copy_params(v: &Vec<Param>) -> (r: Vec<Param>)
    ensures
        params_view(r@) == params_view(v@),
    decreases v,
{
    let mut out: Vec<Param> = Vec::new();
    let mut i: usize = 0;
    while i < v.len()
        invariant
            i <= v.len(),
            params_view(out@) == params_view(v@).take(i as int),
        decreases v.len() - i,
    {
        let x = copy_param(&v[i]);
        let ghost before = out@;
        out.push(x);
        assert(params_view(out@) =~= params_view(before).push(x@));
        i += 1;
        assert(params_view(out@) =~= params_view(v@).take(i as int));
    }
    assert(params_view(v@).take(v.len() as int) =~= params_view(v@));
    out
}

pub fn copy_case(c: &MatchCase) -> (r: MatchCase)
    ensures
        r@ == c@,
    decreases c,
{
    MatchCase {
        variant_name: copy_identifier(&c.variant_name),
        params: copy_identifiers(&c.params),
        output: copy_expression(&c.output),
    }
}

pub fn copy_cases(v: &Vec<MatchCase>) -> (r: Vec<MatchCase>)
    ensures
        cases_view(r@) == cases_view(v@),
    decreases v,
{
    let mut out: Vec<MatchCase> = Vec::new();
    let mut i: usize = 0;
    while i < v.len()
        invariant
            i <= v.len(),
            cases_view(out@) == cases_view(v@).take(i as int),
        decreases v.len() - i,
    {
        let x = copy_case(&v[i]);
        let ghost before = out@;
        out.push(x);
        assert(cases_view(out@) =~= cases_view(before).push(x@));
        i += 1;
        assert(cases_view(out@) =~= cases_view(v@).take(i as int));
    }
    assert(cases_view(v@).take(v.len() as int) =~= cases_view(v@));
    out
}

pub fn copy_optional_expression(o: &Option<Expression>) -> (r: Option<Expression>)
    ensures
        optional_view(r) == optional_view(*o),
    decreases o,
{
    match o {
        Some(e) => Some(copy_expression(e)),
        None => None,
    }
}

pub fn copy_assertion(a: &CheckAssertion) -> (r: CheckAssertion)
    ensures
        r@ == a@,
    decreases a,
{
    CheckAssertion {
        kind: a.kind,
        left: copy_optional_expression(&a.left),
        right: copy_optional_expression(&a.right),
        left_invalid: copy_invalid_side(&a.left_invalid),
        right_invalid: copy_invalid_side(&a.right_invalid),
    }
}

pub fn copy_name_expression(n: &NameExpression) -> (r: NameExpression)
    ensures
        r@ == n@,
{
    NameExpression { components: copy_identifiers(&n.components), db_index: n.db_index }
}

pub fn copy_fun_recursion_error(e: &IllegalFunRecursionError) -> (r: IllegalFunRecursionError)
    ensures
        r@ == e@,
    decreases e,
{
    match e {
        IllegalFunRecursionError::RecursiveReferenceWasNotDirectCall { reference } =>
            IllegalFunRecursionError::RecursiveReferenceWasNotDirectCall { reference: copy_name_expression(reference) },
        IllegalFunRecursionError::NonSubstructPassedToDecreasingParam { callee, arg } =>
            IllegalFunRecursionError::NonSubstructPassedToDecreasingParam {
                callee: copy_name_expression(callee),
                arg: copy_expression(arg),
            },
        IllegalFunRecursionError::RecursivelyCalledFunctionWithoutDecreasingParam { callee } =>
            IllegalFunRecursionError::RecursivelyCalledFunctionWithoutDecreasingParam { callee: copy_name_expression(callee) },
    }
}

pub fn copy_invalid_side(o: &Option<IllegalFunRecursionExpression>) -> (r: Option<IllegalFunRecursionExpression>)
    ensures
        invalid_view(r) == invalid_view(*o),
    decreases o,
{
    match o {
        Some(x) => Some(IllegalFunRecursionExpression {
            expression: copy_expression(&x.expression),
            error: copy_fun_recursion_error(&x.error),
        }),
        None => None,
    }
}

pub fn copy_assertions(v: &Vec<CheckAssertion>) -> (r: Vec<CheckAssertion>)
    ensures
        assertions_view(r@) == assertions_view(v@),
    decreases v,
{
    let mut out: Vec<CheckAssertion> = Vec::new();
    let mut i: usize = 0;
    while i < v.len()
        invariant
            i <= v.len(),
            assertions_view(out@) == assertions_view(v@).take(i as int),
        decreases v.len() - i,
    {
        let x = copy_assertion(&v[i]);
        let ghost before = out@;
        out.push(x);
        assert(assertions_view(out@) =~= assertions_view(before).push(x@));
        i += 1;
        assert(assertions_view(out@) =~= assertions_view(v@).take(i as int));
    }
    assert(assertions_view(v@).take(v.len() as int) =~= assertions_view(v@));
    out
}

}
