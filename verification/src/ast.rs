//! The expression language that the later passes work on, and its
//! mathematical model.
//!
//! Every executable node type has a view into the spec-level `Term`
//! model: names carry De Bruijn indices as `nat`s, lists become `Seq`s,
//! and identifiers become their textual names.

use vstd::prelude::*;

verus! {

/// A De Bruijn index: `0` refers to the innermost binder.
#[derive(Clone, Copy, Debug, PartialEq, Eq, Structural)]
pub struct DbIndex(pub usize);

/// A De Bruijn level: `0` refers to the outermost binder.
#[derive(Clone, Copy, Debug, PartialEq, Eq, Structural)]
pub struct DbLevel(pub usize);

#[derive(Clone, Copy, Debug, PartialEq, Eq, Structural)]
pub enum ReservedIdentifierName {
    TypeTitleCase,
    Underscore,
}

#[derive(Debug)]
pub enum IdentifierName {
    Standard(String),
    Reserved(ReservedIdentifierName),
}

#[derive(Debug)]
pub struct Identifier {
    pub name: IdentifierName,
}

#[derive(Debug)]
pub struct NameExpression {
    pub components: Vec<Identifier>,
    pub db_index: DbIndex,
}

#[derive(Debug)]
pub enum Expression {
    Name(NameExpression),
    Call(Box<Call>),
    Fun(Box<Fun>),
    Match(Box<Match>),
    Forall(Box<Forall>),
    Check(Box<Check>),
}

#[derive(Debug)]
pub struct Call {
    pub callee: Expression,
    pub args: CallArgList,
}

#[derive(Debug)]
pub enum CallArgList {
    Unlabeled(Vec<Expression>),
    UniquelyLabeled(Vec<LabeledCallArg>),
}

/// An implicit labeled argument `:x` stands for the variable `x` in scope;
/// an explicit one `x: value` carries its value.
#[derive(Debug)]
pub enum LabeledCallArg {
    Implicit { label: Identifier, db_index: DbIndex },
    Explicit { label: Identifier, value: Expression },
}

#[derive(Debug)]
pub struct Param {
    pub label: Option<Identifier>,
    pub is_dashed: bool,
    pub name: Identifier,
    pub type_: Expression,
}

#[derive(Debug)]
pub struct Fun {
    pub name: Identifier,
    pub params: Vec<Param>,
    pub return_type: Expression,
    pub body: Expression,
    pub skip_type_checking_body: bool,
}

#[derive(Debug)]
pub struct Match {
    pub matchee: Expression,
    pub cases: Vec<MatchCase>,
}

#[derive(Debug)]
pub struct MatchCase {
    pub variant_name: Identifier,
    pub params: Vec<Identifier>,
    pub output: Expression,
}

#[derive(Debug)]
pub struct Forall {
    pub params: Vec<Param>,
    pub output: Expression,
}

#[derive(Debug)]
pub struct Check {
    pub assertions: Vec<CheckAssertion>,
    pub output: Expression,
}

#[derive(Clone, Copy, Debug, PartialEq, Eq, Structural)]
pub enum CheckAssertionKind {
    Type,
    NormalForm,
}

/// A side of a check assertion is an expression, or is marked invalid, or
/// is absent. An absent left side is the `goal` keyword and an absent right
/// side is `?`. A side marked invalid has no expression (`left` or `right`
/// is `None`) and keeps, in `left_invalid` or `right_invalid`, the
/// expression it had and the illegal recursion found in it; the passes
/// over expressions leave such a side as it is.
#[derive(Debug)]
pub struct CheckAssertion {
    pub kind: CheckAssertionKind,
    pub left: Option<Expression>,
    pub right: Option<Expression>,
    pub left_invalid: Option<IllegalFunRecursionExpression>,
    pub right_invalid: Option<IllegalFunRecursionExpression>,
}

/// Why a function's recursion is illegal.
#[derive(Debug)]
pub enum IllegalFunRecursionError {
    /// A function whose body is being checked was named other than as
    /// the callee of a call.
    RecursiveReferenceWasNotDirectCall { reference: NameExpression },
    /// A recursive call passed something other than a strict substructure
    /// of the decreasing parameter in the decreasing parameter's position.
    NonSubstructPassedToDecreasingParam { callee: NameExpression, arg: Expression },
    /// A function without a decreasing parameter called itself.
    RecursivelyCalledFunctionWithoutDecreasingParam { callee: NameExpression },
}

/// An assertion side in which illegal recursion was found: the side's
/// expression as it was, and the first illegal recursion in it.
#[derive(Debug)]
pub struct IllegalFunRecursionExpression {
    pub expression: Expression,
    pub error: IllegalFunRecursionError,
}

// ---------------------------------------------------------------------
// The model
// ---------------------------------------------------------------------

pub enum IdName {
    Standard(Seq<char>),
    Reserved(ReservedIdentifierName),
}

pub enum Term {
    Name { components: Seq<IdName>, index: nat },
    Call { callee: Box<Term>, args: ArgList },
    Fun {
        name: IdName,
        params: Seq<ParamTerm>,
        return_type: Box<Term>,
        body: Box<Term>,
        skip_type_checking_body: bool,
    },
    Match { matchee: Box<Term>, cases: Seq<CaseTerm> },
    Forall { params: Seq<ParamTerm>, output: Box<Term> },
    Check { assertions: Seq<AssertionTerm>, output: Box<Term> },
}

pub enum ArgList {
    Unlabeled(Seq<Term>),
    Labeled(Seq<LabeledArg>),
}

pub enum LabeledArg {
    Implicit { label: IdName, index: nat },
    Explicit { label: IdName, value: Term },
}

pub struct ParamTerm {
    pub label: Option<IdName>,
    pub is_dashed: bool,
    pub name: IdName,
    pub type_: Term,
}

pub struct CaseTerm {
    pub variant_name: IdName,
    pub params: Seq<IdName>,
    pub output: Term,
}

pub struct AssertionTerm {
    pub kind: CheckAssertionKind,
    pub left: Option<Term>,
    pub right: Option<Term>,
    pub left_invalid: Option<(Term, FunRecursionErrorView)>,
    pub right_invalid: Option<(Term, FunRecursionErrorView)>,
}

pub enum FunRecursionErrorView {
    RecursiveReferenceWasNotDirectCall { reference: Term },
    NonSubstructPassedToDecreasingParam { callee: Term, arg: Term },
    RecursivelyCalledFunctionWithoutDecreasingParam { callee: Term },
}

pub open spec fn name_view(n: IdentifierName) -> IdName {
    match n {
        IdentifierName::Standard(s) => IdName::Standard(s@),
        IdentifierName::Reserved(r) => IdName::Reserved(r),
    }
}

pub open spec fn ident_view(i: Identifier) -> IdName {
    name_view(i.name)
}

pub open spec fn idents_view(s: Seq<Identifier>) -> Seq<IdName> {
    Seq::new(s.len(), |i: int| ident_view(s[i]))
}

pub open spec fn dummy_term() -> Term {
    Term::Name { components: seq![], index: 0 }
}

pub open spec fn expr_view(e: Expression) -> Term
    decreases e,
{
    match e {
        Expression::Name(n) => Term::Name {
            components: idents_view(n.components@),
            index: n.db_index.0 as nat,
        },
        Expression::Call(c) => Term::Call {
            callee: Box::new(expr_view(c.callee)),
            args: arg_list_view(c.args),
        },
        Expression::Fun(f) => Term::Fun {
            name: ident_view(f.name),
            params: params_view(f.params@),
            return_type: Box::new(expr_view(f.return_type)),
            body: Box::new(expr_view(f.body)),
            skip_type_checking_body: f.skip_type_checking_body,
        },
        Expression::Match(m) => Term::Match {
            matchee: Box::new(expr_view(m.matchee)),
            cases: cases_view(m.cases@),
        },
        Expression::Forall(f) => Term::Forall {
            params: params_view(f.params@),
            output: Box::new(expr_view(f.output)),
        },
        Expression::Check(c) => Term::Check {
            assertions: assertions_view(c.assertions@),
            output: Box::new(expr_view(c.output)),
        },
    }
}

pub open spec fn arg_list_view(a: CallArgList) -> ArgList
    decreases a,
{
    match a {
        CallArgList::Unlabeled(v) => ArgList::Unlabeled(exprs_view(v@)),
        CallArgList::UniquelyLabeled(v) => ArgList::Labeled(labeled_args_view(v@)),
    }
}

pub open spec fn exprs_view(s: Seq<Expression>) -> Seq<Term>
    decreases s,
{
    Seq::new(s.len(), |i: int| if 0 <= i < s.len() { expr_view(s[i]) } else { dummy_term() })
}

pub open spec fn labeled_arg_view(a: LabeledCallArg) -> LabeledArg
    decreases a,
{
    match a {
        LabeledCallArg::Implicit { label, db_index } => LabeledArg::Implicit {
            label: ident_view(label),
            index: db_index.0 as nat,
        },
        LabeledCallArg::Explicit { label, value } => LabeledArg::Explicit {
            label: ident_view(label),
            value: expr_view(value),
        },
    }
}

pub open spec fn labeled_args_view(s: Seq<LabeledCallArg>) -> Seq<LabeledArg>
    decreases s,
{
    Seq::new(
        s.len(),
        |i: int|
            if 0 <= i < s.len() {
                labeled_arg_view(s[i])
            } else {
                LabeledArg::Implicit { label: IdName::Standard(seq![]), index: 0 }
            },
    )
}

pub open spec fn param_view(p: Param) -> ParamTerm
    decreases p,
{
    ParamTerm {
        label: match p.label {
            Some(l) => Some(ident_view(l)),
            None => None,
        },
        is_dashed: p.is_dashed,
        name: ident_view(p.name),
        type_: expr_view(p.type_),
    }
}

pub open spec fn params_view(s: Seq<Param>) -> Seq<ParamTerm>
    decreases s,
{
    Seq::new(
        s.len(),
        |i: int|
            if 0 <= i < s.len() {
                param_view(s[i])
            } else {
                ParamTerm { label: None, is_dashed: false, name: IdName::Standard(seq![]), type_: dummy_term() }
            },
    )
}

pub open spec fn case_view(c: MatchCase) -> CaseTerm
    decreases c,
{
    CaseTerm {
        variant_name: ident_view(c.variant_name),
        params: idents_view(c.params@),
        output: expr_view(c.output),
    }
}

pub open spec fn cases_view(s: Seq<MatchCase>) -> Seq<CaseTerm>
    decreases s,
{
    Seq::new(
        s.len(),
        |i: int|
            if 0 <= i < s.len() {
                case_view(s[i])
            } else {
                CaseTerm { variant_name: IdName::Standard(seq![]), params: seq![], output: dummy_term() }
            },
    )
}

pub open spec fn optional_view(o: Option<Expression>) -> Option<Term>
    decreases o,
{
    match o {
        Some(e) => Some(expr_view(e)),
        None => None,
    }
}

pub open spec fn name_expr_view(n: NameExpression) -> Term {
    Term::Name { components: idents_view(n.components@), index: n.db_index.0 as nat }
}

pub open spec fn fun_recursion_error_view(e: IllegalFunRecursionError) -> FunRecursionErrorView
    decreases e,
{
    match e {
        IllegalFunRecursionError::RecursiveReferenceWasNotDirectCall { reference } =>
            FunRecursionErrorView::RecursiveReferenceWasNotDirectCall { reference: name_expr_view(reference) },
        IllegalFunRecursionError::NonSubstructPassedToDecreasingParam { callee, arg } =>
            FunRecursionErrorView::NonSubstructPassedToDecreasingParam { callee: name_expr_view(callee), arg: expr_view(arg) },
        IllegalFunRecursionError::RecursivelyCalledFunctionWithoutDecreasingParam { callee } =>
            FunRecursionErrorView::RecursivelyCalledFunctionWithoutDecreasingParam { callee: name_expr_view(callee) },
    }
}

pub open spec fn invalid_view(o: Option<IllegalFunRecursionExpression>) -> Option<(Term, FunRecursionErrorView)>
    decreases o,
{
    match o {
        Some(x) => Some((expr_view(x.expression), fun_recursion_error_view(x.error))),
        None => None,
    }
}

pub open spec fn assertion_view(a: CheckAssertion) -> AssertionTerm
    decreases a,
{
    AssertionTerm {
        kind: a.kind,
        left: optional_view(a.left),
        right: optional_view(a.right),
        left_invalid: invalid_view(a.left_invalid),
        right_invalid: invalid_view(a.right_invalid),
    }
}

pub open spec fn assertions_view(s: Seq<CheckAssertion>) -> Seq<AssertionTerm>
    decreases s,
{
    Seq::new(
        s.len(),
        |i: int|
            if 0 <= i < s.len() {
                assertion_view(s[i])
            } else {
                AssertionTerm { kind: CheckAssertionKind::Type, left: None, right: None, left_invalid: None, right_invalid: None }
            },
    )
}

impl View for IdentifierName {
    type V = IdName;

    open spec fn view(&self) -> IdName {
        name_view(*self)
    }
}

impl View for Identifier {
    type V = IdName;

    open spec fn view(&self) -> IdName {
        ident_view(*self)
    }
}

impl View for Expression {
    type V = Term;

    open spec fn view(&self) -> Term {
        expr_view(*self)
    }
}

impl View for NameExpression {
    type V = Term;

    open spec fn view(&self) -> Term {
        name_expr_view(*self)
    }
}

impl View for IllegalFunRecursionError {
    type V = FunRecursionErrorView;

    open spec fn view(&self) -> FunRecursionErrorView {
        fun_recursion_error_view(*self)
    }
}

impl View for IllegalFunRecursionExpression {
    type V = (Term, FunRecursionErrorView);

    open spec fn view(&self) -> (Term, FunRecursionErrorView) {
        (expr_view(self.expression), fun_recursion_error_view(self.error))
    }
}

impl View for CallArgList {
    type V = ArgList;

    open spec fn view(&self) -> ArgList {
        arg_list_view(*self)
    }
}

impl View for LabeledCallArg {
    type V = LabeledArg;

    open spec fn view(&self) -> LabeledArg {
        labeled_arg_view(*self)
    }
}

impl View for Param {
    type V = ParamTerm;

    open spec fn view(&self) -> ParamTerm {
        param_view(*self)
    }
}

impl View for MatchCase {
    type V = CaseTerm;

    open spec fn view(&self) -> CaseTerm {
        case_view(*self)
    }
}

impl View for CheckAssertion {
    type V = AssertionTerm;

    open spec fn view(&self) -> AssertionTerm {
        assertion_view(*self)
    }
}


// ---------------------------------------------------------------------
// Copying
// ---------------------------------------------------------------------

pub fn copy_identifier_name(n: &IdentifierName) -> (r: IdentifierName)
    ensures
        r == *n,
{
    match n {
        IdentifierName::Standard(s) => IdentifierName::Standard(s.clone()),
        IdentifierName::Reserved(r) => IdentifierName::Reserved(*r),
    }
}

pub fn copy_identifier(i: &Identifier) -> (r: Identifier)
    ensures
        r == *i,
{
    Identifier { name: copy_identifier_name(&i.name) }
}

pub fn copy_identifiers(v: &Vec<Identifier>) -> (r: Vec<Identifier>)
    ensures
        r@ == v@,
{
    let mut out: Vec<Identifier> = Vec::new();
    let mut i: usize = 0;
    while i < v.len()
        invariant
            i <= v.len(),
            out@ == v@.take(i as int),
        decreases v.len() - i,
    {
        out.push(copy_identifier(&v[i]));
        i += 1;
        assert(out@ =~= v@.take(i as int));
    }
    assert(v@.take(v.len() as int) =~= v@);
    out
}

pub fn copy_optional_identifier(o: &Option<Identifier>) -> (r: Option<Identifier>)
    ensures
        r == *o,
{
    match o {
        Some(i) => Some(copy_identifier(i)),
        None => None,
    }
}

}
