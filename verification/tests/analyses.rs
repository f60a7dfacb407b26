use pamc::ast::{
    Call, CallArgList, Check, CheckAssertion, CheckAssertionKind, DbIndex, Expression, Forall, Fun,
    Identifier, IdentifierName, LabeledCallArg, Match, MatchCase, NameExpression, Param,
};
use pamc::call_arg_order::{LabeledCallArgError, correct_uniquely_labeled_call_arg_order, verify_there_are_no_extraneous_args};
use pamc::equality::{copy_expression, expressions_equal};
use pamc::file::{File, FileItem, LetStatement, TypeStatement};
use pamc::min_db_index::{MinDbIndex, min_db_index_in_expression_relative_to_cutoff, min_free_db_index_in_expression, min_or_first};
use pamc::misc::{TypeCheckError, add_name_expression, verify_variant_to_case_bijection};
use pamc::subterm::is_left_inclusive_subterm_of_right;
use pamc::type_positivity::{
    TypePositivityError, get_param_type_ids, get_possibly_empty_param_type_ids,
    verify_that_target_does_not_appear_in_expression,
};
use pamc::type_positivity_file::validate_type_positivity_in_file;

fn ident(s: &str) -> Identifier {
    Identifier { name: IdentifierName::Standard(s.to_string()) }
}

fn name(s: &str, i: usize) -> Expression {
    Expression::Name(NameExpression { components: vec![ident(s)], db_index: DbIndex(i) })
}

fn call(callee: Expression, args: Vec<Expression>) -> Expression {
    Expression::Call(Box::new(Call { callee, args: CallArgList::Unlabeled(args) }))
}

fn param(s: &str, type_: Expression) -> Param {
    Param { label: None, is_dashed: false, name: ident(s), type_ }
}

fn labeled_param(label: &str, s: &str) -> Param {
    Param { label: Some(ident(label)), is_dashed: false, name: ident(s), type_: name("T", 0) }
}

fn explicit(label: &str, value: Expression) -> LabeledCallArg {
    LabeledCallArg::Explicit { label: ident(label), value }
}

fn assert_appearance(r: Result<(), TypePositivityError>, index: usize, at: &Expression) {
    match r {
        Err(TypePositivityError::IllegalVariableAppearance { var_db_index, expression }) => {
            assert_eq!(var_db_index, DbIndex(index));
            assert!(expressions_equal(&expression, at));
        }
        Ok(()) => panic!("expected an appearance"),
    }
}

fn case(variant: &str, output: Expression) -> MatchCase {
    MatchCase { variant_name: ident(variant), params: vec![], output }
}

// ---------------------------------------------------------------------
// Positivity
// ---------------------------------------------------------------------

#[test]
fn target_in_a_call_argument_is_reported() {
    let e = call(name("f", 0), vec![name("a", 3)]);
    assert_appearance(verify_that_target_does_not_appear_in_expression(&e, DbIndex(3)), 3, &name("a", 3));
    assert!(verify_that_target_does_not_appear_in_expression(&e, DbIndex(2)).is_ok());
}

#[test]
fn target_is_renumbered_under_binders() {
    // forall (x: T) { t }: the target 1 reads 2 under x.
    let e = Expression::Forall(Box::new(Forall { params: vec![param("x", name("T", 0))], output: name("t", 2) }));
    assert_appearance(verify_that_target_does_not_appear_in_expression(&e, DbIndex(1)), 2, &name("t", 2));
}

#[test]
fn fun_body_is_not_checked_for_positivity() {
    let e = Expression::Fun(Box::new(Fun {
        name: ident("f"),
        params: vec![],
        return_type: name("T", 5),
        body: name("t", 1),
        skip_type_checking_body: false,
    }));
    assert!(verify_that_target_does_not_appear_in_expression(&e, DbIndex(0)).is_ok());
}

#[test]
fn check_expression_checks_only_its_output() {
    let e = Expression::Check(Box::new(Check {
        assertions: vec![CheckAssertion { kind: CheckAssertionKind::Type, left: Some(name("t", 0)), right: None, left_invalid: None, right_invalid: None }],
        output: name("u", 1),
    }));
    assert!(verify_that_target_does_not_appear_in_expression(&e, DbIndex(0)).is_ok());
}

#[test]
fn param_types_are_collected_in_order() {
    let params = vec![param("x", name("A", 0)), param("y", name("B", 1))];
    let types = get_param_type_ids(&params);
    assert_eq!(types.len(), 2);
    assert!(expressions_equal(&types[1], &name("B", 1)));
    assert!(get_possibly_empty_param_type_ids(None).is_empty());
}

#[test]
fn file_without_variants_passes_positivity() {
    let file = File {
        items: vec![
            FileItem::Type(TypeStatement { name: ident("Empty"), params: vec![], variants: vec![] }),
            FileItem::Let(LetStatement { name: ident("x"), value: name("Empty", 0) }),
        ],
    };
    assert!(validate_type_positivity_in_file(&file).is_ok());
}

// ---------------------------------------------------------------------
// Least free index
// ---------------------------------------------------------------------

#[test]
fn least_free_index_skips_bound_variables() {
    // forall (x: T<4>) { x<0> }: the least free index is 4.
    let e = Expression::Forall(Box::new(Forall { params: vec![param("x", name("T", 4))], output: name("x", 0) }));
    assert_eq!(min_free_db_index_in_expression(&e), DbIndex(4));
    // forall (x: T<4>) { y<2> }: y<2> under x is 1 at the root.
    let e2 = Expression::Forall(Box::new(Forall { params: vec![param("x", name("T", 4))], output: name("y", 2) }));
    assert_eq!(min_free_db_index_in_expression(&e2), DbIndex(1));
}

#[test]
fn least_index_relative_to_a_cutoff() {
    let e = call(name("f", 7), vec![name("a", 1), name("b", 3)]);
    assert_eq!(min_db_index_in_expression_relative_to_cutoff(&e, 2).into_option(), Some(DbIndex(1)));
    assert_eq!(min_db_index_in_expression_relative_to_cutoff(&e, 8).into_option(), None);
    assert_eq!(min_or_first(MinDbIndex::Finite(DbIndex(3)), Some(MinDbIndex::Infinity)).into_option(), Some(DbIndex(3)));
    assert_eq!(MinDbIndex::Finite(DbIndex(3)).min(MinDbIndex::Finite(DbIndex(2))).into_option(), Some(DbIndex(2)));
}

// ---------------------------------------------------------------------
// Cases against variants
// ---------------------------------------------------------------------

#[test]
fn bijection_accepts_cases_in_any_order() {
    let variants = vec![ident("O"), ident("S")];
    let cases = vec![case("S", name("a", 0)), case("O", name("b", 0))];
    assert!(matches!(verify_variant_to_case_bijection(&variants, &cases), Ok(())));
}

#[test]
fn bijection_reports_the_first_duplicate() {
    let variants = vec![ident("O"), ident("S")];
    let cases = vec![case("O", name("a", 0)), case("S", name("b", 0)), case("O", name("c", 0))];
    assert!(matches!(
        verify_variant_to_case_bijection(&variants, &cases),
        Err(TypeCheckError::DuplicateMatchCase { existing_match_case_id: 0, new_match_case_id: 2 })
    ));
}

#[test]
fn bijection_reports_a_missing_case() {
    let variants = vec![ident("O"), ident("S")];
    let cases = vec![case("O", name("a", 0))];
    assert!(matches!(verify_variant_to_case_bijection(&variants, &cases), Err(TypeCheckError::MissingMatchCase { variant_name_id: 1 })));
}

#[test]
fn bijection_reports_an_extraneous_case() {
    let variants = vec![ident("O")];
    let cases = vec![case("O", name("a", 0)), case("Z", name("b", 0))];
    assert!(matches!(verify_variant_to_case_bijection(&variants, &cases), Err(TypeCheckError::ExtraneousMatchCase { case_id: 1 })));
}

#[test]
fn name_expression_is_built_from_its_components() {
    let n = add_name_expression(vec![ident("Nat"), ident("S")], DbIndex(4));
    assert_eq!(n.components.len(), 2);
    assert_eq!(n.db_index, DbIndex(4));
}

#[test]
fn nullary_forall_collapses_to_its_output() {
    let fa = Forall { params: vec![], output: name("x", 1) };
    assert!(expressions_equal(&fa.collapse_if_nullary(), &name("x", 1)));
    let fa2 = Forall { params: vec![param("y", name("T", 0))], output: name("x", 1) };
    assert!(matches!(fa2.collapse_if_nullary(), Expression::Forall(_)));
}

// ---------------------------------------------------------------------
// Subterms
// ---------------------------------------------------------------------

#[test]
fn subterm_search_finds_arguments_and_renumbers_under_binders() {
    let a = name("a", 2);
    assert!(is_left_inclusive_subterm_of_right(&a, &copy_expression(&a)));
    assert!(is_left_inclusive_subterm_of_right(&a, &call(name("f", 0), vec![name("b", 1), name("a", 2)])));
    assert!(!is_left_inclusive_subterm_of_right(&a, &call(name("f", 0), vec![name("a", 3)])));
    // Under one binder, a<2> reads a<3>.
    let under = Expression::Forall(Box::new(Forall { params: vec![param("x", name("T", 0))], output: name("a", 3) }));
    assert!(is_left_inclusive_subterm_of_right(&a, &under));
    let not_under = Expression::Forall(Box::new(Forall { params: vec![param("x", name("T", 0))], output: name("a", 2) }));
    assert!(!is_left_inclusive_subterm_of_right(&a, &not_under));
}

#[test]
fn subterm_search_looks_into_match_cases() {
    let m = Expression::Match(Box::new(Match {
        matchee: name("n", 0),
        cases: vec![MatchCase { variant_name: ident("S"), params: vec![ident("m")], output: name("a", 3) }],
    }));
    assert!(is_left_inclusive_subterm_of_right(&name("a", 2), &m));
    assert!(is_left_inclusive_subterm_of_right(&name("n", 0), &m));
}

// ---------------------------------------------------------------------
// Labeled call arguments
// ---------------------------------------------------------------------

#[test]
fn labeled_args_in_order_need_no_correction() {
    let params = vec![labeled_param("a", "x"), labeled_param("b", "y")];
    let args = vec![explicit("a", name("p", 0)), explicit("b", name("q", 1))];
    assert!(matches!(correct_uniquely_labeled_call_arg_order(&params, &args), Ok(None)));
}

#[test]
fn labeled_args_out_of_order_are_reordered() {
    let params = vec![labeled_param("a", "x"), labeled_param("b", "y")];
    let args = vec![explicit("b", name("q", 1)), LabeledCallArg::Implicit { label: ident("a"), db_index: DbIndex(5) }];
    match correct_uniquely_labeled_call_arg_order(&params, &args) {
        Ok(Some(reordered)) => {
            assert!(matches!(&reordered[0], LabeledCallArg::Implicit { db_index, .. } if *db_index == DbIndex(5)));
            assert!(matches!(&reordered[1], LabeledCallArg::Explicit { .. }));
        }
        _ => panic!("expected a reordering"),
    }
}

#[test]
fn a_parameter_without_a_label_is_matched_by_its_name() {
    let params = vec![param("x", name("T", 0))];
    let args = vec![explicit("x", name("p", 0))];
    assert!(matches!(correct_uniquely_labeled_call_arg_order(&params, &args), Ok(None)));
}

#[test]
fn missing_labeled_arg_is_reported_before_extraneous_ones() {
    let params = vec![labeled_param("a", "x"), labeled_param("b", "y")];
    let args = vec![explicit("a", name("p", 0)), explicit("c", name("q", 1))];
    match correct_uniquely_labeled_call_arg_order(&params, &args) {
        Err(LabeledCallArgError::MissingLabeledCallArg { label }) => {
            assert!(matches!(&label.name, IdentifierName::Standard(s) if s == "b"));
        }
        _ => panic!("expected a missing argument"),
    }
}

#[test]
fn extraneous_labeled_arg_is_reported() {
    let params = vec![labeled_param("a", "x")];
    let args = vec![explicit("a", name("p", 0)), explicit("c", name("q", 1))];
    assert!(matches!(
        correct_uniquely_labeled_call_arg_order(&params, &args),
        Err(LabeledCallArgError::ExtraneousLabeledCallArg { arg_position: 1 })
    ));
    assert!(matches!(
        verify_there_are_no_extraneous_args(&params, &args),
        Err(LabeledCallArgError::ExtraneousLabeledCallArg { arg_position: 1 })
    ));
}

#[test]
fn the_offending_argument_is_reported() {
    // The callee 0 passes; the argument 4 is the target.
    let e = call(name("f", 0), vec![name("a", 4)]);
    assert_appearance(verify_that_target_does_not_appear_in_expression(&e, DbIndex(4)), 4, &name("a", 4));
}

#[test]
fn the_offending_forall_output_is_reported() {
    // forall (x: 3) { 3 } with target 2: the parameter type sees 2 and
    // passes; the output sees 3 and fails.
    let e = Expression::Forall(Box::new(Forall { params: vec![param("x", name("p", 3))], output: name("o", 3) }));
    assert_appearance(verify_that_target_does_not_appear_in_expression(&e, DbIndex(2)), 3, &name("o", 3));
}

#[test]
fn the_first_failing_parameter_type_is_reported() {
    // Parameter i sees the target 1 as 1 + i: parameter 0 passes, both
    // parameters 1 and 2 hold it, and parameter 1 is reported.
    let e = Expression::Forall(Box::new(Forall {
        params: vec![param("x", name("a", 0)), param("y", name("b", 2)), param("z", name("c", 3))],
        output: name("o", 0),
    }));
    assert_appearance(verify_that_target_does_not_appear_in_expression(&e, DbIndex(1)), 2, &name("b", 2));
}

#[test]
fn an_implicit_labeled_argument_is_reported_as_its_name() {
    let e = Expression::Call(Box::new(Call {
        callee: name("f", 0),
        args: CallArgList::UniquelyLabeled(vec![LabeledCallArg::Implicit { label: ident("n"), db_index: DbIndex(5) }]),
    }));
    assert_appearance(verify_that_target_does_not_appear_in_expression(&e, DbIndex(5)), 5, &name("n", 5));
}
