use pamc::ast::{
    Call, CallArgList, DbIndex, Expression, Forall, Fun, Identifier, IdentifierName, Match, MatchCase,
    NameExpression, Param, ReservedIdentifierName,
};
use pamc::debug::{debug_expression, debug_match_case, debug_name, debug_param};
use pamc::debug_text::{debug_ident, decimal_string, indent, try_oneline};

fn ident(s: &str) -> Identifier {
    Identifier { name: IdentifierName::Standard(s.to_string()) }
}

fn name(s: &str, i: usize) -> Expression {
    Expression::Name(NameExpression { components: vec![ident(s)], db_index: DbIndex(i) })
}

fn param(s: &str, type_: Expression) -> Param {
    Param { label: None, is_dashed: false, name: ident(s), type_ }
}

#[test]
fn name_prints_its_components_and_index() {
    let n = NameExpression { components: vec![ident("Nat"), ident("S")], db_index: DbIndex(12) };
    assert_eq!(debug_name(&n, 0), "Nat.S<12>");
}

#[test]
fn reserved_identifiers_print_as_keywords() {
    let t = Identifier { name: IdentifierName::Reserved(ReservedIdentifierName::TypeTitleCase) };
    let u = Identifier { name: IdentifierName::Reserved(ReservedIdentifierName::Underscore) };
    assert_eq!(debug_ident(&t), "Type");
    assert_eq!(debug_ident(&u), "_");
}

#[test]
fn decimal_digits() {
    assert_eq!(decimal_string(0), "0");
    assert_eq!(decimal_string(7), "7");
    assert_eq!(decimal_string(1005), "1005");
    assert_eq!(decimal_string(usize::MAX), usize::MAX.to_string());
}

#[test]
fn indentation_is_four_spaces_per_level() {
    assert_eq!(indent(0), "");
    assert_eq!(indent(2), "        ");
}

#[test]
fn call_prints_one_argument_per_line() {
    let e = Expression::Call(Box::new(Call { callee: name("f", 0), args: CallArgList::Unlabeled(vec![name("a", 1), name("b", 2)]) }));
    assert_eq!(debug_expression(&e, 0), "f<0>(\n    a<1>,\n    b<2>,\n)");
    assert_eq!(debug_expression(&e, 1), "f<0>(\n        a<1>,\n        b<2>,\n    )");
}

#[test]
fn call_of_a_fun_prints_the_fun_name() {
    let f = Expression::Fun(Box::new(Fun {
        name: ident("id"),
        params: vec![param("x", name("T", 0))],
        return_type: name("T", 1),
        body: name("x", 1),
        skip_type_checking_body: false,
    }));
    let e = Expression::Call(Box::new(Call { callee: f, args: CallArgList::Unlabeled(vec![name("a", 0)]) }));
    assert_eq!(debug_expression(&e, 0), "id(\n    a<0>,\n)");
}

#[test]
fn fun_prints_params_return_type_and_body() {
    let f = Expression::Fun(Box::new(Fun {
        name: ident("id"),
        params: vec![param("x", name("T", 0))],
        return_type: name("T", 1),
        body: name("x", 1),
        skip_type_checking_body: false,
    }));
    assert_eq!(debug_expression(&f, 0), "fun id(\n    x: T<0>,\n): T<1> {\n    x<1>\n}");
}

#[test]
fn forall_prints_params_without_commas() {
    let e = Expression::Forall(Box::new(Forall { params: vec![param("x", name("T", 0)), param("y", name("x", 0))], output: name("x", 1) }));
    assert_eq!(debug_expression(&e, 0), "forall (\n    x: T<0>\n    y: x<0>\n) {\n    x<1>\n}");
}

#[test]
fn param_prints_name_and_type() {
    assert_eq!(debug_param(&param("x", name("T", 3)), 0), "x: T<3>");
}

#[test]
fn match_prints_one_case_per_line() {
    let e = Expression::Match(Box::new(Match {
        matchee: name("n", 0),
        cases: vec![
            MatchCase { variant_name: ident("O"), params: vec![], output: name("o", 1) },
            MatchCase { variant_name: ident("S"), params: vec![ident("m"), ident("k")], output: name("m", 1) },
        ],
    }));
    assert_eq!(debug_expression(&e, 0), "match n<0> {\n    O => o<1>,\n    S(m, k) => m<1>,\n}");
}

#[test]
fn multi_line_matchee_is_parenthesized() {
    let matchee = Expression::Call(Box::new(Call { callee: name("f", 0), args: CallArgList::Unlabeled(vec![name("a", 1)]) }));
    let e = Expression::Match(Box::new(Match { matchee, cases: vec![] }));
    assert_eq!(debug_expression(&e, 0), "match (\n    f<0>(\n        a<1>,\n    )\n) {\n\n}");
}

#[test]
fn multi_line_case_output_goes_on_its_own_line() {
    let output = Expression::Call(Box::new(Call { callee: name("f", 0), args: CallArgList::Unlabeled(vec![name("a", 1)]) }));
    let c = MatchCase { variant_name: ident("S"), params: vec![ident("m")], output };
    assert_eq!(debug_match_case(&c, 1), "S(m) => \n        f<0>(\n            a<1>,\n        ),\n    ");
}

#[test]
fn single_line_text_stays_on_its_line() {
    assert_eq!(try_oneline(&"abc".to_string(), 3), "abc");
    assert_eq!(try_oneline(&"a\nb".to_string(), 0), "\n    a\nb\n");
}
