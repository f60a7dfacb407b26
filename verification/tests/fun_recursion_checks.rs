use pamc::ast::{
    Call, CallArgList, CheckAssertion, CheckAssertionKind, Check, DbIndex, Expression, Fun, Identifier,
    IdentifierName, LabeledCallArg, Match, MatchCase, NameExpression, Param,
};
use pamc::file::{File, FileItem, LetStatement, TypeStatement, Variant};
use pamc::fun_recursion::{IllegalFunRecursionError, IllegalFunRecursionExpression, validate_fun_recursion_in_expression};
use pamc::fun_recursion_context::{Context, ContextEntry, ReferenceRestriction};
use pamc::fun_recursion_file::validate_fun_recursion_in_file;
use pamc::equality::expressions_equal;
use pamc::ast::DbLevel;

fn ident(s: &str) -> Identifier {
    Identifier { name: IdentifierName::Standard(s.to_string()) }
}

fn name(s: &str, i: usize) -> Expression {
    Expression::Name(NameExpression { components: vec![ident(s)], db_index: DbIndex(i) })
}

fn call(callee: Expression, args: Vec<Expression>) -> Expression {
    Expression::Call(Box::new(Call { callee, args: CallArgList::Unlabeled(args) }))
}

fn param(s: &str, dashed: bool, type_: Expression) -> Param {
    Param { label: None, is_dashed: dashed, name: ident(s), type_ }
}

fn case(variant: &str, params: Vec<&str>, output: Expression) -> MatchCase {
    MatchCase { variant_name: ident(variant), params: params.into_iter().map(ident).collect(), output }
}

fn fun(params: Vec<Param>, return_type: Expression, body: Expression) -> Expression {
    Expression::Fun(Box::new(Fun { name: ident("f"), params, return_type, body, skip_type_checking_body: false }))
}

/// A context of four variables beyond the builtins: `Nat`, `O`, `S`, and
/// nothing is known of any of them.
fn context() -> Context {
    let mut c = Context::new();
    for _ in 0..3 {
        c.push(ContextEntry::NoInformation).unwrap();
    }
    c
}

/// fun f(-n: Nat): Nat { match n { O => O, S(m) => f(m) } }
/// In the body: 0 = f, 1 = n, 2 = S, 3 = O, 4 = Nat. In the case `S(m)`,
/// 0 = m, 1 = f, 2 = n.
fn structural_recursion(arg_of_recursive_call: Expression) -> Expression {
    fun(
        vec![param("n", true, name("Nat", 2))],
        name("Nat", 3),
        Expression::Match(Box::new(Match {
            matchee: name("n", 1),
            cases: vec![case("O", vec![], name("O", 3)), case("S", vec!["m"], call(name("f", 1), vec![arg_of_recursive_call]))],
        })),
    )
}

#[test]
fn structural_recursion_is_accepted() {
    let mut c = context();
    let before = c.len();
    assert!(validate_fun_recursion_in_expression(&mut c, &structural_recursion(name("m", 0))).is_ok());
    assert_eq!(c.len(), before);
}

#[test]
fn recursion_on_the_parameter_itself_is_refused() {
    let mut c = context();
    let before = c.len();
    let r = validate_fun_recursion_in_expression(&mut c, &structural_recursion(name("n", 2)));
    match r {
        Err(IllegalFunRecursionError::NonSubstructPassedToDecreasingParam { callee, arg }) => {
            assert_eq!(callee.db_index, DbIndex(1));
            match arg {
                Expression::Name(n) => assert_eq!(n.db_index, DbIndex(2)),
                _ => panic!("unexpected argument"),
            }
        }
        _ => panic!("expected NonSubstructPassedToDecreasingParam"),
    }
    // A failed check leaves the context as it was.
    assert_eq!(c.len(), before);
}

#[test]
fn recursion_without_a_decreasing_parameter_is_refused() {
    // fun f(n: Nat): Nat { f(n) }: 0 = f, 1 = n.
    let e = fun(vec![param("n", false, name("Nat", 2))], name("Nat", 3), call(name("f", 0), vec![name("n", 1)]));
    let mut c = context();
    match validate_fun_recursion_in_expression(&mut c, &e) {
        Err(IllegalFunRecursionError::RecursivelyCalledFunctionWithoutDecreasingParam { callee }) => {
            assert_eq!(callee.db_index, DbIndex(0));
        }
        _ => panic!("expected RecursivelyCalledFunctionWithoutDecreasingParam"),
    }
}

#[test]
fn naming_the_function_without_calling_it_is_refused() {
    // fun f(-n: Nat): Nat { f }
    let e = fun(vec![param("n", true, name("Nat", 2))], name("Nat", 3), name("f", 0));
    let mut c = context();
    match validate_fun_recursion_in_expression(&mut c, &e) {
        Err(IllegalFunRecursionError::RecursiveReferenceWasNotDirectCall { reference }) => {
            assert_eq!(reference.db_index, DbIndex(0));
        }
        _ => panic!("expected RecursiveReferenceWasNotDirectCall"),
    }
}

#[test]
fn implicit_labeled_argument_naming_the_function_is_refused() {
    // fun f(-n: Nat): Nat { g(:f) } where g is free.
    let body = Expression::Call(Box::new(Call {
        callee: name("g", 3),
        args: CallArgList::UniquelyLabeled(vec![LabeledCallArg::Implicit { label: ident("f"), db_index: DbIndex(0) }]),
    }));
    let e = fun(vec![param("n", true, name("Nat", 2))], name("Nat", 3), body);
    let mut c = context();
    assert!(matches!(
        validate_fun_recursion_in_expression(&mut c, &e),
        Err(IllegalFunRecursionError::RecursiveReferenceWasNotDirectCall { .. })
    ));
}

#[test]
fn errors_in_check_assertions_only_mark_them() {
    // fun f(-n: Nat): Nat { check f: Nat { n } }: the assertion names f, but
    // only the check's output counts.
    let body = Expression::Check(Box::new(Check {
        assertions: vec![CheckAssertion {
            kind: CheckAssertionKind::Type,
            left: Some(name("f", 0)),
            right: Some(name("Nat", 4)),
            left_invalid: None,
            right_invalid: None,
        }],
        output: name("n", 1),
    }));
    let e = fun(vec![param("n", true, name("Nat", 2))], name("Nat", 3), body);
    let mut c = context();
    let before = c.len();
    let marked = validate_fun_recursion_in_expression(&mut c, &e).unwrap();
    assert_eq!(c.len(), before);
    // The left side is marked invalid, keeping the expression and the
    // error; the right side and the output stay as they were.
    match &marked {
        Expression::Fun(f) => match &f.body {
            Expression::Check(ch) => {
                let a = &ch.assertions[0];
                assert!(a.left.is_none());
                match &a.left_invalid {
                    Some(IllegalFunRecursionExpression { expression, error }) => {
                        assert!(expressions_equal(expression, &name("f", 0)));
                        assert!(matches!(error, IllegalFunRecursionError::RecursiveReferenceWasNotDirectCall { .. }));
                    }
                    None => panic!("expected the left side to be marked invalid"),
                }
                assert!(expressions_equal(a.right.as_ref().unwrap(), &name("Nat", 4)));
                assert!(a.right_invalid.is_none());
                assert!(expressions_equal(&ch.output, &name("n", 1)));
            }
            _ => panic!("expected a check"),
        },
        _ => panic!("expected a fun"),
    }
}

#[test]
fn a_valid_expression_comes_back_unchanged() {
    let mut c = context();
    let e = structural_recursion(name("m", 0));
    let marked = validate_fun_recursion_in_expression(&mut c, &e).unwrap();
    assert!(expressions_equal(&marked, &e));
}

#[test]
fn substructure_chain_is_followed() {
    let mut c = Context::new();
    c.push(ContextEntry::NoInformation).unwrap(); // level 2
    c.push(ContextEntry::Substruct { superstruct_db_level: DbLevel(2) }).unwrap(); // level 3
    c.push(ContextEntry::Substruct { superstruct_db_level: DbLevel(3) }).unwrap(); // level 4
    c.push(ContextEntry::Fun(ReferenceRestriction::CannotCall)).unwrap(); // level 5
    assert!(c.is_left_strict_substruct_of_right(DbLevel(4), DbLevel(2)));
    assert!(!c.is_left_strict_substruct_of_right(DbLevel(2), DbLevel(2)));
    assert!(!c.is_left_strict_substruct_of_right(DbLevel(2), DbLevel(4)));
    assert_eq!(c.reference_restriction(DbIndex(0)), Some(ReferenceRestriction::CannotCall));
    assert_eq!(c.reference_restriction(DbIndex(1)), None);
    assert_eq!(c.index_to_level(DbIndex(0)), DbLevel(5));
}

#[test]
fn file_check_reports_the_first_error() {
    // type Nat { O: Nat, S(n: Nat): Nat }
    // let bad = fun f(n: Nat): Nat { f(n) };
    let nat = FileItem::Type(TypeStatement {
        name: ident("Nat"),
        params: vec![],
        variants: vec![
            Variant { name: ident("O"), params: vec![], return_type: name("Nat", 0) },
            Variant { name: ident("S"), params: vec![param("n", false, name("Nat", 1))], return_type: name("Nat", 2) },
        ],
    });
    let bad = FileItem::Let(LetStatement {
        name: ident("bad"),
        value: fun(vec![param("n", false, name("Nat", 2))], name("Nat", 3), call(name("f", 0), vec![name("n", 1)])),
    });
    let file = File { items: vec![nat, bad] };
    assert!(matches!(
        validate_fun_recursion_in_file(&file),
        Err(IllegalFunRecursionError::RecursivelyCalledFunctionWithoutDecreasingParam { .. })
    ));
    let good = File { items: vec![file.items.into_iter().next().unwrap()] };
    let validated = validate_fun_recursion_in_file(&good).unwrap();
    assert_eq!(validated.items.len(), 1);
    match &validated.items[0] {
        FileItem::Type(t) => {
            assert_eq!(t.variants.len(), 2);
            assert!(expressions_equal(&t.variants[1].return_type, &name("Nat", 2)));
        }
        _ => panic!("expected the type statement"),
    }
}

#[test]
fn file_check_marks_invalid_assertion_sides() {
    // let g = fun f(-n: Type): Type { check (f: ?) { n } };
    // The file context holds Type1 and Type0, so `Type` is index 0 at the
    // top level.
    let body = Expression::Check(Box::new(Check {
        assertions: vec![CheckAssertion {
            kind: CheckAssertionKind::Type,
            left: Some(name("f", 0)),
            right: None,
            left_invalid: None,
            right_invalid: None,
        }],
        output: name("n", 1),
    }));
    let g = FileItem::Let(LetStatement {
        name: ident("g"),
        value: fun(vec![param("n", true, name("Type", 0))], name("Type", 1), body),
    });
    let validated = validate_fun_recursion_in_file(&File { items: vec![g] }).unwrap();
    match &validated.items[0] {
        FileItem::Let(l) => match &l.value {
            Expression::Fun(f) => match &f.body {
                Expression::Check(ch) => {
                    assert!(ch.assertions[0].left.is_none());
                    assert!(ch.assertions[0].right.is_none());
                    assert!(ch.assertions[0].right_invalid.is_none());
                    match &ch.assertions[0].left_invalid {
                        Some(IllegalFunRecursionExpression { expression, .. }) => {
                            assert!(expressions_equal(expression, &name("f", 0)))
                        }
                        None => panic!("expected the left side to be marked invalid"),
                    }
                }
                _ => panic!("expected a check"),
            },
            _ => panic!("expected a fun"),
        },
        _ => panic!("expected the let statement"),
    }
}
