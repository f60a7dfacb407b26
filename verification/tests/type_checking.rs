use pamc::ast::{
    Call, CallArgList, DbIndex, Expression, Forall, Fun, Identifier, IdentifierName, NameExpression, Param,
    ReservedIdentifierName,
};
use pamc::context::{Context, ContextEntry, ContextEntryDefinition};
use pamc::equality::expressions_equal;
use pamc::file::{File, FileItem, LetStatement, TypeStatement, Variant};
use pamc::misc::{NormalFormId, TypeCheckError};
use pamc::substitution_application::apply_substitutions_from_substitution_context;
use pamc::substitution_context::{DynamicSubstitution, SubstitutionContext, SubstitutionContextEntry};
use pamc::type_check::get_type_of_expression_dirty;
use pamc::type_check_file::type_check_files;

fn ident(s: &str) -> Identifier {
    Identifier { name: IdentifierName::Standard(s.to_string()) }
}

fn name(s: &str, i: usize) -> Expression {
    Expression::Name(NameExpression { components: vec![ident(s)], db_index: DbIndex(i) })
}

/// The name `Type`.
fn type0(i: usize) -> Expression {
    Expression::Name(NameExpression {
        components: vec![Identifier { name: IdentifierName::Reserved(ReservedIdentifierName::TypeTitleCase) }],
        db_index: DbIndex(i),
    })
}

fn call(callee: Expression, args: Vec<Expression>) -> Expression {
    Expression::Call(Box::new(Call { callee, args: CallArgList::Unlabeled(args) }))
}

fn param(s: &str, type_: Expression) -> Param {
    Param { label: None, is_dashed: false, name: ident(s), type_ }
}

fn let_(s: &str, value: Expression) -> FileItem {
    FileItem::Let(LetStatement { name: ident(s), value })
}

/// `type Nat { O: Nat, S(n: Nat): Nat }`; afterwards S = 0, O = 1, Nat = 2,
/// Type0 = 3, Type1 = 4.
fn nat_type() -> FileItem {
    FileItem::Type(TypeStatement {
        name: ident("Nat"),
        params: vec![],
        variants: vec![
            Variant { name: ident("O"), params: vec![], return_type: name("Nat", 0) },
            Variant { name: ident("S"), params: vec![param("n", name("Nat", 1))], return_type: name("Nat", 2) },
        ],
    })
}

/// `fun id(T: Type, x: T): T { x }` with `Type` at index `type0_index`.
fn identity(type0_index: usize) -> Expression {
    Expression::Fun(Box::new(Fun {
        name: ident("id"),
        params: vec![param("T", type0(type0_index)), param("x", name("T", 0))],
        return_type: name("T", 1),
        body: name("x", 1),
        skip_type_checking_body: false,
    }))
}

fn check(items: Vec<FileItem>) -> Option<Result<(), TypeCheckError>> {
    type_check_files(&vec![File { items }], 100)
}

#[test]
fn naturals_type_check() {
    let r = check(vec![nat_type(), let_("two", call(name("S", 0), vec![call(name("S", 0), vec![name("O", 1)])]))]);
    assert!(matches!(r, Some(Ok(()))));
}

#[test]
fn the_type_of_type0_is_type1() {
    let mut c = Context::with_builtins();
    let s = SubstitutionContext::empty();
    let t = get_type_of_expression_dirty(&mut c, &s, &type0(0), 10).unwrap().unwrap();
    assert!(expressions_equal(t.raw_ref(), &name("Type1", 1)));
    assert_eq!(c.len(), 2);
}

#[test]
fn a_forall_over_types_is_a_type() {
    let mut c = Context::with_builtins();
    let s = SubstitutionContext::empty();
    let e = Expression::Forall(Box::new(Forall { params: vec![param("T", type0(0))], output: name("T", 0) }));
    let t = get_type_of_expression_dirty(&mut c, &s, &e, 10).unwrap().unwrap();
    assert!(expressions_equal(t.raw_ref(), &type0(0)));
    assert_eq!(c.len(), 2);
}

#[test]
fn the_identity_function_has_a_dependent_type() {
    let mut c = Context::with_builtins();
    let s = SubstitutionContext::empty();
    let t = get_type_of_expression_dirty(&mut c, &s, &identity(0), 10).unwrap().unwrap();
    let expected = Expression::Forall(Box::new(Forall {
        params: vec![param("T", type0(0)), param("x", name("T", 0))],
        output: name("T", 1),
    }));
    assert!(expressions_equal(t.raw_ref(), &expected));
    assert_eq!(c.len(), 2);
}

#[test]
fn a_dependent_call_gets_the_instantiated_output_type() {
    // After `type Nat`, `let id`: id = 0, S = 1, O = 2, Nat = 3, Type0 = 4.
    let r = check(vec![nat_type(), let_("id", identity(3)), let_("y", call(name("id", 0), vec![name("Nat", 3), name("O", 2)]))]);
    assert!(matches!(r, Some(Ok(()))));
}

#[test]
fn an_argument_of_the_wrong_type_is_a_mismatch() {
    let r = check(vec![nat_type(), let_("bad", call(name("S", 0), vec![name("S", 0)]))]);
    match r {
        Some(Err(TypeCheckError::TypeMismatch { expression_id, expected_type_id, .. })) => {
            assert!(expressions_equal(&expression_id, &name("S", 0)));
            assert!(expressions_equal(expected_type_id.raw_ref(), &name("Nat", 2)));
        },
        _ => panic!("expected a type mismatch"),
    }
}

#[test]
fn the_dependent_argument_type_is_checked() {
    // id(Nat, Nat): the second argument must have type Nat.
    let r = check(vec![nat_type(), let_("id", identity(3)), let_("y", call(name("id", 0), vec![name("Nat", 3), name("Nat", 3)]))]);
    match r {
        Some(Err(TypeCheckError::TypeMismatch { expression_id, expected_type_id, actual_type_id })) => {
            assert!(expressions_equal(&expression_id, &name("Nat", 3)));
            assert!(expressions_equal(expected_type_id.raw_ref(), &name("Nat", 3)));
            assert!(expressions_equal(actual_type_id.raw_ref(), &type0(4)));
        },
        _ => panic!("expected a type mismatch"),
    }
}

#[test]
fn a_callee_without_a_forall_type_is_illegal() {
    let r = check(vec![nat_type(), let_("bad", call(name("O", 1), vec![name("O", 1)]))]);
    match r {
        Some(Err(TypeCheckError::IllegalCallee(e))) => assert!(expressions_equal(&e, &name("O", 1))),
        _ => panic!("expected an illegal callee"),
    }
}

#[test]
fn a_call_with_too_many_arguments_is_reported() {
    let r = check(vec![nat_type(), let_("bad", call(name("S", 0), vec![name("O", 1), name("O", 1)]))]);
    assert!(matches!(r, Some(Err(TypeCheckError::WrongNumberOfArguments { expected: 1, actual: 2, .. }))));
}

#[test]
fn a_parameter_type_must_be_a_type() {
    let e = Expression::Forall(Box::new(Forall { params: vec![param("x", name("O", 1))], output: name("Nat", 3) }));
    let r = check(vec![nat_type(), let_("bad", e)]);
    match r {
        Some(Err(TypeCheckError::IllegalTypeExpression(e))) => assert!(expressions_equal(&e, &name("O", 1))),
        _ => panic!("expected an illegal type expression"),
    }
}

#[test]
fn a_body_of_the_wrong_type_is_a_mismatch() {
    // fun f(n: Nat): Nat { Nat }
    let f = Expression::Fun(Box::new(Fun {
        name: ident("f"),
        params: vec![param("n", name("Nat", 2))],
        return_type: name("Nat", 3),
        body: name("Nat", 4),
        skip_type_checking_body: false,
    }));
    let r = check(vec![nat_type(), let_("f", f)]);
    match r {
        Some(Err(TypeCheckError::TypeMismatch { expression_id, .. })) => assert!(expressions_equal(&expression_id, &name("Nat", 4))),
        _ => panic!("expected a type mismatch"),
    }
}

#[test]
fn a_skipped_body_is_not_checked() {
    let f = Expression::Fun(Box::new(Fun {
        name: ident("f"),
        params: vec![param("n", name("Nat", 2))],
        return_type: name("Nat", 3),
        body: name("Nat", 4),
        skip_type_checking_body: true,
    }));
    assert!(matches!(check(vec![nat_type(), let_("f", f)]), Some(Ok(()))));
}

#[test]
fn no_files_type_check() {
    assert!(matches!(type_check_files(&vec![], 0), Some(Ok(()))));
}

/// Type1, Type0, `type Nat { O: Nat, S(n: Nat): Nat }`, then `y: Nat`.
/// At the top: y = 0, S = 1, O = 2, Nat = 3.
fn nat_context() -> Context {
    let mut c = Context::with_builtins();
    c.push(ContextEntry {
        type_id: NormalFormId::unchecked_new(type0(0)),
        definition: ContextEntryDefinition::Adt { variant_name_list_id: vec![ident("O"), ident("S")] },
    });
    c.push(ContextEntry {
        type_id: NormalFormId::unchecked_new(name("Nat", 0)),
        definition: ContextEntryDefinition::Variant { name_id: ident("O") },
    });
    c.push(ContextEntry {
        type_id: NormalFormId::unchecked_new(Expression::Forall(Box::new(Forall {
            params: vec![param("n", name("Nat", 1))],
            output: name("Nat", 2),
        }))),
        definition: ContextEntryDefinition::Variant { name_id: ident("S") },
    });
    c.push(ContextEntry { type_id: NormalFormId::unchecked_new(name("Nat", 2)), definition: ContextEntryDefinition::Uninterpreted });
    c
}

#[test]
fn without_equations_nothing_is_rewritten() {
    let mut c = nat_context();
    let s = SubstitutionContext::empty();
    let r = apply_substitutions_from_substitution_context(&mut c, &s, vec![name("y", 0)], 10).unwrap().unwrap();
    assert_eq!(r.len(), 1);
    assert!(expressions_equal(&r[0], &name("y", 0)));
    assert_eq!(c.len(), 6);
}

#[test]
fn a_learned_equation_rewrites_the_variable() {
    let mut c = nat_context();
    let mut s = SubstitutionContext::empty();
    s.push(SubstitutionContextEntry {
        context_len: 6,
        unadjusted_substitutions: vec![DynamicSubstitution(
            NormalFormId::unchecked_new(name("y", 0)),
            NormalFormId::unchecked_new(name("O", 2)),
        )],
    });
    let r = apply_substitutions_from_substitution_context(&mut c, &s, vec![call(name("S", 1), vec![name("y", 0)])], 10)
        .unwrap()
        .unwrap();
    assert!(expressions_equal(&r[0], &call(name("S", 1), vec![name("O", 2)])));
}
