use pamc::ast::{
    Call, CallArgList, DbIndex, Expression, Fun, Identifier, IdentifierName, LabeledCallArg, Match,
    MatchCase, NameExpression, Param, Forall,
};
use pamc::context::{Context, ContextEntry, ContextEntryDefinition};
use pamc::equality::expressions_equal;
use pamc::eval::evaluate_well_typed_expression;
use pamc::misc::NormalFormId;

fn ident(s: &str) -> Identifier {
    Identifier { name: IdentifierName::Standard(s.to_string()) }
}

fn name(s: &str, i: usize) -> Expression {
    Expression::Name(NameExpression { components: vec![ident(s)], db_index: DbIndex(i) })
}

fn nf(e: Expression) -> NormalFormId {
    NormalFormId::unchecked_new(e)
}

fn call(callee: Expression, args: Vec<Expression>) -> Expression {
    Expression::Call(Box::new(Call { callee, args: CallArgList::Unlabeled(args) }))
}

fn param(s: &str, dashed: bool, type_: Expression) -> Param {
    Param { label: None, is_dashed: dashed, name: ident(s), type_ }
}

fn fun(f: &str, params: Vec<Param>, return_type: Expression, body: Expression) -> Expression {
    Expression::Fun(Box::new(Fun { name: ident(f), params, return_type, body, skip_type_checking_body: false }))
}

/// Type1, Type0, `type Nat { O: Nat, S(n: Nat): Nat }`, then `y: Nat`.
/// At the top: y = 0, S = 1, O = 2, Nat = 3, Type0 = 4, Type1 = 5.
fn nat_context() -> Context {
    let mut c = Context::with_builtins();
    c.push(ContextEntry {
        type_id: nf(name("Type", 0)),
        definition: ContextEntryDefinition::Adt { variant_name_list_id: vec![ident("O"), ident("S")] },
    });
    c.push(ContextEntry { type_id: nf(name("Nat", 0)), definition: ContextEntryDefinition::Variant { name_id: ident("O") } });
    c.push(ContextEntry {
        type_id: nf(Expression::Forall(Box::new(Forall {
            params: vec![param("n", false, name("Nat", 1))],
            output: name("Nat", 2),
        }))),
        definition: ContextEntryDefinition::Variant { name_id: ident("S") },
    });
    c.push(ContextEntry { type_id: nf(name("Nat", 2)), definition: ContextEntryDefinition::Uninterpreted });
    c
}

fn predecessor_match(matchee: Expression) -> Expression {
    // match matchee { O => O, S(p) => p }
    Expression::Match(Box::new(Match {
        matchee,
        cases: vec![
            MatchCase { variant_name: ident("O"), params: vec![], output: name("O", 2) },
            MatchCase { variant_name: ident("S"), params: vec![ident("p")], output: name("p", 0) },
        ],
    }))
}

#[test]
fn a_match_on_a_variant_picks_its_case() {
    let mut c = nat_context();
    let e = predecessor_match(call(name("S", 1), vec![name("O", 2)]));
    let r = evaluate_well_typed_expression(&mut c, &e, 1).unwrap();
    assert!(expressions_equal(r.raw_ref(), &name("O", 2)));
    assert_eq!(c.len(), 6);
}

#[test]
fn a_nullary_case_needs_no_fuel() {
    let mut c = nat_context();
    let e = predecessor_match(name("O", 2));
    let r = evaluate_well_typed_expression(&mut c, &e, 0).unwrap();
    assert!(expressions_equal(r.raw_ref(), &name("O", 2)));
}

#[test]
fn unfolding_a_case_with_arguments_needs_fuel() {
    let mut c = nat_context();
    let e = predecessor_match(call(name("S", 1), vec![name("O", 2)]));
    assert!(evaluate_well_typed_expression(&mut c, &e, 0).is_none());
    assert_eq!(c.len(), 6);
}

#[test]
fn a_match_on_a_variable_stays() {
    let mut c = nat_context();
    let e = predecessor_match(name("y", 0));
    let r = evaluate_well_typed_expression(&mut c, &e, 5).unwrap();
    assert!(expressions_equal(r.raw_ref(), &e));
}

#[test]
fn a_function_is_applied_to_its_arguments() {
    // (fun f(x: Nat): Nat { x })(O): in the return type Nat is 4; in the
    // body x is 1 and f is 0.
    let mut c = nat_context();
    let f = fun("f", vec![param("x", false, name("Nat", 3))], name("Nat", 4), name("x", 1));
    let e = call(f, vec![name("O", 2)]);
    let r = evaluate_well_typed_expression(&mut c, &e, 1).unwrap();
    assert!(expressions_equal(r.raw_ref(), &name("O", 2)));
    assert!(evaluate_well_typed_expression(&mut c, &e, 0).is_none());
}

#[test]
fn a_recursive_function_waits_for_a_variant() {
    // (fun f(-n: Nat): Nat { n })(y): y is not a variant, so the call stays.
    let mut c = nat_context();
    let f = fun("f", vec![param("n", true, name("Nat", 3))], name("Nat", 4), name("n", 1));
    let e = call(f, vec![name("y", 0)]);
    let r = evaluate_well_typed_expression(&mut c, &e, 3).unwrap();
    assert!(expressions_equal(r.raw_ref(), &e));
    // Given a variant, it unfolds.
    let f2 = fun("f", vec![param("n", true, name("Nat", 3))], name("Nat", 4), name("n", 1));
    let e2 = call(f2, vec![name("O", 2)]);
    let r2 = evaluate_well_typed_expression(&mut c, &e2, 1).unwrap();
    assert!(expressions_equal(r2.raw_ref(), &name("O", 2)));
}

#[test]
fn a_labeled_call_pairs_arguments_by_label() {
    // (fun f(a~x: Nat, b~z: Nat): Nat { z })(b: O, a: y): z is index 1 in the body.
    let mut c = nat_context();
    let f = fun(
        "f",
        vec![
            Param { label: Some(ident("a")), is_dashed: false, name: ident("x"), type_: name("Nat", 3) },
            Param { label: Some(ident("b")), is_dashed: false, name: ident("z"), type_: name("Nat", 4) },
        ],
        name("Nat", 5),
        name("z", 1),
    );
    let e = Expression::Call(Box::new(Call {
        callee: f,
        args: CallArgList::UniquelyLabeled(vec![
            LabeledCallArg::Explicit { label: ident("b"), value: name("O", 2) },
            LabeledCallArg::Implicit { label: ident("a"), db_index: DbIndex(0) },
        ]),
    }));
    let r = evaluate_well_typed_expression(&mut c, &e, 1).unwrap();
    assert!(expressions_equal(r.raw_ref(), &name("O", 2)));
}

#[test]
fn an_alias_is_replaced_by_its_value() {
    // let a = O; at the alias's own position O is index 2, at the top 3.
    let mut c = nat_context();
    c.push(ContextEntry { type_id: nf(name("Nat", 3)), definition: ContextEntryDefinition::Alias { value_id: nf(name("O", 2)) } });
    let r = evaluate_well_typed_expression(&mut c, &name("a", 0), 0).unwrap();
    assert!(expressions_equal(r.raw_ref(), &name("O", 3)));
}

#[test]
fn a_forall_has_its_parameter_types_normalised() {
    // forall (x: a) { a }, where a is an alias of Nat.
    let mut c = nat_context();
    c.push(ContextEntry { type_id: nf(name("Type", 4)), definition: ContextEntryDefinition::Alias { value_id: nf(name("Nat", 3)) } });
    let e = Expression::Forall(Box::new(Forall { params: vec![param("x", false, name("a", 0))], output: name("a", 1) }));
    let r = evaluate_well_typed_expression(&mut c, &e, 0).unwrap();
    let expected = Expression::Forall(Box::new(Forall { params: vec![param("x", false, name("Nat", 4))], output: name("Nat", 5) }));
    assert!(expressions_equal(r.raw_ref(), &expected));
    assert_eq!(c.len(), 7);
}
