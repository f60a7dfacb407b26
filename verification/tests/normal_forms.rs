use pamc::ast::{
    Call, CallArgList, DbIndex, Expression, Forall, Identifier, IdentifierName, NameExpression, Param,
};
use pamc::context::{Context, ContextEntry, ContextEntryDefinition};
use pamc::dynamic_substitution::{
    DynamicSubstitutionExpansionResult, expand_dynamic_substitution_shallow, get_concrete_substitution,
};
use pamc::equality::expressions_equal;
use pamc::misc::NormalFormId;
use pamc::normal_form::{
    PossibleArgListId, get_db_index_for_adt_variant_of_name, is_term_equal_to_a_trivially_empty_type,
    is_term_equal_to_type0_or_type1, is_variant_expression, try_as_normal_form_adt_expression,
    try_as_variant_expression,
};
use pamc::substitution_context::DynamicSubstitution;
use pamc::dynamic_substitution::fuse_left_to_right;

fn ident(s: &str) -> Identifier {
    Identifier { name: IdentifierName::Standard(s.to_string()) }
}

fn name(s: &str, i: usize) -> Expression {
    Expression::Name(NameExpression { components: vec![ident(s)], db_index: DbIndex(i) })
}

fn nf(e: Expression) -> NormalFormId {
    NormalFormId::unchecked_new(e)
}

fn call(callee: Expression, args: Vec<Expression>) -> Expression {
    Expression::Call(Box::new(Call { callee, args: CallArgList::Unlabeled(args) }))
}

/// Type1, Type0, `type Nat { O: Nat, S(n: Nat): Nat }`, then `y: Nat`.
/// At the top: y = 0, S = 1, O = 2, Nat = 3, Type0 = 4, Type1 = 5.
fn nat_context() -> Context {
    let mut c = Context::with_builtins();
    c.push(ContextEntry {
        type_id: nf(name("Type", 0)),
        definition: ContextEntryDefinition::Adt { variant_name_list_id: vec![ident("O"), ident("S")] },
    });
    c.push(ContextEntry { type_id: nf(name("Nat", 0)), definition: ContextEntryDefinition::Variant { name_id: ident("O") } });
    c.push(ContextEntry {
        type_id: nf(Expression::Forall(Box::new(Forall {
            params: vec![Param { label: None, is_dashed: false, name: ident("n"), type_: name("Nat", 1) }],
            output: name("Nat", 2),
        }))),
        definition: ContextEntryDefinition::Variant { name_id: ident("S") },
    });
    c.push(ContextEntry { type_id: nf(name("Nat", 2)), definition: ContextEntryDefinition::Uninterpreted });
    c
}

#[test]
fn context_types_are_relative_to_the_top() {
    let c = nat_context();
    assert_eq!(c.len(), 6);
    assert_eq!(c.type0_dbi(), DbIndex(4));
    assert_eq!(c.type1_dbi(), DbIndex(5));
    // The type of `y` is `Nat`, three entries down from the top.
    assert!(expressions_equal(c.get_type(DbIndex(0)).raw_ref(), &name("Nat", 3)));
    // The type of `O`, `Nat` stored at its own position, reads `Nat` at index 3 from the top.
    assert!(expressions_equal(c.get_type(DbIndex(2)).raw_ref(), &name("Nat", 3)));
    match c.get_definition(DbIndex(3)) {
        ContextEntryDefinition::Adt { variant_name_list_id } => assert_eq!(variant_name_list_id.len(), 2),
        _ => panic!("expected an ADT"),
    }
}

#[test]
fn type0_and_type1_are_recognised() {
    let c = nat_context();
    assert!(is_term_equal_to_type0_or_type1(&c, &nf(name("Type", 4))));
    assert!(is_term_equal_to_type0_or_type1(&c, &nf(name("Type1", 5))));
    assert!(!is_term_equal_to_type0_or_type1(&c, &nf(name("Nat", 3))));
}

#[test]
fn variant_and_adt_heads_are_recognised() {
    let c = nat_context();
    let s_of_o = call(name("S", 1), vec![name("O", 2)]);
    match try_as_variant_expression(&c, &s_of_o) {
        Some((variant, PossibleArgListId::WithArgs(CallArgList::Unlabeled(args)))) => {
            assert!(matches!(&variant.name, IdentifierName::Standard(s) if s == "S"));
            assert_eq!(args.len(), 1);
        }
        _ => panic!("expected a variant application"),
    }
    assert!(is_variant_expression(&c, &nf(name("O", 2))));
    assert!(!is_variant_expression(&c, &nf(name("y", 0))));
    let adt = try_as_normal_form_adt_expression(&c, &nf(name("Nat", 3))).expect("Nat is an ADT");
    assert_eq!(adt.type_name_id.db_index, DbIndex(3));
    assert_eq!(adt.variant_name_list_id.len(), 2);
    assert!(!is_term_equal_to_a_trivially_empty_type(&c, &nf(name("Nat", 3))));
    assert_eq!(get_db_index_for_adt_variant_of_name(&c, &adt, &ident("O")), DbIndex(2));
    assert_eq!(get_db_index_for_adt_variant_of_name(&c, &adt, &ident("S")), DbIndex(1));
}

#[test]
fn empty_type_is_trivially_empty() {
    let mut c = nat_context();
    c.push(ContextEntry {
        type_id: nf(name("Type", 4)),
        definition: ContextEntryDefinition::Adt { variant_name_list_id: vec![] },
    });
    assert!(is_term_equal_to_a_trivially_empty_type(&c, &nf(name("Empty", 0))));
}

#[test]
fn equal_sides_give_no_substitution() {
    let c = nat_context();
    let d = DynamicSubstitution(nf(name("y", 0)), nf(name("y", 0)));
    assert!(get_concrete_substitution(&c, &d).is_none());
}

#[test]
fn the_side_inside_the_other_replaces_it() {
    let c = nat_context();
    let d = DynamicSubstitution(nf(name("y", 0)), nf(call(name("S", 1), vec![name("y", 0)])));
    let s = get_concrete_substitution(&c, &d).expect("a substitution");
    assert!(expressions_equal(&s.from, &call(name("S", 1), vec![name("y", 0)])));
    assert!(expressions_equal(&s.to, &name("y", 0)));
}

#[test]
fn a_variant_replaces_a_variable() {
    let c = nat_context();
    let d = DynamicSubstitution(nf(name("y", 0)), nf(name("O", 2)));
    let s = get_concrete_substitution(&c, &d).expect("a substitution");
    assert!(expressions_equal(&s.from, &name("y", 0)));
    assert!(expressions_equal(&s.to, &name("O", 2)));
}

#[test]
fn the_side_with_the_smaller_free_index_is_replaced() {
    let c = nat_context();
    let d = DynamicSubstitution(nf(name("Nat", 3)), nf(name("y", 0)));
    let s = get_concrete_substitution(&c, &d).expect("a substitution");
    assert!(expressions_equal(&s.from, &name("y", 0)));
    assert!(expressions_equal(&s.to, &name("Nat", 3)));
}

#[test]
fn same_variant_expands_to_its_arguments() {
    let c = nat_context();
    let d = DynamicSubstitution(nf(call(name("S", 1), vec![name("O", 2)])), nf(call(name("S", 1), vec![name("y", 0)])));
    match expand_dynamic_substitution_shallow(&c, &d) {
        DynamicSubstitutionExpansionResult::Replace(subs) => {
            assert_eq!(subs.len(), 1);
            assert!(expressions_equal(subs[0].0.raw_ref(), &name("O", 2)));
            assert!(expressions_equal(subs[0].1.raw_ref(), &name("y", 0)));
        }
        _ => panic!("expected a replacement"),
    }
}

#[test]
fn different_variants_explode() {
    let c = nat_context();
    let d = DynamicSubstitution(nf(name("O", 2)), nf(call(name("S", 1), vec![name("y", 0)])));
    assert!(matches!(expand_dynamic_substitution_shallow(&c, &d), DynamicSubstitutionExpansionResult::Exploded));
}

#[test]
fn a_no_op_expands_to_nothing() {
    let c = nat_context();
    let d = DynamicSubstitution(nf(name("y", 0)), nf(name("y", 0)));
    match expand_dynamic_substitution_shallow(&c, &d) {
        DynamicSubstitutionExpansionResult::Replace(subs) => assert!(subs.is_empty()),
        _ => panic!("expected an empty replacement"),
    }
}

#[test]
fn a_variable_and_a_variant_give_a_concrete_substitution() {
    let c = nat_context();
    let d = DynamicSubstitution(nf(name("y", 0)), nf(name("O", 2)));
    match expand_dynamic_substitution_shallow(&c, &d) {
        DynamicSubstitutionExpansionResult::ApplyConcrete(s) => {
            assert!(expressions_equal(&s.from, &name("y", 0)));
            assert!(expressions_equal(&s.to, &name("O", 2)));
        }
        _ => panic!("expected a concrete substitution"),
    }
}

#[test]
fn fusion_of_the_same_variant_pairs_up_arguments() {
    let c = nat_context();
    let l = nf(call(name("S", 1), vec![name("y", 0)]));
    let r = nf(call(name("S", 1), vec![call(name("S", 1), vec![name("O", 2)])]));
    let fusion = fuse_left_to_right(&c, &l, &r);
    assert!(!fusion.has_exploded);
    assert_eq!(fusion.substitutions.len(), 1);
    assert!(expressions_equal(fusion.substitutions[0].0.raw_ref(), &name("y", 0)));
}

#[test]
fn fusion_of_different_variants_explodes() {
    let c = nat_context();
    let fusion = fuse_left_to_right(&c, &nf(name("O", 2)), &nf(call(name("S", 1), vec![name("y", 0)])));
    assert!(fusion.has_exploded);
    assert!(fusion.substitutions.is_empty());
}

#[test]
fn fusion_nested_explosion_propagates() {
    let c = nat_context();
    let l = nf(call(name("S", 1), vec![name("O", 2)]));
    let r = nf(call(name("S", 1), vec![call(name("S", 1), vec![name("y", 0)])]));
    let fusion = fuse_left_to_right(&c, &l, &r);
    assert!(fusion.has_exploded);
}

#[test]
fn a_no_op_between_variant_applications_expands_to_nothing() {
    let c = nat_context();
    let d = DynamicSubstitution(
        nf(call(name("S", 1), vec![name("y", 0)])),
        nf(call(name("S", 1), vec![name("y", 0)])),
    );
    match expand_dynamic_substitution_shallow(&c, &d) {
        DynamicSubstitutionExpansionResult::Replace(subs) => assert!(subs.is_empty()),
        _ => panic!("expected an empty replacement"),
    }
}
