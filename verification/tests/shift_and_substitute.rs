use pamc::ast::{
    Call, CallArgList, DbIndex, Expression, Forall, Fun, Identifier, IdentifierName, LabeledCallArg,
    NameExpression, Param,
};
use pamc::equality::expressions_equal;
use pamc::shift::{DbIndexTooSmallForDownshiftError, DownshiftFn, ShiftFn, UpshiftFn, try_shift_expression};
use pamc::shift_trait::ShiftDbIndices;
use pamc::substitute::{Substitution, subst_expression, subst_if_equal_and_get_status};
use pamc::bishift::{Bishift, bishift};
use pamc::min_db_index::min_free_db_index_in_expression;
use pamc::substitute::subst_all;
use pamc::substitute::subst_in_place_and_get_status;

fn ident(s: &str) -> Identifier {
    Identifier { name: IdentifierName::Standard(s.to_string()) }
}

fn name(s: &str, i: usize) -> Expression {
    Expression::Name(NameExpression { components: vec![ident(s)], db_index: DbIndex(i) })
}

fn call(callee: Expression, args: Vec<Expression>) -> Expression {
    Expression::Call(Box::new(Call { callee, args: CallArgList::Unlabeled(args) }))
}

fn param(s: &str, type_: Expression) -> Param {
    Param { label: None, is_dashed: false, name: ident(s), type_ }
}

fn forall_of(params: Vec<Param>, output: Expression) -> Expression {
    Expression::Forall(Box::new(Forall { params, output }))
}

fn index_of(e: &Expression) -> usize {
    match e {
        Expression::Name(n) => n.db_index.0,
        _ => panic!("not a name"),
    }
}

#[test]
fn upshift_leaves_indices_below_the_cutoff() {
    let f = UpshiftFn(3);
    assert_eq!(f.try_apply(DbIndex(1), 2), Ok(DbIndex(1)));
    assert_eq!(f.try_apply(DbIndex(2), 2), Ok(DbIndex(5)));
}

#[test]
fn downshift_fails_on_a_free_index_smaller_than_the_amount() {
    let f = DownshiftFn(3);
    assert_eq!(
        f.try_apply(DbIndex(1), 0),
        Err(DbIndexTooSmallForDownshiftError { db_index: DbIndex(1), downshift_amount: 3 })
    );
    assert_eq!(f.try_apply(DbIndex(4), 0), Ok(DbIndex(1)));
    assert_eq!(f.try_apply(DbIndex(1), 2), Ok(DbIndex(1)));
}

#[test]
fn upshift_renumbers_only_free_variables() {
    // forall (x: 0) { x 1 }: the parameter type sees index 0 as free; in the
    // output, 0 is `x` and 1 is free.
    let e = forall_of(vec![param("x", name("T", 0))], call(name("x", 0), vec![name("y", 1)]));
    let shifted = e.upshift(2);
    match &shifted {
        Expression::Forall(fa) => {
            assert_eq!(index_of(&fa.params[0].type_), 2);
            match &fa.output {
                Expression::Call(c) => {
                    assert_eq!(index_of(&c.callee), 0);
                    match &c.args {
                        CallArgList::Unlabeled(args) => assert_eq!(index_of(&args[0]), 3),
                        _ => panic!("unexpected labels"),
                    }
                }
                _ => panic!("not a call"),
            }
        }
        _ => panic!("not a forall"),
    }
}

#[test]
fn downshift_undoes_upshift() {
    let e = call(name("f", 4), vec![name("a", 0), name("b", 7)]);
    for amount in 0..4 {
        let up = e.upshift(amount);
        let back = up.try_downshift(amount).unwrap();
        assert!(expressions_equal(&back, &e));
    }
}

#[test]
fn downshift_reports_the_first_index_too_small() {
    let e = call(name("f", 5), vec![name("a", 1), name("b", 0)]);
    match try_shift_expression(&e, DownshiftFn(2), 0) {
        Err(err) => assert_eq!(err, DbIndexTooSmallForDownshiftError { db_index: DbIndex(1), downshift_amount: 2 }),
        Ok(_) => panic!("expected an error"),
    }
}

#[test]
fn implicit_labeled_argument_is_shifted() {
    let e = Expression::Call(Box::new(Call {
        callee: name("f", 0),
        args: CallArgList::UniquelyLabeled(vec![LabeledCallArg::Implicit { label: ident("n"), db_index: DbIndex(2) }]),
    }));
    let up = e.upshift(1);
    match &up {
        Expression::Call(c) => match &c.args {
            CallArgList::UniquelyLabeled(args) => match &args[0] {
                LabeledCallArg::Implicit { db_index, .. } => assert_eq!(*db_index, DbIndex(3)),
                _ => panic!("became explicit"),
            },
            _ => panic!("lost labels"),
        },
        _ => panic!("not a call"),
    }
}

#[test]
fn substitution_replaces_every_occurrence() {
    let e = call(name("f", 0), vec![name("a", 1), name("a", 1)]);
    let s = Substitution { from: name("a", 1), to: name("b", 2) };
    let r = subst_expression(&e, &s);
    let expected = call(name("f", 0), vec![name("b", 2), name("b", 2)]);
    assert!(expressions_equal(&r, &expected));
}

#[test]
fn substitution_under_a_binder_shifts_both_sides() {
    // forall (x: T) { a } with a = 1 at the root becomes index 2 under the binder.
    let e = forall_of(vec![param("x", name("T", 0))], name("a", 2));
    let s = Substitution { from: name("a", 1), to: name("b", 3) };
    let r = subst_expression(&e, &s);
    let expected = forall_of(vec![param("x", name("T", 0))], name("b", 4));
    assert!(expressions_equal(&r, &expected));
}

#[test]
fn substitution_by_itself_changes_nothing() {
    let e = call(name("f", 0), vec![name("a", 1), forall_of(vec![param("x", name("a", 1))], name("a", 2))]);
    let s = Substitution { from: name("a", 1), to: name("a", 1) };
    let r = subst_expression(&e, &s);
    assert!(expressions_equal(&r, &e));
}

#[test]
fn substitution_status_reports_a_no_op() {
    let e = name("c", 5);
    let s = Substitution { from: name("a", 1), to: name("b", 2) };
    let (r, status) = subst_if_equal_and_get_status(&e, &s);
    assert!(expressions_equal(&r, &e));
    assert!(status.0);
    let (r2, status2) = subst_if_equal_and_get_status(&name("a", 1), &s);
    assert!(expressions_equal(&r2, &name("b", 2)));
    assert!(!status2.0);
}

#[test]
fn fun_body_is_shifted_past_the_function_itself() {
    // fun f(x: T): T { y }: the body sees x and f, so y's free index 5 at the
    // root reads 5 + 2 = 7 there; upshifting by 1 makes it 8.
    let e = Expression::Fun(Box::new(Fun {
        name: ident("f"),
        params: vec![param("x", name("T", 0))],
        return_type: name("T", 1),
        body: name("y", 7),
        skip_type_checking_body: false,
    }));
    let up = e.upshift(1);
    match &up {
        Expression::Fun(f) => {
            assert_eq!(index_of(&f.params[0].type_), 1);
            assert_eq!(index_of(&f.return_type), 2);
            assert_eq!(index_of(&f.body), 8);
        }
        _ => panic!("not a fun"),
    }
}

#[test]
fn bishift_rotates_indices_below_the_pivot() {
    let f = Bishift::new(1, DbIndex(3));
    assert_eq!(f.distance(), 2);
    assert_eq!(f.try_apply(DbIndex(0), 0), Ok(DbIndex(2)));
    assert_eq!(f.try_apply(DbIndex(1), 0), Ok(DbIndex(0)));
    assert_eq!(f.try_apply(DbIndex(2), 0), Ok(DbIndex(1)));
    assert_eq!(f.try_apply(DbIndex(3), 0), Ok(DbIndex(3)));
    assert_eq!(f.try_apply(DbIndex(0), 1), Ok(DbIndex(0)));
    let e = call(name("f", 0), vec![name("a", 1), name("b", 2), name("c", 5)]);
    let rotated = bishift(&e, 1, DbIndex(3));
    let expected = call(name("f", 2), vec![name("a", 0), name("b", 1), name("c", 5)]);
    assert!(expressions_equal(&rotated, &expected));
    // Rotating by the rest of the indices below the pivot undoes it.
    let back = bishift(&rotated, 2, DbIndex(3));
    assert!(expressions_equal(&back, &e));
}

#[test]
fn substitutions_apply_in_order() {
    let e = call(name("f", 0), vec![name("a", 1)]);
    let subs = vec![
        Substitution { from: name("a", 1), to: name("b", 2) },
        Substitution { from: name("b", 2), to: name("c", 3) },
    ];
    let r = subst_all(&e, &subs);
    assert!(expressions_equal(&r, &call(name("f", 0), vec![name("c", 3)])));
}

#[test]
fn in_place_substitution_reports_whether_anything_changed() {
    let mut e = call(name("f", 0), vec![name("a", 1)]);
    let changed = subst_in_place_and_get_status(&mut e, &Substitution { from: name("a", 1), to: name("b", 2) });
    assert!(!changed.0);
    assert!(expressions_equal(&e, &call(name("f", 0), vec![name("b", 2)])));
    let unchanged = subst_in_place_and_get_status(&mut e, &Substitution { from: name("z", 9), to: name("b", 2) });
    assert!(unchanged.0);
}

#[test]
fn upshift_raises_the_least_free_index() {
    let e = forall_of(vec![param("x", name("T", 4))], call(name("x", 0), vec![name("y", 3)]));
    let before = min_free_db_index_in_expression(&e);
    assert_eq!(before, DbIndex(2));
    let after = min_free_db_index_in_expression(&e.upshift(5));
    assert_eq!(after, DbIndex(7));
}

#[test]
fn substitution_of_an_absent_expression_changes_nothing() {
    let e = forall_of(vec![param("x", name("T", 4))], call(name("x", 0), vec![name("y", 3)]));
    let s = Substitution { from: name("z", 9), to: name("w", 1) };
    assert!(expressions_equal(&subst_expression(&e, &s), &e));
}

#[test]
fn two_upshifts_are_one_upshift_by_the_sum() {
    let e = forall_of(vec![param("x", name("T", 0))], call(name("x", 0), vec![name("y", 1), name("z", 4)]));
    let twice = e.upshift(2).upshift(3);
    let once = e.upshift(5);
    assert!(expressions_equal(&twice, &once));
    let at_cutoff_twice = e.upshift_with_cutoff(1, 1).upshift_with_cutoff(2, 1);
    let at_cutoff_once = e.upshift_with_cutoff(3, 1);
    assert!(expressions_equal(&at_cutoff_twice, &at_cutoff_once));
    assert!(!expressions_equal(&at_cutoff_once, &once));
}
