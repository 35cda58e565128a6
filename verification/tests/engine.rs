//! The unifier, the subtyping search, reduction, instantiation and the proof
//! loop, exercised on concrete scenarios.

use typesys::batch::Test;
use typesys::logic::stmt::Stmt;
use typesys::logic::Logic;
use typesys::state::TypeSystem;
use typesys::ty::args::GeneircArgsExt;
use typesys::ty::{Named, Type};

fn named(name: &str) -> Type {
    Type::Named(Named { name: name.to_string(), args: vec![] })
}

fn named1(name: &str, arg: Type) -> Type {
    Type::Named(Named { name: name.to_string(), args: vec![arg] })
}

fn basic_ts() -> TypeSystem {
    let mut ts = TypeSystem::new();
    ts.parse_decl("Int").expect("parse_decl failed");
    ts.parse_decl("Number").expect("parse_decl failed");
    ts.parse_decl("List[T]").expect("parse_decl failed");
    ts
}

#[test]
fn test_exactly_reflexive_concrete() {
    let mut ts = basic_ts();
    let a = ts.parse_type("List[Int]").expect("parse_type failed");
    let b = ts.parse_type("List[Int]").expect("parse_type failed");
    assert_eq!(a.is_exactly(&b, &mut ts, true), Logic::True);
    assert_eq!(a.is_exactly(&b, &mut ts, false), Logic::True);
}

#[test]
fn test_exactly_distinct_names() {
    let mut ts = basic_ts();
    let a = named("Int");
    let b = named("Number");
    assert_eq!(a.is_exactly(&b, &mut ts, true), Logic::False);
    assert_eq!(a.is_exactly(&b, &mut ts, false), Logic::False);
}

#[test]
fn test_exactly_free_var_binds_with_infer() {
    let mut ts = basic_ts();
    let v = ts.parse_type("_").expect("parse_type failed");
    assert_eq!(v, Type::Var(0));
    let a = named("Int");
    assert_eq!(a.is_exactly(&v, &mut ts, true), Logic::True);
    assert_eq!(ts.resolve(0), Some(named("Int")));
}

#[test]
fn test_exactly_free_var_defers_without_infer() {
    let mut ts = basic_ts();
    let v = ts.parse_type("_").expect("parse_type failed");
    let a = named("Int");
    let r = a.is_exactly(&v, &mut ts, false);
    assert_eq!(r, Logic::Stmt(Stmt::Exactly { ty: named("Int"), is: Type::Var(0) }));
    assert_eq!(ts.resolve(0), None);
}

#[test]
fn test_bound_by_reflexive() {
    let mut ts = basic_ts();
    let a = named("Int");
    let b = named("Int");
    match (&a, &b) {
        (Type::Named(x), Type::Named(y)) => {
            let paths = x.paths_to_sub_ty(y, &ts);
            assert_eq!(paths.len(), 1);
            assert_eq!(paths[0].len(), 0);
        },
        _ => unreachable!(),
    }
    assert_eq!(a.is_bound_by(&b, &mut ts, true), Logic::True);
}

#[test]
fn test_bound_by_single_edge() {
    let mut ts = basic_ts();
    ts.parse_impl("[] Number for Int").expect("parse_impl failed");
    let int = named("Int");
    let number = named("Number");
    match (&int, &number) {
        (Type::Named(x), Type::Named(y)) => {
            assert_eq!(x.paths_to_sub_ty(y, &ts).len(), 1);
            assert_eq!(y.paths_to_sub_ty(x, &ts).len(), 0);
        },
        _ => unreachable!(),
    }
    assert_eq!(int.is_bound_by(&number, &mut ts, true), Logic::True);
    assert_eq!(number.is_bound_by(&int, &mut ts, true), Logic::False);
}

#[test]
fn test_bound_by_generic_propagation() {
    let mut ts = TypeSystem::new();
    ts.parse_decl("Int").expect("parse_decl failed");
    ts.parse_decl("Number").expect("parse_decl failed");
    ts.parse_decl("Container[T]").expect("parse_decl failed");
    ts.parse_decl("Iterable[T]").expect("parse_decl failed");
    ts.parse_impl("[T] Iterable[T] for Container[T]").expect("parse_impl failed");
    let c_int = named1("Container", named("Int"));
    let i_int = named1("Iterable", named("Int"));
    assert_eq!(c_int.is_bound_by(&i_int, &mut ts, true), Logic::True);
    let c_number = named1("Container", named("Number"));
    assert_eq!(c_number.is_bound_by(&c_int, &mut ts, true), Logic::False);
}

#[test]
fn test_inst_allocates_fresh_variables() {
    let mut ts = basic_ts();
    let t = named("List");
    let r = t.inst(&mut ts);
    assert_eq!(r, named1("List", Type::Var(0)));
    assert_eq!(ts.counter, 1);
    assert_eq!(ts.type_vars.len(), 1);
    assert_eq!(ts.bounds.len(), 0);
    assert_eq!(ts.resolve(0), None);
}

#[test]
fn test_inst_keeps_supplied_argument() {
    let mut ts = basic_ts();
    let t = named1("List", named("Int"));
    let r = t.inst(&mut ts);
    assert_eq!(r, named1("List", named("Int")));
    assert_eq!(ts.counter, 0);
}

#[test]
fn test_reduce_constants() {
    let mut ts = basic_ts();
    assert_eq!(Logic::True.reduce(&mut ts, true), Logic::True);
    assert_eq!(Logic::False.reduce(&mut ts, true), Logic::False);
}

#[test]
fn test_reduce_oneof_all_false() {
    let mut ts = basic_ts();
    let f = Logic::OneOf(vec![Logic::False, Logic::False]);
    assert_eq!(f.reduce(&mut ts, true), Logic::False);
}

#[test]
fn test_reduce_oneof_forced_branch() {
    let mut ts = basic_ts();
    let v = ts.parse_type("_").expect("parse_type failed");
    let residual = Stmt::Exactly { ty: named("Int"), is: v };
    let f = Logic::OneOf(vec![
        Logic::False,
        Logic::False,
        Logic::Stmt(residual),
    ]);
    // The only live branch is returned as explored, without inference: the
    // variable stays unresolved.
    let r = f.reduce(&mut ts, true);
    assert_eq!(r, Logic::Stmt(Stmt::Exactly { ty: named("Int"), is: Type::Var(0) }));
    assert_eq!(ts.resolve(0), None);
}

#[test]
fn test_reduce_allof_absorbs() {
    let mut ts = basic_ts();
    let a = named("Int");
    let b = named("Int");
    let f = Logic::AllOf(vec![
        Logic::Stmt(Stmt::Exactly { ty: a, is: b }),
        Logic::True,
    ]);
    assert_eq!(f.reduce(&mut ts, true), Logic::True);
}

#[test]
fn test_no_covariance_end_to_end() {
    let mut ts = basic_ts();
    ts.parse_impl("[] Number for Int").expect("parse_impl failed");
    let list_int = ts.parse_type("List[Int]").expect("parse_type failed");
    let list_number = ts.parse_type("List[Number]").expect("parse_type failed");
    let goal = Logic::Stmt(Stmt::Extends { sub: list_int, super_: list_number });
    assert_eq!(goal.solve(&mut ts), Logic::False);
}

#[test]
fn test_add_goal_accumulates_and_reduces() {
    let mut ts = basic_ts();
    let a = named("Int");
    let b = named("Int");
    ts.add_goal(Logic::Stmt(Stmt::Exactly { ty: a, is: b }));
    assert_eq!(ts.goal, Logic::True);
    ts.add_goal(Logic::Stmt(Stmt::Exactly { ty: named("Int"), is: named("Number") }));
    assert_eq!(ts.goal, Logic::False);
}

#[test]
fn test_goal_binds_variable_through_inference() {
    let mut ts = basic_ts();
    let v = ts.parse_type("_").expect("parse_type failed");
    ts.add_goal(Logic::Stmt(Stmt::Exactly { ty: v, is: named("Int") }));
    assert_eq!(ts.goal, Logic::True);
    assert_eq!(ts.resolve(0), Some(named("Int")));
}

#[test]
fn test_resolve_rewrites_bound_variables() {
    let mut ts = basic_ts();
    let v = ts.parse_type("_").expect("parse_type failed");
    let inner = named1("List", v);
    ts.add_goal(Logic::Stmt(Stmt::Exactly { ty: Type::Var(0), is: named("Int") }));
    let r = inner.resolve(&ts);
    assert_eq!(r, named1("List", named("Int")));
}

#[test]
fn test_resolve_chases_chained_bindings() {
    let mut ts = basic_ts();
    let v0 = ts.parse_type("_").expect("parse_type failed");
    let v1 = ts.parse_type("_").expect("parse_type failed");
    // Unifying two unresolved variables links the second to the first.
    assert_eq!(v0.is_exactly(&v1, &mut ts, true), Logic::True);
    assert_eq!(ts.resolve(1), Some(Type::Var(0)));
    // Binding the first then resolves the second through the chain.
    assert_eq!(named("Int").is_exactly(&Type::Var(0), &mut ts, true), Logic::True);
    assert_eq!(Type::Var(1).resolve(&ts), named("Int"));
    // Resolution is idempotent: the result resolves to itself.
    assert_eq!(Type::Var(1).resolve(&ts).resolve(&ts), named("Int"));
    assert_eq!(named1("List", Type::Var(1)).resolve(&ts), named1("List", named("Int")));
}

#[test]
fn test_batch_run_passes() {
    let mut ts = basic_ts();
    ts.parse_impl("[] Number for Int").expect("parse_impl failed");
    let goal = Logic::Stmt(Stmt::Extends { sub: named("Int"), super_: named("Number") });
    let t = Test { ts, goals: vec![goal], expected: Logic::True };
    assert!(t.passes());
}

#[test]
fn test_batch_run_detects_mismatch() {
    let ts = basic_ts();
    let goal = Logic::Stmt(Stmt::Exactly { ty: named("Int"), is: named("Number") });
    let t = Test { ts, goals: vec![goal], expected: Logic::True };
    assert!(!t.passes());
}

#[test]
fn test_pretty_rendering() {
    let t = named1("List", Type::Var(7));
    assert_eq!(t.pretty(), "List[$7]");
    assert_eq!(Logic::True.pretty(), "true");
    let f = Logic::OneOf(vec![
        Logic::Stmt(Stmt::Exactly { ty: named("Int"), is: named("Number") }),
        Logic::False,
    ]);
    assert_eq!(f.pretty(), "(Int = Number | false)");
    let s = Stmt::Extends { sub: named("Int"), super_: named("Number") };
    assert_eq!(s.pretty(), "Int: Number");
}

#[test]
fn test_generics_render() {
    let gs: Vec<String> = vec!["T".to_string(), "U".to_string()];
    assert_eq!(gs.get_string(), "[T, U]");
    let none: Vec<String> = vec![];
    assert_eq!(none.get_string(), "");
}

#[test]
fn test_extends_defers_on_unresolved_variable() {
    let mut ts = basic_ts();
    ts.parse_impl("[] Number for Int").expect("parse_impl failed");
    let v = ts.parse_type("_").expect("parse_type failed");
    let goal = Logic::Stmt(Stmt::Extends { sub: v, super_: named("Number") });
    // Nothing is known about the variable yet: the obligation is deferred
    // unchanged rather than decided.
    let r = goal.reduce(&mut ts, true);
    assert_eq!(
        r,
        Logic::Stmt(Stmt::Extends { sub: Type::Var(0), super_: named("Number") })
    );
}

#[test]
fn test_fixed_point_resolves_then_decides() {
    let mut ts = basic_ts();
    ts.parse_impl("[] Number for Int").expect("parse_impl failed");
    let v = ts.parse_type("_").expect("parse_type failed");
    let goal = Logic::AllOf(vec![
        Logic::Stmt(Stmt::Exactly { ty: v, is: named("Int") }),
        Logic::Stmt(Stmt::Extends { sub: Type::Var(0), super_: named("Number") }),
    ]);
    // The first pass binds the variable; the next pass chases it and finds
    // the derivation through the implementation edge.
    assert_eq!(goal.solve(&mut ts), Logic::True);
    assert_eq!(ts.resolve(0), Some(named("Int")));
}

#[test]
fn test_impl_map_infers_bindings() {
    let mut ts = TypeSystem::new();
    ts.parse_decl("Int").expect("parse_decl failed");
    ts.parse_decl("Container[T]").expect("parse_decl failed");
    ts.parse_decl("Iterable[T]").expect("parse_decl failed");
    ts.parse_impl("[T] Iterable[T] for Container[T]").expect("parse_impl failed");
    let source = Named { name: "Container".to_string(), args: vec![named("Int")] };
    let (derived, residue) = ts.impls[0].map(&source).expect("pattern match failed");
    assert_eq!(derived, Named { name: "Iterable".to_string(), args: vec![named("Int")] });
    assert_eq!(residue.len(), 0);
}

#[test]
fn test_impl_map_rejects_inconsistent_bindings() {
    let mut ts = TypeSystem::new();
    ts.parse_decl("Int").expect("parse_decl failed");
    ts.parse_decl("Number").expect("parse_decl failed");
    ts.parse_decl("Pair[A, B]").expect("parse_decl failed");
    ts.parse_decl("Same[T]").expect("parse_decl failed");
    ts.parse_impl("[T] Same[T] for Pair[T,T]").expect("parse_impl failed");
    let mismatched = Named {
        name: "Pair".to_string(),
        args: vec![named("Int"), named("Number")],
    };
    assert!(ts.impls[0].map(&mismatched).is_none());
    let matched = Named { name: "Pair".to_string(), args: vec![named("Int"), named("Int")] };
    assert!(ts.impls[0].map(&matched).is_some());
}

#[test]
fn test_bound_parameterise_substitutes_both_sides() {
    let mut ts = TypeSystem::new();
    ts.parse_decl("Int").expect("parse_decl failed");
    let bound = typesys::ty::bound::Bound {
        sub: Type::Generic("T".to_string()),
        super_: named("Int"),
    };
    let params = vec![("T".to_string(), named("Int"))];
    let b2 = bound.parameterise(&params);
    assert_eq!(b2.sub, named("Int"));
    assert_eq!(b2.super_, named("Int"));
}
