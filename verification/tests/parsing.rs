//! Parsing declarations, types and implementation edges.

use typesys::state::TypeSystem;
use typesys::ty::parse::{ErrorDetail, Expected, ParseError};
use typesys::ty::{Named, Type};

fn basic_ts() -> TypeSystem {
    let mut ts = TypeSystem::new();
    ts.parse_decl("Int").expect("parse_decl failed");
    ts.parse_decl("String").expect("parse_decl failed");
    ts.parse_decl("Number").expect("parse_decl failed");
    ts.parse_decl("List[T]").expect("parse_decl failed");
    ts
}

#[test]
fn test_create_basic_decl() {
    let mut ts = TypeSystem::new();
    assert_eq!(ts.parse_decl("Int"), Ok(()));
    assert_eq!(
        ts.parse_decl(""),
        Err(ParseError {
            message: ErrorDetail::Expected { one_of: vec![Expected::Ident], found: None },
            offset: 0,
        })
    );
    assert_eq!(
        ts.parse_decl("Int"),
        Err(ParseError { message: ErrorDetail::DeclAlreadyDefined("Int".to_string()), offset: 3 })
    );
    let int = ts.get_decl(&"Int".to_string()).expect("decl not found");
    assert_eq!(int.args.len(), 0);
    assert_eq!(int.bounds.len(), 0);
}

#[test]
fn test_create_generic_decl() {
    let mut ts = TypeSystem::new();
    assert_eq!(ts.parse_decl("List[T]"), Ok(()));
    let hello = ts.get_decl(&"List".to_string()).expect("decl not found");
    assert_eq!(hello.args.len(), 1);
    assert_eq!(hello.bounds.len(), 0);
}

#[test]
fn test_create_type() {
    let mut ts = basic_ts();
    assert_eq!(
        ts.parse_type("String"),
        Ok(Type::Named(Named { name: "String".to_string(), args: vec![] }))
    );
}

#[test]
fn test_create_generic_type() {
    let mut ts = basic_ts();
    assert_eq!(
        ts.parse_type("List[Int]"),
        Ok(Type::Named(Named {
            name: "List".to_string(),
            args: vec![Type::Named(Named { name: "Int".to_string(), args: vec![] })],
        }))
    );
}

#[test]
fn test_create_impl() {
    let mut ts = basic_ts();
    assert_eq!(ts.parse_impl("[] Number for Int"), Ok(()));
    assert_eq!(ts.impls.len(), 1);
    let impl_ = &ts.impls[0];
    assert_eq!(impl_.to, Named { name: "Number".to_string(), args: vec![] });
    assert_eq!(impl_.from, Named { name: "Int".to_string(), args: vec![] });
    assert_eq!(impl_.args.len(), 0);
}

#[test]
fn test_undeclared_name_is_rejected() {
    let mut ts = basic_ts();
    let r = ts.parse_type("Missing");
    assert_eq!(
        r,
        Err(ParseError { message: ErrorDetail::DeclNotFound("Missing".to_string()), offset: 7 })
    );
}

#[test]
fn test_arity_mismatch_is_rejected() {
    let mut ts = basic_ts();
    let r = ts.parse_type("List");
    assert_eq!(
        r,
        Err(ParseError {
            message: ErrorDetail::ArgsMismatch {
                name: "List".to_string(),
                expected: 1,
                got: 0,
            },
            offset: 4,
        })
    );
}

#[test]
fn test_duplicate_generic_is_rejected() {
    let mut ts = TypeSystem::new();
    let r = ts.parse_decl("Pair[T, T]");
    assert_eq!(
        r,
        Err(ParseError {
            message: ErrorDetail::GenericAlreadyDefined("T".to_string()),
            offset: 9,
        })
    );
}

#[test]
fn test_wildcard_allocates_variable() {
    let mut ts = basic_ts();
    let t = ts.parse_type("List[_]").expect("parse_type failed");
    assert_eq!(
        t,
        Type::Named(Named { name: "List".to_string(), args: vec![Type::Var(0)] })
    );
    assert_eq!(ts.counter, 1);
    assert_eq!(ts.resolve(0), None);
}

#[test]
fn test_whitespace_between_tokens() {
    let mut ts = basic_ts();
    assert_eq!(ts.parse_impl("[ T ] List[T] for List[T]"), Ok(()));
    assert_eq!(ts.impls.len(), 1);
    assert_eq!(ts.impls[0].args, vec!["T".to_string()]);
}

#[test]
fn test_ident_stops_at_non_alphanumeric() {
    let mut ts = TypeSystem::new();
    // The identifier ends at the blank, and the trailing junk is not a
    // generic list.
    let r = ts.parse_decl("A B");
    assert!(r.is_err());
    assert!(ts.get_decl(&"A".to_string()).is_none());
}
