//! Tests for the token-level expansion entries: parsing the four surface
//! forms and planning their canonical emission.

use obstruct::errors::EngineError;
use obstruct::fields::Target;
use obstruct::token::Token;
use obstruct::transform::{call, destruct, instruct, DestructPlan};

fn ident(name: &str) -> Token {
    Token::Ident(name.as_bytes().to_vec())
}

#[test]
fn test_instruct_plan_is_canonical() {
    // `red: e0, green: e1, blue: e2` is emitted as the canonically ordered
    // tuple (blue, green, red), each expression kept with its field.
    let tokens = vec![
        ident("red"),
        Token::Colon,
        Token::Expr(0),
        Token::Comma,
        ident("green"),
        Token::Colon,
        Token::Expr(1),
        Token::Comma,
        ident("blue"),
        Token::Colon,
        Token::Expr(2),
    ];
    let plan = instruct(&tokens).unwrap();
    let names: Vec<Vec<u8>> = plan.fields.iter().map(|b| b.name.clone()).collect();
    assert_eq!(names, vec![b"blue".to_vec(), b"green".to_vec(), b"red".to_vec()]);
    let exprs: Vec<u64> = plan.fields.iter().map(|b| b.expr).collect();
    assert_eq!(exprs, vec![2, 1, 0]);
}

#[test]
fn test_instruct_trailing_comma_and_empty() {
    let tokens = vec![ident("x"), Token::Colon, Token::Expr(4), Token::Comma];
    let plan = instruct(&tokens).unwrap();
    assert_eq!(plan.fields.len(), 1);
    assert_eq!(plan.fields[0].name, b"x".to_vec());

    let plan = instruct(&Vec::new()).unwrap();
    assert_eq!(plan.fields.len(), 0);
}

#[test]
fn test_instruct_rejects_duplicate_with_position() {
    let tokens = vec![
        ident("x"),
        Token::Colon,
        Token::Expr(0),
        Token::Comma,
        ident("y"),
        Token::Colon,
        Token::Expr(1),
        Token::Comma,
        ident("x"),
        Token::Colon,
        Token::Expr(2),
    ];
    let e = instruct(&tokens).unwrap_err();
    assert_eq!(e, EngineError::DuplicateField { name: b"x".to_vec(), position: 2 });
}

#[test]
fn test_instruct_rejects_malformed_list() {
    let tokens = vec![ident("x"), Token::Expr(0)];
    assert!(matches!(instruct(&tokens), Err(EngineError::Syntax { .. })));
}

#[test]
fn test_destruct_expression_plan() {
    // `let ref { ref a, mut b, c: other, d: _ } = e9`
    let tokens = vec![
        Token::KwLet,
        Token::KwRef,
        Token::LBrace,
        Token::KwRef,
        ident("a"),
        Token::Comma,
        Token::KwMut,
        ident("b"),
        Token::Comma,
        ident("c"),
        Token::Colon,
        ident("other"),
        Token::Comma,
        ident("d"),
        Token::Colon,
        Token::Underscore,
        Token::RBrace,
        Token::Equals,
        Token::Expr(9),
    ];
    let plan = match destruct(&tokens).unwrap() {
        DestructPlan::Expression(p) => p,
        DestructPlan::Function(_) => panic!("expected an expression plan"),
    };
    assert!(plan.list_ref);
    assert_eq!(plan.scrutinee, 9);
    let names: Vec<Vec<u8>> = plan.fields.iter().map(|f| f.name.clone()).collect();
    assert_eq!(names, vec![b"a".to_vec(), b"b".to_vec(), b"c".to_vec(), b"d".to_vec()]);
    assert!(plan.fields[0].by_ref);
    assert!(plan.fields[1].by_mut);
    assert_eq!(plan.fields[2].target, Target::Alias(b"other".to_vec()));
    assert_eq!(plan.fields[3].target, Target::Wildcard);
}

#[test]
fn test_destruct_expression_rejects_missing_equals() {
    let tokens = vec![
        Token::KwLet,
        Token::LBrace,
        ident("a"),
        Token::RBrace,
        Token::Expr(9),
    ];
    assert!(matches!(destruct(&tokens), Err(EngineError::Syntax { .. })));
}

#[test]
fn test_destruct_function_with_self() {
    let tokens = vec![
        Token::KwFn,
        ident("m"),
        Token::LParen,
        Token::KwSelf,
        Token::Comma,
        Token::LBrace,
        ident("z"),
        Token::Colon,
        Token::Ty(1),
        Token::RBrace,
        Token::RParen,
        Token::Body(2),
    ];
    let plan = match destruct(&tokens).unwrap() {
        DestructPlan::Function(p) => p,
        DestructPlan::Expression(_) => panic!("expected a function plan"),
    };
    assert!(plan.has_self);
    assert_eq!(plan.ret, None);
    assert_eq!(plan.body, 2);
    assert_eq!(plan.params.len(), 1);
    assert_eq!(plan.params[0].name, b"z".to_vec());
}

#[test]
fn test_call_plan_keeps_callee() {
    let tokens = vec![
        Token::Expr(42),
        Token::Comma,
        Token::LBrace,
        ident("y"),
        Token::Colon,
        Token::Expr(1),
        Token::Comma,
        ident("x"),
        Token::Colon,
        Token::Expr(0),
        Token::RBrace,
    ];
    let plan = call(&tokens).unwrap();
    assert_eq!(plan.callee, 42);
    let names: Vec<Vec<u8>> = plan.fields.iter().map(|b| b.name.clone()).collect();
    assert_eq!(names, vec![b"x".to_vec(), b"y".to_vec()]);
}
