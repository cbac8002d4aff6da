//! Tests for the structural-record engine: construction, destructuring in
//! arbitrary order, reference modes, aliases, and named calls.

use obstruct::errors::EngineError;
use obstruct::fields::{effective_mode, DestructField, Mode, Target};
use obstruct::record::{adapt_call, destructure, Binding, Carrier, Record};
use obstruct::token::Token;
use obstruct::transform::{call, destruct, DestructPlan};

#[derive(Debug, Clone, PartialEq)]
enum Val {
    I(i64),
    F(f64),
    S(&'static str),
    U,
    OF(Option<f64>),
}

fn carrier(name: &str, v: Val) -> Carrier<Val> {
    Carrier::new(name.as_bytes().to_vec(), v)
}

fn pat(name: &str) -> DestructField {
    DestructField {
        by_ref: false,
        by_mut: false,
        name: name.as_bytes().to_vec(),
        target: Target::Plain,
    }
}

fn pat_ref(name: &str) -> DestructField {
    DestructField { by_ref: true, by_mut: false, name: name.as_bytes().to_vec(), target: Target::Plain }
}

fn pat_refmut(name: &str) -> DestructField {
    DestructField { by_ref: true, by_mut: true, name: name.as_bytes().to_vec(), target: Target::Plain }
}

fn pat_alias(name: &str, alias: &str) -> DestructField {
    DestructField {
        by_ref: false,
        by_mut: false,
        name: name.as_bytes().to_vec(),
        target: Target::Alias(alias.as_bytes().to_vec()),
    }
}

fn pat_wild(name: &str) -> DestructField {
    DestructField {
        by_ref: false,
        by_mut: false,
        name: name.as_bytes().to_vec(),
        target: Target::Wildcard,
    }
}

fn pat_nested(name: &str, p: u64) -> DestructField {
    DestructField {
        by_ref: false,
        by_mut: false,
        name: name.as_bytes().to_vec(),
        target: Target::Nested(p),
    }
}

fn binding<'a>(out: &'a [Binding<Val>], name: &str) -> &'a Binding<Val> {
    for b in out {
        if b.name.as_slice() == name.as_bytes() {
            return b;
        }
    }
    panic!("no binding for {}", name);
}

fn value(out: &[Binding<Val>], name: &str) -> Val {
    binding(out, name).value.clone()
}

fn ident(name: &str) -> Token {
    Token::Ident(name.as_bytes().to_vec())
}

fn rgb_record() -> Record<Val> {
    Record::build(vec![
        carrier("red", Val::S("red")),
        carrier("green", Val::F(1.0)),
        carrier("blue", Val::U),
    ])
    .unwrap()
}

#[test]
fn test() {
    let structured = Record::build(vec![
        carrier("red", Val::I(0)),
        carrier("green", Val::F(1.0)),
        carrier("blue", Val::I(2)),
    ])
    .unwrap();

    let out = destructure(structured, false, vec![pat("red"), pat("blue"), pat("green")]).unwrap();

    assert_eq!(value(&out, "red"), Val::I(0));
    assert_eq!(value(&out, "green"), Val::F(1.0));
    assert_eq!(value(&out, "blue"), Val::I(2));
}

#[test]
fn mod_test_instruct_destruct_good() {
    // Basic anonymous records, destructured in arbitrary order.
    const RED: &str = "red";
    const GREEN: f64 = 1.0;

    let structured = rgb_record();

    let out = destructure(
        structured.clone(),
        false,
        vec![pat("red"), pat("green"), pat("blue")],
    )
    .unwrap();
    assert_eq!(value(&out, "red"), Val::S(RED));
    assert_eq!(value(&out, "green"), Val::F(GREEN));
    assert_eq!(value(&out, "blue"), Val::U);

    let out = destructure(
        structured.clone(),
        false,
        vec![pat("red"), pat("blue"), pat("green")],
    )
    .unwrap();
    assert_eq!(value(&out, "red"), Val::S(RED));
    assert_eq!(value(&out, "green"), Val::F(GREEN));
    assert_eq!(value(&out, "blue"), Val::U);

    let out = destructure(
        structured.clone(),
        false,
        vec![pat("blue"), pat("green"), pat("red")],
    )
    .unwrap();
    assert_eq!(value(&out, "red"), Val::S(RED));
    assert_eq!(value(&out, "green"), Val::F(GREEN));
    assert_eq!(value(&out, "blue"), Val::U);
}

#[test]
fn test_instruct_destruct_ref() {
    // Destructuring with a list-wide reference marker: every binding is a
    // reference into the still-owned record.
    const RED: &str = "red";
    const GREEN: f64 = 1.0;

    let structured = rgb_record();

    for pats in [
        vec![pat("red"), pat("green"), pat("blue")],
        vec![pat("red"), pat("blue"), pat("green")],
        vec![pat("blue"), pat("green"), pat("red")],
    ] {
        let out = destructure(structured.clone(), true, pats).unwrap();
        assert_eq!(binding(&out, "red").mode, Mode::ByRef);
        assert_eq!(binding(&out, "green").mode, Mode::ByRef);
        assert_eq!(binding(&out, "blue").mode, Mode::ByRef);
        let red = structured.field_ref(&b"red".to_vec()).unwrap();
        let green = structured.field_ref(&b"green".to_vec()).unwrap();
        let blue = structured.field_ref(&b"blue".to_vec()).unwrap();
        assert_eq!(red, &Val::S(RED));
        assert_eq!(green, &Val::F(GREEN));
        assert_eq!(blue, &Val::U);
    }
}

#[test]
fn test_instruct_destruct_alias() {
    const RED: &str = "red";
    const GREEN: f64 = 1.0;

    let structured = rgb_record();

    let out = destructure(
        structured.clone(),
        true,
        vec![pat_alias("red", "another_red"), pat("green"), pat("blue")],
    )
    .unwrap();
    assert_eq!(binding(&out, "red").target, Target::Alias(b"another_red".to_vec()));
    assert_eq!(value(&out, "red"), Val::S(RED));
    assert_eq!(value(&out, "green"), Val::F(GREEN));
    assert_eq!(value(&out, "blue"), Val::U);

    let out = destructure(
        structured.clone(),
        true,
        vec![pat("red"), pat_alias("blue", "another_blue"), pat("green")],
    )
    .unwrap();
    assert_eq!(binding(&out, "blue").target, Target::Alias(b"another_blue".to_vec()));
    assert_eq!(value(&out, "red"), Val::S(RED));
    assert_eq!(value(&out, "green"), Val::F(GREEN));
    assert_eq!(value(&out, "blue"), Val::U);

    let out = destructure(
        structured.clone(),
        true,
        vec![pat("blue"), pat_alias("green", "another_green"), pat("red")],
    )
    .unwrap();
    assert_eq!(binding(&out, "green").target, Target::Alias(b"another_green".to_vec()));
    assert_eq!(value(&out, "red"), Val::S(RED));
    assert_eq!(value(&out, "green"), Val::F(GREEN));
    assert_eq!(value(&out, "blue"), Val::U);

    // A wildcard target consumes the field but names nothing.
    let out = destructure(
        structured.clone(),
        true,
        vec![pat("blue"), pat_wild("green"), pat("red")],
    )
    .unwrap();
    assert_eq!(binding(&out, "green").target, Target::Wildcard);
    assert_eq!(value(&out, "red"), Val::S(RED));
    assert_eq!(value(&out, "blue"), Val::U);
}

#[test]
fn test_instruct_destruct_inner_ref() {
    const RED: &str = "red";
    const GREEN: f64 = 1.0;

    let structured = Record::build(vec![
        carrier("red2", Val::S(RED)),
        carrier("green2", Val::F(GREEN)),
        carrier("blue2", Val::U),
    ])
    .unwrap();

    let out = destructure(
        structured.clone(),
        false,
        vec![pat_ref("red2"), pat_ref("blue2"), pat_ref("green2")],
    )
    .unwrap();
    assert_eq!(binding(&out, "red2").mode, Mode::ByRef);
    assert_eq!(structured.field_ref(&b"red2".to_vec()).unwrap(), &Val::S(RED));
    assert_eq!(structured.field_ref(&b"green2".to_vec()).unwrap(), &Val::F(GREEN));
    assert_eq!(structured.field_ref(&b"blue2".to_vec()).unwrap(), &Val::U);

    // A per-field marker touches only its own field.
    let out = destructure(
        structured.clone(),
        false,
        vec![pat_ref("red2"), pat("green2"), pat("blue2")],
    )
    .unwrap();
    assert_eq!(binding(&out, "red2").mode, Mode::ByRef);
    assert_eq!(binding(&out, "green2").mode, Mode::ByValue);
    assert_eq!(binding(&out, "blue2").mode, Mode::ByValue);
    assert_eq!(value(&out, "red2"), Val::S(RED));
    assert_eq!(value(&out, "green2"), Val::F(GREEN));
    assert_eq!(value(&out, "blue2"), Val::U);
}

#[test]
fn test_instruct_destruct_inner_refmut() {
    const RED: &str = "red";
    const GREEN: f64 = 1.0;

    let structured = Record::build(vec![
        carrier("red4", Val::S(RED)),
        carrier("green4", Val::F(GREEN)),
        carrier("blue4", Val::U),
    ])
    .unwrap();

    let out = destructure(
        structured.clone(),
        false,
        vec![pat_refmut("red4"), pat_refmut("blue4"), pat_refmut("green4")],
    )
    .unwrap();
    assert_eq!(binding(&out, "red4").mode, Mode::ByMutRef);
    assert_eq!(value(&out, "red4"), Val::S(RED));
    assert_eq!(value(&out, "green4"), Val::F(GREEN));
    assert_eq!(value(&out, "blue4"), Val::U);

    // Writing through the mutable-reference mode keeps the record's shape.
    let mut rec = structured.clone();
    assert_eq!(rec.set_field(&b"red4".to_vec(), Val::S(RED)), Some(Val::S(RED)));
    assert_eq!(rec.set_field(&b"blue4".to_vec(), Val::U), Some(Val::U));
    assert_eq!(rec.set_field(&b"green4".to_vec(), Val::F(GREEN)), Some(Val::F(GREEN)));

    assert_eq!(rec.field_ref(&b"red4".to_vec()).unwrap(), &Val::S(RED));
    assert_eq!(rec.field_ref(&b"green4".to_vec()).unwrap(), &Val::F(GREEN));
    assert_eq!(rec.field_ref(&b"blue4".to_vec()).unwrap(), &Val::U);
}

#[test]
fn test_instruct_destruct_inner_basic_pat() {
    const RED: &str = "red";
    const GREEN: Option<f64> = Some(1.0);

    let structured = Record::build(vec![
        carrier("red4", Val::S(RED)),
        carrier("green4", Val::OF(GREEN)),
        carrier("blue4", Val::U),
    ])
    .unwrap();

    let out = destructure(
        structured.clone(),
        false,
        vec![pat("red4"), pat_nested("blue4", 7), pat("green4")],
    )
    .unwrap();
    assert_eq!(value(&out, "red4"), Val::S(RED));
    assert_eq!(value(&out, "green4"), Val::OF(GREEN));
    assert_eq!(binding(&out, "blue4").target, Target::Nested(7));
}

fn test_foo(a: Val, b: Val, c: Val) -> (Val, Val, Val) {
    (a, b, c)
}

fn test_foo_tokens() -> Vec<Token> {
    vec![
        Token::KwFn,
        ident("test_foo"),
        Token::LParen,
        Token::LBrace,
        ident("a"),
        Token::Colon,
        Token::Ty(1),
        Token::Comma,
        ident("b"),
        Token::Colon,
        Token::Ty(2),
        Token::Comma,
        ident("c"),
        Token::Colon,
        Token::Ty(3),
        Token::RBrace,
        Token::RParen,
        Token::RArrow,
        Token::Ty(4),
        Token::Body(5),
    ]
}

#[test]
fn mod_test_instruct_call() {
    const A: i32 = 15;
    const B: f64 = 17f64;
    const C: &str = "Out of order";

    let plan = match destruct(&test_foo_tokens()).unwrap() {
        DestructPlan::Function(p) => p,
        DestructPlan::Expression(_) => panic!("expected a function plan"),
    };
    assert_eq!(plan.name, b"test_foo".to_vec());
    let names: Vec<Vec<u8>> = plan.params.iter().map(|p| p.name.clone()).collect();
    assert_eq!(names, vec![b"a".to_vec(), b"b".to_vec(), b"c".to_vec()]);

    let rec = Record::build(vec![
        carrier("c", Val::S(C)),
        carrier("b", Val::F(B)),
        carrier("a", Val::I(A as i64)),
    ])
    .unwrap();
    let vals = adapt_call(&plan.params, rec).unwrap();
    let (a, b, c) = test_foo(vals[0].clone(), vals[1].clone(), vals[2].clone());
    assert_eq!(a, Val::I(A as i64));
    assert_eq!(b, Val::F(B));
    assert_eq!(c, Val::S(C));

    let rec = Record::build(vec![
        carrier("a", Val::I(A as i64)),
        carrier("b", Val::F(B)),
        carrier("c", Val::S(C)),
    ])
    .unwrap();
    let vals = adapt_call(&plan.params, rec).unwrap();
    let (a, b, c) = test_foo(vals[0].clone(), vals[1].clone(), vals[2].clone());
    assert_eq!(a, Val::I(A as i64));
    assert_eq!(b, Val::F(B));
    assert_eq!(c, Val::S(C));
}

#[test]
fn tests_test_instruct_destruct_good() {
    const RED: &str = "red";
    const GREEN: f64 = 1.0;

    let structured = rgb_record();

    for pats in [
        vec![pat("red"), pat("green"), pat("blue")],
        vec![pat("red"), pat("blue"), pat("green")],
        vec![pat("blue"), pat("green"), pat("red")],
    ] {
        let out = destructure(structured.clone(), false, pats).unwrap();
        assert_eq!(value(&out, "red"), Val::S(RED));
        assert_eq!(value(&out, "green"), Val::F(GREEN));
        assert_eq!(value(&out, "blue"), Val::U);
    }
}

#[test]
fn tests_test_instruct_call() {
    const A: i32 = 15;
    const B: f64 = 17f64;
    const C: &str = "Out of order";

    let plan = match destruct(&test_foo_tokens()).unwrap() {
        DestructPlan::Function(p) => p,
        DestructPlan::Expression(_) => panic!("expected a function plan"),
    };

    for fields in [
        vec![carrier("c", Val::S(C)), carrier("b", Val::F(B)), carrier("a", Val::I(A as i64))],
        vec![carrier("a", Val::I(A as i64)), carrier("b", Val::F(B)), carrier("c", Val::S(C))],
    ] {
        let rec = Record::build(fields).unwrap();
        let vals = adapt_call(&plan.params, rec).unwrap();
        let (a, b, c) = test_foo(vals[0].clone(), vals[1].clone(), vals[2].clone());
        assert_eq!(a, Val::I(A as i64));
        assert_eq!(b, Val::F(B));
        assert_eq!(c, Val::S(C));
    }
}

#[test]
fn test_order_independence_exact_bindings() {
    // Any permutation of the pattern list yields bindings that agree
    // name for name on value, mode and target.
    let rec = rgb_record();
    let out1 = destructure(rec.clone(), false, vec![pat("red"), pat("green"), pat("blue")]).unwrap();
    let out2 = destructure(rec, false, vec![pat("blue"), pat("red"), pat("green")]).unwrap();
    assert_eq!(out1.len(), out2.len());
    for (b1, b2) in out1.iter().zip(out2.iter()) {
        assert_eq!(b1.name, b2.name);
        assert_eq!(b1.value, b2.value);
        assert_eq!(b1.mode, b2.mode);
        assert_eq!(b1.target, b2.target);
    }
}

#[test]
fn test_duplicate_rejected_everywhere() {
    // Construct list.
    let e = Record::build(vec![
        carrier("red", Val::I(0)),
        carrier("red", Val::I(1)),
    ])
    .unwrap_err();
    assert_eq!(e, EngineError::DuplicateField { name: b"red".to_vec(), position: 1 });

    // Destructure-pattern list.
    let rec = rgb_record();
    let e = destructure(rec, false, vec![pat("red"), pat("green"), pat("red")]).unwrap_err();
    assert_eq!(e, EngineError::DuplicateField { name: b"red".to_vec(), position: 2 });

    // Call-argument list, through the token-level entry.
    let tokens = vec![
        Token::Expr(0),
        Token::Comma,
        Token::LBrace,
        ident("x"),
        Token::Colon,
        Token::Expr(1),
        Token::Comma,
        ident("x"),
        Token::Colon,
        Token::Expr(2),
        Token::RBrace,
    ];
    let e = call(&tokens).unwrap_err();
    assert_eq!(e, EngineError::DuplicateField { name: b"x".to_vec(), position: 1 });

    // Named-parameter list.
    let tokens = vec![
        Token::KwFn,
        ident("f"),
        Token::LParen,
        Token::LBrace,
        ident("a"),
        Token::Colon,
        Token::Ty(1),
        Token::Comma,
        ident("a"),
        Token::Colon,
        Token::Ty(2),
        Token::RBrace,
        Token::RParen,
        Token::Body(3),
    ];
    let e = destruct(&tokens).unwrap_err();
    assert_eq!(e, EngineError::DuplicateField { name: b"a".to_vec(), position: 1 });
}

#[test]
fn test_typo_rejected() {
    // A pattern naming a field the record lacks is rejected at the
    // name-checking boundary.
    let rec = rgb_record();
    let e = destructure(rec, false, vec![pat("red"), pat("green"), pat("oops")]).unwrap_err();
    // Canonical patterns: green, oops, red; canonical record: blue, green,
    // red. The first canonical position already disagrees.
    assert_eq!(
        e,
        EngineError::NameMismatch { expected: b"green".to_vec(), found: b"blue".to_vec() }
    );
}

#[test]
fn test_call_missing_args() {
    const A: i32 = 15;
    const B: f64 = 17f64;

    let plan = match destruct(&test_foo_tokens()).unwrap() {
        DestructPlan::Function(p) => p,
        DestructPlan::Expression(_) => panic!("expected a function plan"),
    };
    let rec = Record::build(vec![
        carrier("b", Val::F(B)),
        carrier("a", Val::I(A as i64)),
    ])
    .unwrap();
    let e = adapt_call(&plan.params, rec).unwrap_err();
    assert_eq!(e, EngineError::MissingArgument { name: b"c".to_vec() });
}

#[test]
fn test_call_too_many_args() {
    const A: i32 = 15;
    const B: f64 = 17f64;
    const C: &str = "Out of order";

    let plan = match destruct(&test_foo_tokens()).unwrap() {
        DestructPlan::Function(p) => p,
        DestructPlan::Expression(_) => panic!("expected a function plan"),
    };
    let rec = Record::build(vec![
        carrier("b", Val::F(B)),
        carrier("a", Val::I(A as i64)),
        carrier("c", Val::S(C)),
        carrier("oops", Val::I(0)),
    ])
    .unwrap();
    let e = adapt_call(&plan.params, rec).unwrap_err();
    assert_eq!(e, EngineError::ExtraArgument { name: b"oops".to_vec() });
}

#[test]
fn test_call_bad_arg_name() {
    let plan = match destruct(&test_foo_tokens()).unwrap() {
        DestructPlan::Function(p) => p,
        DestructPlan::Expression(_) => panic!("expected a function plan"),
    };
    let rec = Record::build(vec![
        carrier("a", Val::I(0)),
        carrier("b", Val::I(1)),
        carrier("yellow", Val::I(2)),
    ])
    .unwrap();
    let e = adapt_call(&plan.params, rec).unwrap_err();
    assert_eq!(
        e,
        EngineError::NameMismatch { expected: b"c".to_vec(), found: b"yellow".to_vec() }
    );
}

#[test]
fn test_add_triple_named_call() {
    // A named function over three integers, called with its fields out of
    // order, still receives them in declaration-set order.
    let tokens = vec![
        Token::KwFn,
        ident("add_triple"),
        Token::LParen,
        Token::LBrace,
        ident("a"),
        Token::Colon,
        Token::Ty(1),
        Token::Comma,
        ident("b"),
        Token::Colon,
        Token::Ty(1),
        Token::Comma,
        ident("c"),
        Token::Colon,
        Token::Ty(1),
        Token::RBrace,
        Token::RParen,
        Token::RArrow,
        Token::Ty(1),
        Token::Body(2),
    ];
    let plan = match destruct(&tokens).unwrap() {
        DestructPlan::Function(p) => p,
        DestructPlan::Expression(_) => panic!("expected a function plan"),
    };
    let rec = Record::build(vec![
        Carrier::new(b"c".to_vec(), 3i64),
        Carrier::new(b"a".to_vec(), 1i64),
        Carrier::new(b"b".to_vec(), 2i64),
    ])
    .unwrap();
    let vals = adapt_call(&plan.params, rec).unwrap();
    assert_eq!(vals, vec![1i64, 2i64, 3i64]);
    let sum: i64 = vals[0] + vals[1] + vals[2];
    assert_eq!(sum, 6);
}

#[test]
fn test_reference_mode_pointee() {
    // The pointee of a reference-mode extraction equals the by-value
    // extraction of the same field from an equivalent record.
    let rec1 = rgb_record();
    let rec2 = rgb_record();
    let out = destructure(rec2, false, vec![pat("red"), pat("green"), pat("blue")]).unwrap();
    let red_ref = rec1.field_ref(&b"red".to_vec()).unwrap();
    assert_eq!(*red_ref, value(&out, "red"));
    let green_ref = rec1.field_ref(&b"green".to_vec()).unwrap();
    assert_eq!(*green_ref, value(&out, "green"));
}

#[test]
fn test_set_field_replaces_one_value() {
    let mut rec = rgb_record();
    assert_eq!(rec.set_field(&b"green".to_vec(), Val::F(2.5)), Some(Val::F(1.0)));
    assert_eq!(rec.field_ref(&b"green".to_vec()).unwrap(), &Val::F(2.5));
    assert_eq!(rec.field_ref(&b"red".to_vec()).unwrap(), &Val::S("red"));
    assert_eq!(rec.field_ref(&b"blue".to_vec()).unwrap(), &Val::U);
    assert_eq!(rec.set_field(&b"absent".to_vec(), Val::U), None);
}

#[test]
fn test_effective_mode_precedence() {
    assert_eq!(effective_mode(false, &pat("x")), Mode::ByValue);
    assert_eq!(effective_mode(true, &pat("x")), Mode::ByRef);
    assert_eq!(effective_mode(false, &pat_ref("x")), Mode::ByRef);
    assert_eq!(effective_mode(false, &pat_refmut("x")), Mode::ByMutRef);
    assert_eq!(effective_mode(true, &pat_refmut("x")), Mode::ByMutRef);
}

#[test]
fn test_partial_destructure_rejected() {
    // A pattern list that leaves a record field unconsumed fails the
    // arity check, as the emitted tuple pattern would.
    let rec = rgb_record();
    let e = destructure(rec, false, vec![pat("blue"), pat("green")]).unwrap_err();
    assert_eq!(e, EngineError::ExtraArgument { name: b"red".to_vec() });
}

#[test]
fn test_pipeline_destructure_from_tokens() {
    // `let {red, blue, green} = e0`, planned by the engine and then run
    // against a record built over the same names.
    let tokens = vec![
        Token::KwLet,
        Token::LBrace,
        ident("red"),
        Token::Comma,
        ident("blue"),
        Token::Comma,
        ident("green"),
        Token::RBrace,
        Token::Equals,
        Token::Expr(0),
    ];
    let plan = match destruct(&tokens).unwrap() {
        DestructPlan::Expression(p) => p,
        DestructPlan::Function(_) => panic!("expected an expression plan"),
    };
    assert!(!plan.list_ref);
    assert_eq!(plan.scrutinee, 0);
    let out = destructure(rgb_record(), plan.list_ref, plan.fields).unwrap();
    assert_eq!(value(&out, "red"), Val::S("red"));
    assert_eq!(value(&out, "green"), Val::F(1.0));
    assert_eq!(value(&out, "blue"), Val::U);
}

#[test]
fn test_demo_named_call() {
    assert_eq!(obstruct::demo::test(), (0u8, 1u8, 2u8));
}
