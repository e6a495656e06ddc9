use lqdc::error::Error;
use lqdc::ir::{IrModule, Op};
use lqdc::linkage::Linkage;
use lqdc::passes::{compile_program, CodegenPass, MakeSignaturesPass, ParsePass, PassRunner};
use lqdc::token::Token;
use lqdc::type_::Type;
use lqdc::{ScopeType, Stack};

fn chars(s: &str) -> Vec<char> {
    s.chars().collect()
}

#[test]
fn unknown_parameter_type_is_reported_at_its_span() {
    let src = "fn f(x: floop) -> int { 1 } fn main -> void { let a = 1 }";
    match compile_program(&chars(src)) {
        Err(Error::UnknownType(sp)) => {
            assert_eq!(&src[sp.start..sp.end], "floop");
        },
        other => panic!("expected an unknown-type error, got ok={}", other.is_ok()),
    }
}

#[test]
fn unknown_return_type_is_reported_at_its_span() {
    let src = "fn f -> floop { 1 } fn main -> void { let a = 1 }";
    match compile_program(&chars(src)) {
        Err(Error::UnknownReturnType(sp)) => {
            assert_eq!(&src[sp.start..sp.end], "floop");
        },
        other => panic!("expected an unknown-return-type error, got ok={}", other.is_ok()),
    }
}

#[test]
fn unknown_functions_are_reported_at_the_call() {
    let src = "fn main -> void { let a = nope() }";
    match compile_program(&chars(src)) {
        Err(Error::FuncDoesntExist(sp)) => {
            assert_eq!(&src[sp.start..sp.end], "nope");
        },
        other => panic!("expected a missing-function error, got ok={}", other.is_ok()),
    }
}

#[test]
fn unsigned_integers_are_a_distinct_concrete_type() {
    let src = "fn f(x: uint) -> uint { x } fn main -> void { let a = 1 }";
    let m = compile_program(&chars(src)).unwrap();
    assert_eq!(m.functions[0].params[0].1, Type::Uint);
    assert_eq!(m.functions[0].ret, Type::Uint);
}

#[test]
fn comparisons_lower_to_comparison_instructions() {
    let src = "fn main -> void { let a = 1 } fn f(a: int, b: int) -> bool { a < b }";
    let m = compile_program(&chars(src)).unwrap();
    let insts = &m.functions[1].blocks[0];
    assert!(matches!(insts[2].op, Op::CmpLt(_, _)));
}

#[test]
fn parenthesized_expressions_group_before_products() {
    let src = "fn main -> void { let a = 1 } fn f -> int { (1 + 2) * 3 }";
    let m = compile_program(&chars(src)).unwrap();
    let insts = &m.functions[1].blocks[0];
    let kinds: Vec<&Op> = insts.iter().map(|i| &i.op).collect();
    assert_eq!(insts.len(), 5);
    assert!(matches!(kinds[0], Op::Integer(..)));
    assert!(matches!(kinds[1], Op::Integer(..)));
    assert!(matches!(kinds[2], Op::Add(..)));
    assert!(matches!(kinds[3], Op::Integer(..)));
    assert!(matches!(kinds[4], Op::Mul(..)));
}

#[test]
fn nested_definitions_are_queued_not_lowered_inline() -> Result<(), Error> {
    // The original tool offered a pipeline without the checking stage; that
    // route exercises the compile queue on a definition nested in a body.
    let src = "fn main -> void { let a = 1 } fn outer -> int { fn inner -> int { 41 }; 2 }";
    let runner = PassRunner::<(), ()>::new(chars(src))
        .run::<ParsePass>()?
        .run::<MakeSignaturesPass>()?
        .set_arg(IrModule::new())
        .run::<CodegenPass>()?;
    let m = &runner.arg;
    assert_eq!(m.functions.len(), 3);
    assert_eq!(m.functions[2].name, chars("inner"));
    assert_eq!(m.functions[2].linkage, Linkage::Private);
    match &m.functions[2].blocks[0][0].op {
        Op::Integer(_, bytes) => assert_eq!(bytes[0], 41),
        _ => panic!("expected the nested body's constant"),
    }
    Ok(())
}

#[test]
fn scope_stack_pushes_and_pops_in_order() {
    let mut s: Stack<ScopeType> = Stack::new();
    assert!(s.pop().is_none());
    s.push(ScopeType::Extern);
    assert_eq!(s.iter().len(), 1);
    assert_eq!(s.pop(), Some(ScopeType::Extern));
    assert!(s.pop().is_none());
}

#[test]
fn token_structural_classification() {
    assert!(Token::Id.is_structural());
    assert!(Token::EOF.is_structural());
    assert!(!Token::Space.is_structural());
    assert!(!Token::LineBreak.is_structural());
    assert!(!Token::Comment.is_structural());
    assert_eq!(Token::eof(), Token::EOF);
}
