use lqdc::error::Error;
use lqdc::ir::{Op, Val, VarId};
use lqdc::linkage::Linkage;
use lqdc::lower::type_of;
use lqdc::parse::p_value;
use lqdc::passes::compile_program;
use lqdc::token::{filter_structural, tokenize};
use lqdc::type_::Type;

fn chars(s: &str) -> Vec<char> {
    s.chars().collect()
}

fn value_node(src: &str) -> lqdc::node::Node {
    let toks = filter_structural(&tokenize(&chars(src)).unwrap());
    p_value(&toks, 0).unwrap().0
}

#[test]
fn true_() {
    let type_ = type_of(&chars("true"), &value_node("true"), &Vec::new(), &Vec::new());
    assert_eq!(type_, Type::Bool);
}

#[test]
fn false_() {
    let type_ = type_of(&chars("false"), &value_node("false"), &Vec::new(), &Vec::new());
    assert_eq!(type_, Type::Bool);
}

#[test]
fn number() {
    let type_ = type_of(&chars("158910"), &value_node("158910"), &Vec::new(), &Vec::new());
    assert_eq!(type_, Type::Int);
}

#[test]
fn literal_lowering_round_trips_to_little_endian_bytes() {
    let src = "fn main -> void { let a = 1 } fn f -> int { 5476332 }";
    let m = compile_program(&chars(src)).unwrap();
    let f = &m.functions[1];
    assert_eq!(f.name, chars("f"));
    assert_eq!(f.blocks.len(), 1);
    assert_eq!(f.blocks[0].len(), 1);
    match &f.blocks[0][0].op {
        Op::Integer(t, bytes) => {
            assert_eq!(*t, Type::Int);
            assert_eq!(bytes, &5476332i64.to_le_bytes().to_vec());
        },
        _ => panic!("expected an integer-constant instruction"),
    }
}

#[test]
fn subtraction_lowers_left_associatively() {
    let src = "fn main -> void { let q = 1 } fn g(a: int, b: int, c: int) -> int { a - b - c }";
    let m = compile_program(&chars(src)).unwrap();
    let g = &m.functions[1];
    let insts = &g.blocks[0];
    assert_eq!(insts.len(), 5);
    assert!(matches!(insts[0].op, Op::GetVar(VarId(0))));
    assert_eq!(insts[0].result, Some(Val(3)));
    assert!(matches!(insts[1].op, Op::GetVar(VarId(1))));
    assert_eq!(insts[1].result, Some(Val(4)));
    assert!(matches!(insts[2].op, Op::Sub(Val(3), Val(4))));
    assert_eq!(insts[2].result, Some(Val(5)));
    assert!(matches!(insts[3].op, Op::GetVar(VarId(2))));
    assert_eq!(insts[3].result, Some(Val(6)));
    assert!(matches!(insts[4].op, Op::Sub(Val(5), Val(6))));
    assert_eq!(insts[4].result, Some(Val(7)));
}

#[test]
fn calling_zero_argument_function_with_one_argument_fails_arity() {
    let src = "fn main -> void { zero(1); } fn zero -> void { let a = 1 }";
    match compile_program(&chars(src)) {
        Err(Error::ExpectedNumArgs(expected, found, sp)) => {
            assert_eq!(expected, 0);
            assert_eq!(found, 1);
            assert_eq!(&src[sp.start..sp.end], "1");
        },
        other => panic!("expected an arity error, got ok={}", other.is_ok()),
    }
}

#[test]
fn calling_with_declared_count_succeeds() {
    let src = "fn main -> void { zero(); one(1); } fn zero -> void { let a = 1 } fn one(x: int) -> void { let a = x }";
    assert!(compile_program(&chars(src)).is_ok());
}

#[test]
fn forward_reference_resolves() {
    let src = "fn main -> void { other() } fn other -> void { let a = 1 }";
    let m = compile_program(&chars(src)).unwrap();
    let main = &m.functions[0];
    assert!(matches!(main.blocks[0].last().unwrap().op, Op::Call(lqdc::ir::FuncId(1), _)));
}

#[test]
fn missing_main_is_detected() {
    let src = "fn other_func -> void { let a = 1 }";
    let r = compile_program(&chars(src));
    assert!(matches!(r, Err(Error::MissingMain)));
}

#[test]
fn argument_type_mismatch_points_at_the_literal() {
    let src = "fn f(x: int) -> int { x } fn main -> void { f(true) }";
    match compile_program(&chars(src)) {
        Err(Error::TypeMismatch(expected, found, sp)) => {
            assert_eq!(expected, Type::Int);
            assert_eq!(found, Type::Bool);
            assert_eq!(&src[sp.start..sp.end], "true");
        },
        other => panic!("expected a type mismatch, got ok={}", other.is_ok()),
    }
}

#[test]
fn linkage_is_computed_from_scope_and_name() {
    let block_kw: String = String::from("ext") + "ern";
    let src = format!(
        "{} {{ fn foo(x: int) -> int; }} fn foo2 -> int {{ 4 }} fn main -> void {{ let a = 1 }}",
        block_kw);
    let m = compile_program(&src.chars().collect()).unwrap();
    assert_eq!(m.functions[0].name, chars("foo"));
    assert_eq!(m.functions[0].linkage, Linkage::External);
    assert_eq!(m.functions[1].name, chars("foo2"));
    assert_eq!(m.functions[1].linkage, Linkage::Private);
    assert_eq!(m.functions[2].name, chars("main"));
    assert_eq!(m.functions[2].linkage, Linkage::Public);
}

#[test]
fn malformed_integer_is_rejected_at_lowering() {
    let src = "fn main -> void { let a = 1 } fn f -> int { 99999999999999999999 }";
    let r = compile_program(&chars(src));
    assert!(matches!(r, Err(Error::InvalidInteger(_))));
}

#[test]
fn boolean_literals_lower_to_one_byte_constants() {
    let src = "fn main -> void { let a = 1 } fn t -> bool { true } fn f2 -> bool { false }";
    let m = compile_program(&chars(src)).unwrap();
    match &m.functions[1].blocks[0][0].op {
        Op::Integer(t, bytes) => {
            assert_eq!(*t, Type::Bool);
            assert_eq!(bytes, &vec![1u8]);
        },
        _ => panic!("expected a constant"),
    }
    match &m.functions[2].blocks[0][0].op {
        Op::Integer(t, bytes) => {
            assert_eq!(*t, Type::Bool);
            assert_eq!(bytes, &vec![0u8]);
        },
        _ => panic!("expected a constant"),
    }
}

#[test]
fn duplicate_definitions_overwrite_the_earlier_signature() {
    let src = "fn f -> int { 1 } fn f -> int { 2 } fn main -> void { let a = 1 }";
    let m = compile_program(&chars(src)).unwrap();
    assert_eq!(m.functions.len(), 2);
    match &m.functions[0].blocks[0][0].op {
        Op::Integer(_, bytes) => assert_eq!(bytes[0], 2u8),
        _ => panic!("expected a constant"),
    }
}

#[test]
fn let_binds_a_typed_variable_slot_and_writes_it() {
    let src = "fn main -> void { let a = 7 }";
    let m = compile_program(&chars(src)).unwrap();
    let main = &m.functions[0];
    assert_eq!(main.variables.len(), 1);
    assert_eq!(main.variables[0].0, chars("a"));
    assert_eq!(main.variables[0].1, Type::Int);
    assert_eq!(main.blocks[0].len(), 2);
    assert!(matches!(main.blocks[0][1].op, Op::SetVar(VarId(0), Val(0))));
    assert_eq!(main.blocks[0][1].result, None);
}
