use lqdc::error::Error;
use lqdc::ir::{BlockId, FuncId, IrModule, Op, Val, VarId};
use lqdc::linkage::Linkage;
use lqdc::type_::Type;

fn chars(s: &str) -> Vec<char> {
    s.chars().collect()
}

#[test]
fn blocks_and_variables_need_an_active_function() {
    let mut m = IrModule::new();
    assert_eq!(m.push_block(), Err(Error::InternalCompilerError));
    assert_eq!(m.push_variable(chars("x"), Type::Int), Err(Error::InternalCompilerError));
    assert_eq!(m.push_instruction(Op::Integer(Type::Int, vec![0; 8])),
        Err(Error::InternalCompilerError));
}

#[test]
fn function_arguments_occupy_the_first_variable_slots() {
    let mut m = IrModule::new();
    let f = m.new_function(chars("f"), Linkage::Private,
        vec![(chars("a"), Type::Int), (chars("b"), Type::Bool)], Type::Int);
    assert_eq!(f, FuncId(0));
    assert_eq!(m.get_function_args(f), Some(vec![VarId(0), VarId(1)]));
    assert_eq!(m.get_function_args(FuncId(1)), None);
    m.switch_to_function(f);
    let v = m.push_variable(chars("c"), Type::Int).unwrap();
    assert_eq!(v, VarId(2));
}

#[test]
fn instructions_yield_fresh_values_in_order() {
    let mut m = IrModule::new();
    let f = m.new_function(chars("f"), Linkage::Public, vec![(chars("a"), Type::Int)],
        Type::Int);
    m.switch_to_function(f);
    let b = m.push_block().unwrap();
    assert_eq!(b, BlockId(0));
    m.switch_to_block(b);
    // The parameter holds value number zero, so emitted values start after it.
    let v1 = m.push_instruction(Op::Integer(Type::Int, 7i64.to_le_bytes().to_vec())).unwrap();
    assert_eq!(v1, Some(Val(1)));
    let v2 = m.push_instruction(Op::GetVar(VarId(0))).unwrap();
    assert_eq!(v2, Some(Val(2)));
    let v3 = m.push_instruction(Op::Add(v1.unwrap(), v2.unwrap())).unwrap();
    assert_eq!(v3, Some(Val(3)));
    assert_eq!(m.functions[0].blocks[0].len(), 3);
}

#[test]
fn void_producing_operations_yield_nothing() {
    let mut m = IrModule::new();
    let f = m.new_function(chars("f"), Linkage::Private, vec![], Type::Void);
    m.switch_to_function(f);
    let b = m.push_block().unwrap();
    m.switch_to_block(b);
    let v = m.push_instruction(Op::Integer(Type::Int, vec![0; 8])).unwrap().unwrap();
    let var = m.push_variable(chars("x"), Type::Int).unwrap();
    assert_eq!(m.push_instruction(Op::SetVar(var, v)), Ok(None));
    // A call to a void-returning function also yields nothing.
    assert_eq!(m.push_instruction(Op::Call(f, vec![])), Ok(None));
}

#[test]
fn void_typed_constants_are_rejected() {
    let mut m = IrModule::new();
    let f = m.new_function(chars("f"), Linkage::Private, vec![], Type::Void);
    m.switch_to_function(f);
    let b = m.push_block().unwrap();
    m.switch_to_block(b);
    assert_eq!(m.push_instruction(Op::Integer(Type::Void, vec![])),
        Err(Error::InternalCompilerError));
}

#[test]
fn switching_functions_clears_the_block_context() {
    let mut m = IrModule::new();
    let f = m.new_function(chars("f"), Linkage::Private, vec![], Type::Void);
    m.switch_to_function(f);
    m.push_block().unwrap();
    m.switch_to_function(f);
    assert_eq!(m.cur_block, None);
    assert_eq!(m.push_instruction(Op::Integer(Type::Int, vec![0; 8])),
        Err(Error::InternalCompilerError));
}
