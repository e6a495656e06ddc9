use lqdc::error::Error;
use lqdc::ir::IrModule;
use lqdc::passes::{CodegenPass, MakeSignaturesPass, ParsePass, PassRunner, TypeCheck};

fn chars(s: &str) -> Vec<char> {
    s.chars().collect()
}

#[test]
fn bool_in_int_function_call() -> Result<(), Error> {
    let input = "
        fn main -> void {
            other_function(false);
        }

        fn other_function(x: int) -> int {
            x
        }
        ";
    let result = PassRunner::<(), ()>::new(chars(input))
        .run::<ParsePass>()?
        .run::<MakeSignaturesPass>()?
        .inject::<TypeCheck>();

    assert!(result.is_err());

    Ok(())
}

#[test]
fn int_in_bool_function_call() -> Result<(), Error> {
    let input = "
        fn main -> void {
            other_function(1);
        }

        fn other_function(x: bool) -> bool {
            x
        }
        ";
    let result = PassRunner::<(), ()>::new(chars(input))
        .run::<ParsePass>()?
        .run::<MakeSignaturesPass>()?
        .inject::<TypeCheck>();

    assert!(result.is_err());

    Ok(())
}

#[test]
fn return_specified_type() -> Result<(), Error> {
    let input = "
        fn main -> void {
            true
        }
        fn other_function -> bool {
            14
        }
        fn otherer_function -> int {
            false
        }
        ";
    let result = PassRunner::<(), ()>::new(chars(input))
        .run::<ParsePass>()?
        .run::<MakeSignaturesPass>()?
        .inject::<TypeCheck>();

    assert!(result.is_err());

    Ok(())
}

#[test]
fn full_runner_pipeline_lowers_into_the_supplied_module() -> Result<(), Error> {
    let input = "
        fn main -> void {
            let x = other_function(1)
        }

        fn other_function(x: int) -> int {
            x
        }
        ";
    let runner = PassRunner::<(), ()>::new(chars(input))
        .run::<ParsePass>()?
        .run::<MakeSignaturesPass>()?
        .inject::<TypeCheck>()?
        .set_arg(IrModule::new())
        .run::<CodegenPass>()?;
    assert_eq!(runner.arg.functions.len(), 2);
    Ok(())
}

#[test]
fn mismatched_operand_types_are_rejected() {
    let input = "fn main -> void { let a = 1 + true }";
    let r = lqdc::passes::compile_program(&chars(input));
    assert!(matches!(r, Err(Error::TypeMismatch(..))));
}

#[test]
fn unknown_variables_are_reported_at_their_use() {
    let src = "fn main -> void { let a = b }";
    match lqdc::passes::compile_program(&chars(src)) {
        Err(Error::VarDoesntExist(sp)) => {
            assert_eq!(&src[sp.start..sp.end], "b");
        },
        other => panic!("expected a missing-variable error, got ok={}", other.is_ok()),
    }
}

#[test]
fn shadowing_rebinds_without_error() {
    let src = "fn main -> void { let x = 1; let x = true; let y = x }";
    let m = lqdc::passes::compile_program(&chars(src)).unwrap();
    let main = &m.functions[0];
    let vars: Vec<lqdc::type_::Type> = main.variables.iter().map(|v| v.1).collect();
    assert_eq!(vars, vec![lqdc::type_::Type::Int, lqdc::type_::Type::Bool,
        lqdc::type_::Type::Bool]);
}

#[test]
fn conditional_blocks_are_not_part_of_this_core() {
    let src = "fn main -> void { if 1 < 2 { 3 } }";
    let r = lqdc::passes::compile_program(&chars(src));
    assert!(matches!(r, Err(Error::NotAllowedHere(_))));
}
