use lqdc::node::{Node, NodeValue};
use lqdc::parse::{p_expr, p_value, parse_root};
use lqdc::passes::front;
use lqdc::token::{filter_structural, tokenize, Tok};

fn chars(s: &str) -> Vec<char> {
    s.chars().collect()
}

fn structural(s: &str) -> Vec<Tok> {
    filter_structural(&tokenize(&chars(s)).unwrap())
}

fn text(src: &str, n: &Node) -> String {
    src.chars().skip(n.span.start).take(n.span.end - n.span.start).collect()
}

#[test]
fn single_line_comment() {
    let input = "// Hello, World!
        fn other_func -> void { other_func() }";
    assert!(front(&chars(input)).is_ok());
}

#[test]
fn test_var_assign() {
    let src = "let fifteen = 15";
    let toks = structural(src);
    let (expr, _) = p_expr(&toks, 0).unwrap();
    assert_eq!(expr.node, NodeValue::Expr);
    let var_assign = &expr.children[0];
    assert_eq!(var_assign.node, NodeValue::VarAssign);
    assert_eq!(text(src, &var_assign.children[0]), "fifteen");
    let mut value = &var_assign.children[1];
    while value.children.len() == 1 {
        value = &value.children[0];
    }
    assert_eq!(value.node, NodeValue::Number);
    assert_eq!(text(src, value), "15");
}

#[test]
fn operator_chains_have_odd_child_counts() {
    let src = "1 - 2 - 3 * 4 < 5";
    let toks = structural(src);
    let (expr, _) = p_expr(&toks, 0).unwrap();
    let bool_expr = &expr.children[0];
    assert_eq!(bool_expr.node, NodeValue::BoolExpr);
    assert_eq!(bool_expr.children.len(), 3);
    let sum = &bool_expr.children[0];
    assert_eq!(sum.node, NodeValue::Sum);
    assert_eq!(sum.children.len(), 5);
    assert_eq!(sum.children[1].node, NodeValue::Sub);
    assert_eq!(sum.children[3].node, NodeValue::Sub);
    let product = &sum.children[4];
    assert_eq!(product.node, NodeValue::Product);
    assert_eq!(product.children.len(), 3);
    assert_eq!(product.children[1].node, NodeValue::Mul);
}

#[test]
fn boolean_literals_parse_as_values() {
    let toks = structural("true");
    let (v, _) = p_value(&toks, 0).unwrap();
    assert_eq!(v.node, NodeValue::True);
    let toks = structural("false");
    let (v, _) = p_value(&toks, 0).unwrap();
    assert_eq!(v.node, NodeValue::False);
}

#[test]
fn zero_argument_call_has_placeholder_argument_set() {
    let src = "f()";
    let toks = structural(src);
    let (v, _) = p_value(&toks, 0).unwrap();
    assert_eq!(v.node, NodeValue::FnCall);
    assert_eq!(v.children.len(), 2);
    assert_eq!(v.children[1].node, NodeValue::NULL);
}

#[test]
fn definition_node_carries_name_args_return_and_body() {
    let src = "fn add(a: int, b: int) -> int { a + b }";
    let toks = structural(src);
    let ns = parse_root(&toks).unwrap();
    assert_eq!(ns.len(), 1);
    let def = &ns[0];
    assert_eq!(def.node, NodeValue::FnDef);
    assert_eq!(text(src, &def.children[0]), "add");
    assert_eq!(def.children[1].node, NodeValue::FnDefArgSet);
    assert_eq!(def.children[1].children.len(), 4);
    assert_eq!(text(src, &def.children[2]), "int");
    assert_eq!(def.children.len(), 4);
}

#[test]
fn trailing_semicolon_is_accepted_in_bodies() {
    let src = "fn main -> void { let a = 1; }";
    assert!(front(&chars(src)).is_ok());
}

#[test]
fn conditional_blocks_parse() {
    let src = "fn main -> void { if 1 < 2 { 3 } }";
    let ns = front(&chars(src)).unwrap();
    let body = &ns[0].children[3];
    assert_eq!(body.children[0].node, NodeValue::If);
}

#[test]
fn premature_end_is_a_parse_error() {
    let src = "fn main -> void {";
    assert!(front(&chars(src)).is_err());
}

#[test]
fn stray_token_is_a_parse_error_with_its_span() {
    let src = "fn main -> void { let a = 1 } ;";
    match front(&chars(src)) {
        Err(lqdc::error::Error::ParseError(sp)) => {
            assert_eq!(sp.start, 30);
        },
        other => panic!("expected a parse error, got {:?}", other.is_ok()),
    }
}
