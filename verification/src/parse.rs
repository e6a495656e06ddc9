use vstd::prelude::*;
use crate::error::{Error, Span};
use crate::node::{Node, NodeV, NodeValue, node_view, nodes_view, lemma_nodes_view_index,
    lemma_nodes_view_push};
use crate::token::{Tok, Token};

verus! {

// ===========================================================================
// The grammar, as a mathematical function of the structural token stream.
//
// Each `spec_*` function reads tokens from position `i` and yields the node
// (or node list) it produces together with the position after it, or `None`
// when the production does not match there.  Alternatives are tried in
// grammar order, and the first that matches wins; repetition is greedy.
// Precedence, low to high: boolean comparisons over sums over products over
// atomic values.
// ===========================================================================


/// How many tokens remain at position `i`; the measure that parsing
/// recursion descends on.
pub open spec fn pos_measure(toks: Seq<Tok>, i: nat) -> nat {
    if i <= toks.len() { (toks.len() - i) as nat } else { 0 }
}

pub open spec fn tok_is(toks: Seq<Tok>, i: nat, t: Token) -> bool {
    i < toks.len() && toks[i as int].token == t
}

/// The span of a leaf node made from the single token at `i`.
pub open spec fn leaf(toks: Seq<Tok>, i: nat, kind: NodeValue) -> NodeV
    recommends
        i < toks.len(),
{
    NodeV { node: kind, span: toks[i as int].span, children: seq![] }
}

/// A zero-width placeholder node sitting right after the token at `i`.
pub open spec fn null_after(toks: Seq<Tok>, i: nat) -> NodeV
    recommends
        i < toks.len(),
{
    NodeV {
        node: NodeValue::NULL,
        span: Span { start: toks[i as int].span.end, end: toks[i as int].span.end },
        children: seq![],
    }
}

/// The source range covered by tokens `i` (inclusive) to `j` (exclusive).
pub open spec fn span_of(toks: Seq<Tok>, i: nat, j: nat) -> Span
    recommends
        i < j <= toks.len(),
{
    Span { start: toks[i as int].span.start, end: toks[(j - 1) as int].span.end }
}

/// An atomic value: a call, a numeric literal, an identifier, a
/// parenthesized expression, or a boolean literal.
pub open spec fn spec_value(toks: Seq<Tok>, i: nat) -> Option<(NodeV, nat)>
    decreases pos_measure(toks, i), 2nat,
{
    if spec_fn_call(toks, i) is Some {
        spec_fn_call(toks, i)
    } else if tok_is(toks, i, Token::Number) {
        Some((leaf(toks, i, NodeValue::Number), i + 1))
    } else if tok_is(toks, i, Token::Id) {
        Some((leaf(toks, i, NodeValue::Id), i + 1))
    } else if tok_is(toks, i, Token::OpenParen) {
        match spec_expr(toks, i + 1) {
            Some((n, j)) => {
                if tok_is(toks, j, Token::CloseParen) {
                    Some((n, j + 1))
                } else {
                    None
                }
            },
            None => None,
        }
    } else if tok_is(toks, i, Token::True) {
        Some((leaf(toks, i, NodeValue::True), i + 1))
    } else if tok_is(toks, i, Token::False) {
        Some((leaf(toks, i, NodeValue::False), i + 1))
    } else {
        None
    }
}

/// A call: an identifier, an argument list in parentheses (or nothing, for a
/// zero-argument call), a closing parenthesis.
pub open spec fn spec_fn_call(toks: Seq<Tok>, i: nat) -> Option<(NodeV, nat)>
    decreases pos_measure(toks, i), 1nat,
{
    if tok_is(toks, i, Token::Id) && tok_is(toks, i + 1, Token::OpenParen) {
        let args = match spec_call_args(toks, i + 2) {
            Some((ns, j)) => {
                if i + 2 < j && j <= toks.len() {
                    Some((NodeV {
                        node: NodeValue::FnCallArgSet,
                        span: span_of(toks, i + 2, j),
                        children: ns,
                    }, j))
                } else {
                    None
                }
            },
            None => None,
        };
        match args {
            Some((aset, j)) => {
                if tok_is(toks, j, Token::CloseParen) {
                    Some((NodeV {
                        node: NodeValue::FnCall,
                        span: span_of(toks, i, j + 1),
                        children: seq![leaf(toks, i, NodeValue::Id), aset],
                    }, j + 1))
                } else {
                    None
                }
            },
            None => {
                if tok_is(toks, i + 2, Token::CloseParen) {
                    Some((NodeV {
                        node: NodeValue::FnCall,
                        span: span_of(toks, i, i + 3),
                        children: seq![leaf(toks, i, NodeValue::Id), null_after(toks, i + 1)],
                    }, i + 3))
                } else {
                    None
                }
            },
        }
    } else {
        None
    }
}

/// One or more call arguments separated by commas.
pub open spec fn spec_call_args(toks: Seq<Tok>, i: nat) -> Option<(Seq<NodeV>, nat)>
    decreases pos_measure(toks, i), 9nat,
{
    match spec_expr(toks, i) {
        Some((n, j)) => {
            if i < j && j <= toks.len() {
                spec_call_args_rest(toks, j, seq![n])
            } else {
                None
            }
        },
        None => None,
    }
}

pub open spec fn spec_call_args_rest(toks: Seq<Tok>, i: nat, acc: Seq<NodeV>) -> Option<(Seq<NodeV>, nat)>
    decreases pos_measure(toks, i), 0nat,
{
    if tok_is(toks, i, Token::Comma) {
        match spec_expr(toks, i + 1) {
            Some((n, j)) => {
                if i + 1 < j && j <= toks.len() {
                    spec_call_args_rest(toks, j, acc.push(n))
                } else {
                    None
                }
            },
            None => None,
        }
    } else {
        Some((acc, i))
    }
}

/// A product chain: values joined by `*` or `/`, folded left to right.
pub open spec fn spec_product(toks: Seq<Tok>, i: nat) -> Option<(NodeV, nat)>
    decreases pos_measure(toks, i), 3nat,
{
    match spec_value(toks, i) {
        Some((n, j)) => {
            if i < j && j <= toks.len() {
                match spec_product_rest(toks, j, seq![n]) {
                    Some((ns, k)) => Some((NodeV {
                        node: NodeValue::Product,
                        span: span_of(toks, i, k),
                        children: ns,
                    }, k)),
                    None => None,
                }
            } else {
                None
            }
        },
        None => None,
    }
}

pub open spec fn spec_product_rest(toks: Seq<Tok>, i: nat, acc: Seq<NodeV>) -> Option<(Seq<NodeV>, nat)>
    decreases pos_measure(toks, i), 0nat,
{
    if tok_is(toks, i, Token::Mul) || tok_is(toks, i, Token::Div) {
        let opkind = if toks[i as int].token == Token::Mul { NodeValue::Mul } else { NodeValue::Div };
        match spec_value(toks, i + 1) {
            Some((n, j)) => {
                if i + 1 < j && j <= toks.len() {
                    spec_product_rest(toks, j, acc.push(leaf(toks, i, opkind)).push(n))
                } else {
                    None
                }
            },
            None => Some((acc, i)),
        }
    } else {
        Some((acc, i))
    }
}

/// A sum chain: products joined by `+` or `-`, folded left to right.
pub open spec fn spec_sum(toks: Seq<Tok>, i: nat) -> Option<(NodeV, nat)>
    decreases pos_measure(toks, i), 4nat,
{
    match spec_product(toks, i) {
        Some((n, j)) => {
            if i < j && j <= toks.len() {
                match spec_sum_rest(toks, j, seq![n]) {
                    Some((ns, k)) => Some((NodeV {
                        node: NodeValue::Sum,
                        span: span_of(toks, i, k),
                        children: ns,
                    }, k)),
                    None => None,
                }
            } else {
                None
            }
        },
        None => None,
    }
}

pub open spec fn spec_sum_rest(toks: Seq<Tok>, i: nat, acc: Seq<NodeV>) -> Option<(Seq<NodeV>, nat)>
    decreases pos_measure(toks, i), 0nat,
{
    if tok_is(toks, i, Token::Add) || tok_is(toks, i, Token::Sub) {
        let opkind = if toks[i as int].token == Token::Add { NodeValue::Add } else { NodeValue::Sub };
        match spec_product(toks, i + 1) {
            Some((n, j)) => {
                if i + 1 < j && j <= toks.len() {
                    spec_sum_rest(toks, j, acc.push(leaf(toks, i, opkind)).push(n))
                } else {
                    None
                }
            },
            None => Some((acc, i)),
        }
    } else {
        Some((acc, i))
    }
}

pub open spec fn spec_bool_op(t: Token) -> Option<NodeValue> {
    match t {
        Token::GT => Some(NodeValue::GT),
        Token::GTE => Some(NodeValue::GTE),
        Token::EQ => Some(NodeValue::EQ),
        Token::LT => Some(NodeValue::LT),
        Token::LTE => Some(NodeValue::LTE),
        _ => None,
    }
}

/// A comparison chain: sums joined by `<`, `<=`, `>`, `>=` or `==`.
pub open spec fn spec_bool_expr(toks: Seq<Tok>, i: nat) -> Option<(NodeV, nat)>
    decreases pos_measure(toks, i), 5nat,
{
    match spec_sum(toks, i) {
        Some((n, j)) => {
            if i < j && j <= toks.len() {
                match spec_bool_rest(toks, j, seq![n]) {
                    Some((ns, k)) => Some((NodeV {
                        node: NodeValue::BoolExpr,
                        span: span_of(toks, i, k),
                        children: ns,
                    }, k)),
                    None => None,
                }
            } else {
                None
            }
        },
        None => None,
    }
}

pub open spec fn spec_bool_rest(toks: Seq<Tok>, i: nat, acc: Seq<NodeV>) -> Option<(Seq<NodeV>, nat)>
    decreases pos_measure(toks, i), 0nat,
{
    if i < toks.len() && spec_bool_op(toks[i as int].token) is Some {
        let opkind = spec_bool_op(toks[i as int].token) ->Some_0;
        match spec_sum(toks, i + 1) {
            Some((n, j)) => {
                if i + 1 < j && j <= toks.len() {
                    spec_bool_rest(toks, j, acc.push(leaf(toks, i, opkind)).push(n))
                } else {
                    None
                }
            },
            None => Some((acc, i)),
        }
    } else {
        Some((acc, i))
    }
}

/// A `let` binding: `let <id> = <expr>`.
pub open spec fn spec_let_expr(toks: Seq<Tok>, i: nat) -> Option<(NodeV, nat)>
    decreases pos_measure(toks, i), 6nat,
{
    if tok_is(toks, i, Token::Let) && tok_is(toks, i + 1, Token::Id)
        && tok_is(toks, i + 2, Token::Assign) {
        match spec_expr(toks, i + 3) {
            Some((n, j)) => Some((NodeV {
                node: NodeValue::VarAssign,
                span: Span { start: toks[i as int].span.start, end: n.span.end },
                children: seq![leaf(toks, i + 1, NodeValue::Id), n],
            }, j)),
            None => None,
        }
    } else {
        None
    }
}

/// A conditional block: `if <bool-expr> { <exprs> }`.  Parsing it is in
/// scope; the later passes reject it, since its lowering is not part of this
/// core.
pub open spec fn spec_if_expr(toks: Seq<Tok>, i: nat) -> Option<(NodeV, nat)>
    decreases pos_measure(toks, i), 7nat,
{
    if tok_is(toks, i, Token::If) {
        match spec_bool_expr(toks, i + 1) {
            Some((c, j)) => {
                if i < j && tok_is(toks, j, Token::OpenBrace) {
                    match spec_exprs(toks, j + 1) {
                        Some((es, k)) => {
                            if j < k && tok_is(toks, k, Token::CloseBrace) {
                                Some((NodeV {
                                    node: NodeValue::If,
                                    span: span_of(toks, i, k + 1),
                                    children: seq![c] + es,
                                }, k + 1))
                            } else {
                                None
                            }
                        },
                        None => None,
                    }
                } else {
                    None
                }
            },
            None => None,
        }
    } else {
        None
    }
}

/// An expression: a conditional, a comparison chain, a `let` binding, a call
/// or a nested function definition, in that order of preference, wrapped in
/// an `Expr` node.
pub open spec fn spec_expr(toks: Seq<Tok>, i: nat) -> Option<(NodeV, nat)>
    decreases pos_measure(toks, i), 8nat,
{
    let inner = if spec_if_expr(toks, i) is Some {
        spec_if_expr(toks, i)
    } else if spec_bool_expr(toks, i) is Some {
        spec_bool_expr(toks, i)
    } else if spec_let_expr(toks, i) is Some {
        spec_let_expr(toks, i)
    } else if spec_fn_call(toks, i) is Some {
        spec_fn_call(toks, i)
    } else {
        spec_fn_def(toks, i)
    };
    match inner {
        Some((n, j)) => Some((NodeV { node: NodeValue::Expr, span: n.span, children: seq![n] }, j)),
        None => None,
    }
}

/// One or more expressions separated by `;`, with a trailing `;` allowed.
pub open spec fn spec_exprs(toks: Seq<Tok>, i: nat) -> Option<(Seq<NodeV>, nat)>
    decreases pos_measure(toks, i), 9nat,
{
    match spec_expr(toks, i) {
        Some((n, j)) => {
            if i < j && j <= toks.len() {
                spec_exprs_rest(toks, j, seq![n])
            } else {
                None
            }
        },
        None => None,
    }
}

pub open spec fn spec_exprs_rest(toks: Seq<Tok>, i: nat, acc: Seq<NodeV>) -> Option<(Seq<NodeV>, nat)>
    decreases pos_measure(toks, i), 0nat,
{
    if tok_is(toks, i, Token::Semicolon) {
        match spec_expr(toks, i + 1) {
            Some((n, j)) => {
                if i + 1 < j && j <= toks.len() {
                    spec_exprs_rest(toks, j, acc.push(n))
                } else {
                    None
                }
            },
            None => Some((acc, i + 1)),
        }
    } else {
        Some((acc, i))
    }
}

/// A parameter list: `( <id> : <id> , ... )`, at least one parameter.  The
/// produced node's children alternate parameter name and type name.
pub open spec fn spec_def_args(toks: Seq<Tok>, i: nat) -> Option<(NodeV, nat)>
    decreases pos_measure(toks, i), 1nat,
{
    if tok_is(toks, i, Token::OpenParen) && tok_is(toks, i + 1, Token::Id)
        && tok_is(toks, i + 2, Token::Colon) && tok_is(toks, i + 3, Token::Id) {
        match spec_def_args_rest(toks, i + 4,
            seq![leaf(toks, i + 1, NodeValue::Id), leaf(toks, i + 3, NodeValue::Id)]) {
            Some((ns, j)) => {
                if tok_is(toks, j, Token::CloseParen) {
                    Some((NodeV {
                        node: NodeValue::FnDefArgSet,
                        span: span_of(toks, i, j + 1),
                        children: ns,
                    }, j + 1))
                } else {
                    None
                }
            },
            None => None,
        }
    } else {
        None
    }
}

pub open spec fn spec_def_args_rest(toks: Seq<Tok>, i: nat, acc: Seq<NodeV>) -> Option<(Seq<NodeV>, nat)>
    decreases pos_measure(toks, i), 0nat,
{
    if tok_is(toks, i, Token::Comma) {
        if tok_is(toks, i + 1, Token::Id) && tok_is(toks, i + 2, Token::Colon)
            && tok_is(toks, i + 3, Token::Id) {
            spec_def_args_rest(toks, i + 4,
                acc.push(leaf(toks, i + 1, NodeValue::Id)).push(leaf(toks, i + 3, NodeValue::Id)))
        } else {
            None
        }
    } else {
        Some((acc, i))
    }
}

/// The shared head of a definition or declaration: `fn <id> [args] -> <id>`,
/// yielding the name node, the argument-set (or placeholder) node, the
/// return-type node and the position after the head.
pub open spec fn spec_fn_head(toks: Seq<Tok>, i: nat) -> Option<(NodeV, NodeV, NodeV, nat)>
    decreases pos_measure(toks, i), 2nat,
{
    if tok_is(toks, i, Token::Fn) && tok_is(toks, i + 1, Token::Id) {
        let argres = spec_def_args(toks, i + 2);
        let aset = match argres {
            Some((a, j)) => if i + 2 < j && j <= toks.len() { Some((a, j)) } else { None },
            None => None,
        };
        let (aset_node, p): (NodeV, nat) = match aset {
            Some((a, j)) => (a, j),
            None => (null_after(toks, i + 1), (i + 2) as nat),
        };
        if tok_is(toks, p, Token::TypeArrow) && tok_is(toks, p + 1, Token::Id) {
            Some((leaf(toks, i + 1, NodeValue::Id), aset_node, leaf(toks, p + 1, NodeValue::Id),
                p + 2))
        } else {
            None
        }
    } else {
        None
    }
}

/// A function definition: the head followed by a braced body of expressions.
/// Children: name, argument set, return type, then the body nodes.
pub open spec fn spec_fn_def(toks: Seq<Tok>, i: nat) -> Option<(NodeV, nat)>
    decreases pos_measure(toks, i), 3nat,
{
    match spec_fn_head(toks, i) {
        Some((name, aset, ret, p)) => {
            if i < p && tok_is(toks, p, Token::OpenBrace) {
                match spec_exprs(toks, p + 1) {
                    Some((es, k)) => {
                        if p < k && tok_is(toks, k, Token::CloseBrace) {
                            Some((NodeV {
                                node: NodeValue::FnDef,
                                span: span_of(toks, i, k + 1),
                                children: seq![name, aset, ret] + es,
                            }, k + 1))
                        } else {
                            None
                        }
                    },
                    None => None,
                }
            } else {
                None
            }
        },
        None => None,
    }
}

/// A bodiless declaration: the head followed by `;`.  Children: name,
/// argument set, return type.
pub open spec fn spec_fn_decl(toks: Seq<Tok>, i: nat) -> Option<(NodeV, nat)>
    decreases pos_measure(toks, i), 10nat,
{
    match spec_fn_head(toks, i) {
        Some((name, aset, ret, p)) => {
            if i < p && tok_is(toks, p, Token::Semicolon) {
                Some((NodeV {
                    node: NodeValue::FnDecl,
                    span: span_of(toks, i, p + 1),
                    children: seq![name, aset, ret],
                }, p + 1))
            } else {
                None
            }
        },
        None => None,
    }
}

/// An external-declaration block: the marker keyword followed either by a
/// braced list of top-level items or by a single one.  Children: the items.
pub open spec fn spec_ext_block(toks: Seq<Tok>, i: nat) -> Option<(NodeV, nat)>
    decreases pos_measure(toks, i), 11nat,
{
    if tok_is(toks, i, Token::Extern) {
        if tok_is(toks, i + 1, Token::OpenBrace) {
            match spec_top_list(toks, i + 2) {
                Some((ns, j)) => {
                    if tok_is(toks, j, Token::CloseBrace) {
                        Some((NodeV {
                            node: NodeValue::Extern,
                            span: span_of(toks, i, j + 1),
                            children: ns,
                        }, j + 1))
                    } else {
                        None
                    }
                },
                None => None,
            }
        } else {
            match spec_top(toks, i + 1) {
                Some((n, j)) => {
                    if i + 1 < j && j <= toks.len() {
                        Some((NodeV {
                            node: NodeValue::Extern,
                            span: span_of(toks, i, j),
                            children: seq![n],
                        }, j))
                    } else {
                        None
                    }
                },
                None => None,
            }
        }
    } else {
        None
    }
}

/// A top-level item: an external block, a declaration, or a definition.
pub open spec fn spec_top(toks: Seq<Tok>, i: nat) -> Option<(NodeV, nat)>
    decreases pos_measure(toks, i), 12nat,
{
    if spec_ext_block(toks, i) is Some {
        spec_ext_block(toks, i)
    } else if spec_fn_decl(toks, i) is Some {
        spec_fn_decl(toks, i)
    } else {
        spec_fn_def(toks, i)
    }
}

/// Zero or more top-level items; stops before the first token that starts
/// none.
pub open spec fn spec_top_list(toks: Seq<Tok>, i: nat) -> Option<(Seq<NodeV>, nat)>
    decreases pos_measure(toks, i), 13nat,
{
    match spec_top(toks, i) {
        Some((n, j)) => {
            if i < j && j <= toks.len() {
                match spec_top_list(toks, j) {
                    Some((ns, k)) => Some((seq![n] + ns, k)),
                    None => None,
                }
            } else {
                None
            }
        },
        None => Some((seq![], i)),
    }
}

/// The whole program: top-level items followed by the end of the stream.
/// `Err` carries the index of the first token that could not be consumed.
pub open spec fn spec_root(toks: Seq<Tok>) -> Result<Seq<NodeV>, nat> {
    match spec_top_list(toks, 0) {
        Some((ns, j)) => {
            if tok_is(toks, j, Token::EOF) {
                Ok(ns)
            } else {
                Err(j)
            }
        },
        None => Err(0),
    }
}

// ===========================================================================
// The executable parser: one function per production, each proved equal to
// its grammar function above.
// ===========================================================================

/// The span the parse error points at when parsing stops at position `p`.
pub open spec fn spec_err_span(toks: Seq<Tok>, p: nat) -> Span {
    if p < toks.len() {
        toks[p as int].span
    } else if toks.len() > 0 {
        Span { start: toks[toks.len() - 1].span.end, end: toks[toks.len() - 1].span.end }
    } else {
        Span { start: 0, end: 0 }
    }
}

fn is_tok(toks: &Vec<Tok>, i: usize, t: Token) -> (r: bool)
    ensures
        r == tok_is(toks@, i as nat, t),
        r ==> i < toks.len(),
{
    i < toks.len() && toks[i].token == t
}

fn mk_leaf(toks: &Vec<Tok>, i: usize, kind: NodeValue) -> (r: Node)
    requires
        i < toks@.len(),
    ensures
        r@ == leaf(toks@, i as nat, kind),
{
    Node { node: kind, span: toks[i].span, children: Vec::new() }
}

fn mk_null_after(toks: &Vec<Tok>, i: usize) -> (r: Node)
    requires
        i < toks@.len(),
    ensures
        r@ == null_after(toks@, i as nat),
{
    let e = toks[i].span.end;
    Node { node: NodeValue::null(), span: Span { start: e, end: e }, children: Vec::new() }
}

fn mk_span(toks: &Vec<Tok>, i: usize, j: usize) -> (r: Span)
    requires
        i < j <= toks@.len(),
    ensures
        r == span_of(toks@, i as nat, j as nat),
{
    Span { start: toks[i].span.start, end: toks[j - 1].span.end }
}

pub fn p_value(toks: &Vec<Tok>, i: usize) -> (r: Option<(Node, usize)>)
    ensures
        r matches Some(x) ==> spec_value(toks@, i as nat) == Some((x.0@, x.1 as nat))
            && i < x.1 <= toks@.len(),
        r is None ==> spec_value(toks@, i as nat) is None,
    decreases pos_measure(toks@, i as nat), 2nat,
{
    match p_fn_call(toks, i) {
        Some(x) => Some(x),
        None => {
            if is_tok(toks, i, Token::Number) {
                Some((mk_leaf(toks, i, NodeValue::Number), i + 1))
            } else if is_tok(toks, i, Token::Id) {
                Some((mk_leaf(toks, i, NodeValue::Id), i + 1))
            } else if is_tok(toks, i, Token::OpenParen) {
                match p_expr(toks, i + 1) {
                    Some((n, j)) => {
                        if is_tok(toks, j, Token::CloseParen) {
                            Some((n, j + 1))
                        } else {
                            None
                        }
                    },
                    None => None,
                }
            } else if is_tok(toks, i, Token::True) {
                Some((mk_leaf(toks, i, NodeValue::True), i + 1))
            } else if is_tok(toks, i, Token::False) {
                Some((mk_leaf(toks, i, NodeValue::False), i + 1))
            } else {
                None
            }
        },
    }
}

fn p_fn_call(toks: &Vec<Tok>, i: usize) -> (r: Option<(Node, usize)>)
    ensures
        r matches Some(x) ==> spec_fn_call(toks@, i as nat) == Some((x.0@, x.1 as nat))
            && i < x.1 <= toks@.len(),
        r is None ==> spec_fn_call(toks@, i as nat) is None,
    decreases pos_measure(toks@, i as nat), 1nat,
{
    if is_tok(toks, i, Token::Id) && is_tok(toks, i + 1, Token::OpenParen) {
        let args = match p_call_args(toks, i + 2) {
            Some((ns, j)) => {
                if i + 2 < j && j <= toks.len() {
                    let aspan = mk_span(toks, i + 2, j);
                    Some((Node { node: NodeValue::FnCallArgSet, span: aspan, children: ns }, j))
                } else {
                    None
                }
            },
            None => None,
        };
        match args {
            Some((aset, j)) => {
                if is_tok(toks, j, Token::CloseParen) {
                    let span = mk_span(toks, i, j + 1);
                    let mut cs: Vec<Node> = Vec::new();
                    cs.push(mk_leaf(toks, i, NodeValue::Id));
                    cs.push(aset);
                    proof {
                        lemma_nodes_view_index(cs@);
                        assert(nodes_view(cs@) =~= seq![leaf(toks@, i as nat, NodeValue::Id),
                            node_view(cs@[1])]);
                    }
                    Some((Node { node: NodeValue::FnCall, span, children: cs }, j + 1))
                } else {
                    None
                }
            },
            None => {
                if is_tok(toks, i + 2, Token::CloseParen) {
                    let span = mk_span(toks, i, i + 3);
                    let mut cs: Vec<Node> = Vec::new();
                    cs.push(mk_leaf(toks, i, NodeValue::Id));
                    cs.push(mk_null_after(toks, i + 1));
                    proof {
                        lemma_nodes_view_index(cs@);
                        assert(nodes_view(cs@) =~= seq![leaf(toks@, i as nat, NodeValue::Id),
                            null_after(toks@, (i + 1) as nat)]);
                    }
                    Some((Node { node: NodeValue::FnCall, span, children: cs }, i + 3))
                } else {
                    None
                }
            },
        }
    } else {
        None
    }
}

fn p_call_args(toks: &Vec<Tok>, i: usize) -> (r: Option<(Vec<Node>, usize)>)
    ensures
        r matches Some(x) ==> spec_call_args(toks@, i as nat)
            == Some((nodes_view(x.0@), x.1 as nat)) && i < x.1 <= toks@.len(),
        r is None ==> spec_call_args(toks@, i as nat) is None,
    decreases pos_measure(toks@, i as nat), 9nat,
{
    match p_expr(toks, i) {
        Some((n, j)) => {
            if i < j && j <= toks.len() {
                let mut acc: Vec<Node> = Vec::new();
                acc.push(n);
                proof {
                    lemma_nodes_view_index(acc@);
                    assert(nodes_view(acc@) =~= seq![node_view(acc@[0])]);
                }
                p_call_args_rest(toks, j, acc)
            } else {
                None
            }
        },
        None => None,
    }
}

fn p_call_args_rest(toks: &Vec<Tok>, i: usize, acc: Vec<Node>) -> (r: Option<(Vec<Node>, usize)>)
    requires
        i <= toks@.len(),
    ensures
        r matches Some(x) ==> spec_call_args_rest(toks@, i as nat, nodes_view(acc@))
            == Some((nodes_view(x.0@), x.1 as nat)) && i <= x.1 <= toks@.len(),
        r is None ==> spec_call_args_rest(toks@, i as nat, nodes_view(acc@)) is None,
    decreases pos_measure(toks@, i as nat), 0nat,
{
    if is_tok(toks, i, Token::Comma) {
        match p_expr(toks, i + 1) {
            Some((n, j)) => {
                if i + 1 < j && j <= toks.len() {
                    let ghost acc0 = acc@;
                    let mut acc2 = acc;
                    acc2.push(n);
                    proof {
                        lemma_nodes_view_push(acc0, acc2@[acc2@.len() - 1]);
                    }
                    p_call_args_rest(toks, j, acc2)
                } else {
                    None
                }
            },
            None => None,
        }
    } else {
        if i <= toks.len() {
            Some((acc, i))
        } else {
            Some((acc, i))
        }
    }
}

fn p_product(toks: &Vec<Tok>, i: usize) -> (r: Option<(Node, usize)>)
    ensures
        r matches Some(x) ==> spec_product(toks@, i as nat) == Some((x.0@, x.1 as nat))
            && i < x.1 <= toks@.len(),
        r is None ==> spec_product(toks@, i as nat) is None,
    decreases pos_measure(toks@, i as nat), 3nat,
{
    match p_value(toks, i) {
        Some((n, j)) => {
            if i < j && j <= toks.len() {
                let mut acc: Vec<Node> = Vec::new();
                acc.push(n);
                proof {
                    lemma_nodes_view_index(acc@);
                    assert(nodes_view(acc@) =~= seq![node_view(acc@[0])]);
                }
                match p_product_rest(toks, j, acc) {
                    Some((ns, k)) => {
                        let span = mk_span(toks, i, k);
                        Some((Node { node: NodeValue::Product, span, children: ns }, k))
                    },
                    None => None,
                }
            } else {
                None
            }
        },
        None => None,
    }
}

fn p_product_rest(toks: &Vec<Tok>, i: usize, acc: Vec<Node>) -> (r: Option<(Vec<Node>, usize)>)
    requires
        i <= toks@.len(),
    ensures
        r matches Some(x) ==> spec_product_rest(toks@, i as nat, nodes_view(acc@))
            == Some((nodes_view(x.0@), x.1 as nat)) && i <= x.1 <= toks@.len(),
        r is None ==> spec_product_rest(toks@, i as nat, nodes_view(acc@)) is None,
    decreases pos_measure(toks@, i as nat), 0nat,
{
    if is_tok(toks, i, Token::Mul) || is_tok(toks, i, Token::Div) {
        let opkind = if toks[i].token == Token::Mul { NodeValue::Mul } else { NodeValue::Div };
        match p_value(toks, i + 1) {
            Some((n, j)) => {
                if i + 1 < j && j <= toks.len() {
                    let ghost acc0 = acc@;
                    let mut acc2 = acc;
                    acc2.push(mk_leaf(toks, i, opkind));
                    proof {
                        lemma_nodes_view_push(acc0, acc2@[acc2@.len() - 1]);
                    }
                    let ghost acc1 = acc2@;
                    acc2.push(n);
                    proof {
                        lemma_nodes_view_push(acc1, acc2@[acc2@.len() - 1]);
                    }
                    p_product_rest(toks, j, acc2)
                } else {
                    None
                }
            },
            None => Some((acc, i)),
        }
    } else {
        Some((acc, i))
    }
}

fn p_sum(toks: &Vec<Tok>, i: usize) -> (r: Option<(Node, usize)>)
    ensures
        r matches Some(x) ==> spec_sum(toks@, i as nat) == Some((x.0@, x.1 as nat))
            && i < x.1 <= toks@.len(),
        r is None ==> spec_sum(toks@, i as nat) is None,
    decreases pos_measure(toks@, i as nat), 4nat,
{
    match p_product(toks, i) {
        Some((n, j)) => {
            if i < j && j <= toks.len() {
                let mut acc: Vec<Node> = Vec::new();
                acc.push(n);
                proof {
                    lemma_nodes_view_index(acc@);
                    assert(nodes_view(acc@) =~= seq![node_view(acc@[0])]);
                }
                match p_sum_rest(toks, j, acc) {
                    Some((ns, k)) => {
                        let span = mk_span(toks, i, k);
                        Some((Node { node: NodeValue::Sum, span, children: ns }, k))
                    },
                    None => None,
                }
            } else {
                None
            }
        },
        None => None,
    }
}

fn p_sum_rest(toks: &Vec<Tok>, i: usize, acc: Vec<Node>) -> (r: Option<(Vec<Node>, usize)>)
    requires
        i <= toks@.len(),
    ensures
        r matches Some(x) ==> spec_sum_rest(toks@, i as nat, nodes_view(acc@))
            == Some((nodes_view(x.0@), x.1 as nat)) && i <= x.1 <= toks@.len(),
        r is None ==> spec_sum_rest(toks@, i as nat, nodes_view(acc@)) is None,
    decreases pos_measure(toks@, i as nat), 0nat,
{
    if is_tok(toks, i, Token::Add) || is_tok(toks, i, Token::Sub) {
        let opkind = if toks[i].token == Token::Add { NodeValue::Add } else { NodeValue::Sub };
        match p_product(toks, i + 1) {
            Some((n, j)) => {
                if i + 1 < j && j <= toks.len() {
                    let ghost acc0 = acc@;
                    let mut acc2 = acc;
                    acc2.push(mk_leaf(toks, i, opkind));
                    proof {
                        lemma_nodes_view_push(acc0, acc2@[acc2@.len() - 1]);
                    }
                    let ghost acc1 = acc2@;
                    acc2.push(n);
                    proof {
                        lemma_nodes_view_push(acc1, acc2@[acc2@.len() - 1]);
                    }
                    p_sum_rest(toks, j, acc2)
                } else {
                    None
                }
            },
            None => Some((acc, i)),
        }
    } else {
        Some((acc, i))
    }
}

fn exec_bool_op(t: Token) -> (r: Option<NodeValue>)
    ensures
        r == spec_bool_op(t),
{
    match t {
        Token::GT => Some(NodeValue::GT),
        Token::GTE => Some(NodeValue::GTE),
        Token::EQ => Some(NodeValue::EQ),
        Token::LT => Some(NodeValue::LT),
        Token::LTE => Some(NodeValue::LTE),
        _ => None,
    }
}

fn p_bool_expr(toks: &Vec<Tok>, i: usize) -> (r: Option<(Node, usize)>)
    ensures
        r matches Some(x) ==> spec_bool_expr(toks@, i as nat) == Some((x.0@, x.1 as nat))
            && i < x.1 <= toks@.len(),
        r is None ==> spec_bool_expr(toks@, i as nat) is None,
    decreases pos_measure(toks@, i as nat), 5nat,
{
    match p_sum(toks, i) {
        Some((n, j)) => {
            if i < j && j <= toks.len() {
                let mut acc: Vec<Node> = Vec::new();
                acc.push(n);
                proof {
                    lemma_nodes_view_index(acc@);
                    assert(nodes_view(acc@) =~= seq![node_view(acc@[0])]);
                }
                match p_bool_rest(toks, j, acc) {
                    Some((ns, k)) => {
                        let span = mk_span(toks, i, k);
                        Some((Node { node: NodeValue::BoolExpr, span, children: ns }, k))
                    },
                    None => None,
                }
            } else {
                None
            }
        },
        None => None,
    }
}

fn p_bool_rest(toks: &Vec<Tok>, i: usize, acc: Vec<Node>) -> (r: Option<(Vec<Node>, usize)>)
    requires
        i <= toks@.len(),
    ensures
        r matches Some(x) ==> spec_bool_rest(toks@, i as nat, nodes_view(acc@))
            == Some((nodes_view(x.0@), x.1 as nat)) && i <= x.1 <= toks@.len(),
        r is None ==> spec_bool_rest(toks@, i as nat, nodes_view(acc@)) is None,
    decreases pos_measure(toks@, i as nat), 0nat,
{
    if i < toks.len() {
        match exec_bool_op(toks[i].token) {
            Some(opkind) => {
                match p_sum(toks, i + 1) {
                    Some((n, j)) => {
                        if i + 1 < j && j <= toks.len() {
                            let ghost acc0 = acc@;
                            let mut acc2 = acc;
                            acc2.push(mk_leaf(toks, i, opkind));
                            proof {
                                lemma_nodes_view_push(acc0, acc2@[acc2@.len() - 1]);
                            }
                            let ghost acc1 = acc2@;
                            acc2.push(n);
                            proof {
                                lemma_nodes_view_push(acc1, acc2@[acc2@.len() - 1]);
                            }
                            p_bool_rest(toks, j, acc2)
                        } else {
                            None
                        }
                    },
                    None => Some((acc, i)),
                }
            },
            None => Some((acc, i)),
        }
    } else {
        Some((acc, i))
    }
}

fn p_let_expr(toks: &Vec<Tok>, i: usize) -> (r: Option<(Node, usize)>)
    ensures
        r matches Some(x) ==> spec_let_expr(toks@, i as nat) == Some((x.0@, x.1 as nat))
            && i < x.1 <= toks@.len(),
        r is None ==> spec_let_expr(toks@, i as nat) is None,
    decreases pos_measure(toks@, i as nat), 6nat,
{
    if is_tok(toks, i, Token::Let) && is_tok(toks, i + 1, Token::Id)
        && is_tok(toks, i + 2, Token::Assign) {
        match p_expr(toks, i + 3) {
            Some((n, j)) => {
                let span = Span { start: toks[i].span.start, end: n.span.end };
                let mut cs: Vec<Node> = Vec::new();
                cs.push(mk_leaf(toks, i + 1, NodeValue::Id));
                cs.push(n);
                proof {
                    lemma_nodes_view_index(cs@);
                    assert(nodes_view(cs@) =~= seq![node_view(cs@[0]), node_view(cs@[1])]);
                    assert(cs@[1]@.span.end == span.end);
                }
                Some((Node { node: NodeValue::VarAssign, span, children: cs }, j))
            },
            None => None,
        }
    } else {
        None
    }
}

fn p_if_expr(toks: &Vec<Tok>, i: usize) -> (r: Option<(Node, usize)>)
    ensures
        r matches Some(x) ==> spec_if_expr(toks@, i as nat) == Some((x.0@, x.1 as nat))
            && i < x.1 <= toks@.len(),
        r is None ==> spec_if_expr(toks@, i as nat) is None,
    decreases pos_measure(toks@, i as nat), 7nat,
{
    if is_tok(toks, i, Token::If) {
        match p_bool_expr(toks, i + 1) {
            Some((c, j)) => {
                if i < j && is_tok(toks, j, Token::OpenBrace) {
                    match p_exprs(toks, j + 1) {
                        Some((es, k)) => {
                            if j < k && is_tok(toks, k, Token::CloseBrace) {
                                let span = mk_span(toks, i, k + 1);
                                let ghost esv = es@;
                                let mut cs: Vec<Node> = Vec::new();
                                cs.push(c);
                                let mut es2 = es;
                                cs.append(&mut es2);
                                proof {
                                    lemma_nodes_view_index(cs@);
                                    lemma_nodes_view_index(esv);
                                    assert(nodes_view(cs@) =~= seq![node_view(cs@[0])]
                                        + nodes_view(esv));
                                }
                                Some((Node { node: NodeValue::If, span, children: cs }, k + 1))
                            } else {
                                None
                            }
                        },
                        None => None,
                    }
                } else {
                    None
                }
            },
            None => None,
        }
    } else {
        None
    }
}

pub fn p_expr(toks: &Vec<Tok>, i: usize) -> (r: Option<(Node, usize)>)
    ensures
        r matches Some(x) ==> spec_expr(toks@, i as nat) == Some((x.0@, x.1 as nat))
            && i < x.1 <= toks@.len(),
        r is None ==> spec_expr(toks@, i as nat) is None,
    decreases pos_measure(toks@, i as nat), 8nat,
{
    let inner: Option<(Node, usize)> = match p_if_expr(toks, i) {
        Some(x) => Some(x),
        None => match p_bool_expr(toks, i) {
            Some(x) => Some(x),
            None => match p_let_expr(toks, i) {
                Some(x) => Some(x),
                None => match p_fn_call(toks, i) {
                    Some(x) => Some(x),
                    None => p_fn_def(toks, i),
                },
            },
        },
    };
    match inner {
        Some((n, j)) => {
            let span = n.span;
            let mut cs: Vec<Node> = Vec::new();
            cs.push(n);
            proof {
                lemma_nodes_view_index(cs@);
                assert(nodes_view(cs@) =~= seq![node_view(cs@[0])]);
            }
            Some((Node { node: NodeValue::Expr, span, children: cs }, j))
        },
        None => None,
    }
}

fn p_exprs(toks: &Vec<Tok>, i: usize) -> (r: Option<(Vec<Node>, usize)>)
    ensures
        r matches Some(x) ==> spec_exprs(toks@, i as nat)
            == Some((nodes_view(x.0@), x.1 as nat)) && i < x.1 <= toks@.len(),
        r is None ==> spec_exprs(toks@, i as nat) is None,
    decreases pos_measure(toks@, i as nat), 9nat,
{
    match p_expr(toks, i) {
        Some((n, j)) => {
            if i < j && j <= toks.len() {
                let mut acc: Vec<Node> = Vec::new();
                acc.push(n);
                proof {
                    lemma_nodes_view_index(acc@);
                    assert(nodes_view(acc@) =~= seq![node_view(acc@[0])]);
                }
                p_exprs_rest(toks, j, acc)
            } else {
                None
            }
        },
        None => None,
    }
}

fn p_exprs_rest(toks: &Vec<Tok>, i: usize, acc: Vec<Node>) -> (r: Option<(Vec<Node>, usize)>)
    requires
        i <= toks@.len(),
    ensures
        r matches Some(x) ==> spec_exprs_rest(toks@, i as nat, nodes_view(acc@))
            == Some((nodes_view(x.0@), x.1 as nat)) && i <= x.1 <= toks@.len(),
        r is None ==> spec_exprs_rest(toks@, i as nat, nodes_view(acc@)) is None,
    decreases pos_measure(toks@, i as nat), 0nat,
{
    if is_tok(toks, i, Token::Semicolon) {
        match p_expr(toks, i + 1) {
            Some((n, j)) => {
                if i + 1 < j && j <= toks.len() {
                    let ghost acc0 = acc@;
                    let mut acc2 = acc;
                    acc2.push(n);
                    proof {
                        lemma_nodes_view_push(acc0, acc2@[acc2@.len() - 1]);
                    }
                    p_exprs_rest(toks, j, acc2)
                } else {
                    None
                }
            },
            None => Some((acc, i + 1)),
        }
    } else {
        Some((acc, i))
    }
}

fn p_def_args(toks: &Vec<Tok>, i: usize) -> (r: Option<(Node, usize)>)
    ensures
        r matches Some(x) ==> spec_def_args(toks@, i as nat) == Some((x.0@, x.1 as nat))
            && i < x.1 <= toks@.len(),
        r is None ==> spec_def_args(toks@, i as nat) is None,
    decreases pos_measure(toks@, i as nat), 1nat,
{
    if is_tok(toks, i, Token::OpenParen) && is_tok(toks, i + 1, Token::Id)
        && is_tok(toks, i + 2, Token::Colon) && is_tok(toks, i + 3, Token::Id) {
        let mut acc: Vec<Node> = Vec::new();
        acc.push(mk_leaf(toks, i + 1, NodeValue::Id));
        acc.push(mk_leaf(toks, i + 3, NodeValue::Id));
        proof {
            lemma_nodes_view_index(acc@);
            assert(nodes_view(acc@) =~= seq![node_view(acc@[0]), node_view(acc@[1])]);
        }
        match p_def_args_rest(toks, i + 4, acc) {
            Some((ns, j)) => {
                if is_tok(toks, j, Token::CloseParen) {
                    let span = mk_span(toks, i, j + 1);
                    Some((Node { node: NodeValue::FnDefArgSet, span, children: ns }, j + 1))
                } else {
                    None
                }
            },
            None => None,
        }
    } else {
        None
    }
}

fn p_def_args_rest(toks: &Vec<Tok>, i: usize, acc: Vec<Node>) -> (r: Option<(Vec<Node>, usize)>)
    requires
        i <= toks@.len(),
    ensures
        r matches Some(x) ==> spec_def_args_rest(toks@, i as nat, nodes_view(acc@))
            == Some((nodes_view(x.0@), x.1 as nat)) && i <= x.1 <= toks@.len(),
        r is None ==> spec_def_args_rest(toks@, i as nat, nodes_view(acc@)) is None,
    decreases pos_measure(toks@, i as nat), 0nat,
{
    if is_tok(toks, i, Token::Comma) {
        if is_tok(toks, i + 1, Token::Id) && is_tok(toks, i + 2, Token::Colon)
            && is_tok(toks, i + 3, Token::Id) {
            let ghost acc0 = acc@;
            let mut acc2 = acc;
            acc2.push(mk_leaf(toks, i + 1, NodeValue::Id));
            proof {
                lemma_nodes_view_push(acc0, acc2@[acc2@.len() - 1]);
            }
            let ghost acc1 = acc2@;
            acc2.push(mk_leaf(toks, i + 3, NodeValue::Id));
            proof {
                lemma_nodes_view_push(acc1, acc2@[acc2@.len() - 1]);
            }
            p_def_args_rest(toks, i + 4, acc2)
        } else {
            None
        }
    } else {
        Some((acc, i))
    }
}

fn p_fn_head(toks: &Vec<Tok>, i: usize) -> (r: Option<(Node, Node, Node, usize)>)
    ensures
        r matches Some(x) ==> spec_fn_head(toks@, i as nat)
            == Some((x.0@, x.1@, x.2@, x.3 as nat)) && i < x.3 <= toks@.len(),
        r is None ==> spec_fn_head(toks@, i as nat) is None,
    decreases pos_measure(toks@, i as nat), 2nat,
{
    if is_tok(toks, i, Token::Fn) && is_tok(toks, i + 1, Token::Id) {
        let aset = match p_def_args(toks, i + 2) {
            Some((a, j)) => {
                if i + 2 < j && j <= toks.len() {
                    Some((a, j))
                } else {
                    None
                }
            },
            None => None,
        };
        let (aset_node, p): (Node, usize) = match aset {
            Some((a, j)) => (a, j),
            None => (mk_null_after(toks, i + 1), i + 2),
        };
        if is_tok(toks, p, Token::TypeArrow) && is_tok(toks, p + 1, Token::Id) {
            Some((mk_leaf(toks, i + 1, NodeValue::Id), aset_node,
                mk_leaf(toks, p + 1, NodeValue::Id), p + 2))
        } else {
            None
        }
    } else {
        None
    }
}

fn p_fn_def(toks: &Vec<Tok>, i: usize) -> (r: Option<(Node, usize)>)
    ensures
        r matches Some(x) ==> spec_fn_def(toks@, i as nat) == Some((x.0@, x.1 as nat))
            && i < x.1 <= toks@.len(),
        r is None ==> spec_fn_def(toks@, i as nat) is None,
    decreases pos_measure(toks@, i as nat), 3nat,
{
    match p_fn_head(toks, i) {
        Some((name, aset, ret, p)) => {
            if i < p && is_tok(toks, p, Token::OpenBrace) {
                match p_exprs(toks, p + 1) {
                    Some((es, k)) => {
                        if p < k && is_tok(toks, k, Token::CloseBrace) {
                            let span = mk_span(toks, i, k + 1);
                            let ghost esv = es@;
                            let mut cs: Vec<Node> = Vec::new();
                            cs.push(name);
                            cs.push(aset);
                            cs.push(ret);
                            let mut es2 = es;
                            cs.append(&mut es2);
                            proof {
                                lemma_nodes_view_index(cs@);
                                lemma_nodes_view_index(esv);
                                assert(nodes_view(cs@) =~= seq![node_view(cs@[0]),
                                    node_view(cs@[1]), node_view(cs@[2])] + nodes_view(esv));
                            }
                            Some((Node { node: NodeValue::FnDef, span, children: cs }, k + 1))
                        } else {
                            None
                        }
                    },
                    None => None,
                }
            } else {
                None
            }
        },
        None => None,
    }
}

fn p_fn_decl(toks: &Vec<Tok>, i: usize) -> (r: Option<(Node, usize)>)
    ensures
        r matches Some(x) ==> spec_fn_decl(toks@, i as nat) == Some((x.0@, x.1 as nat))
            && i < x.1 <= toks@.len(),
        r is None ==> spec_fn_decl(toks@, i as nat) is None,
    decreases pos_measure(toks@, i as nat), 10nat,
{
    match p_fn_head(toks, i) {
        Some((name, aset, ret, p)) => {
            if i < p && is_tok(toks, p, Token::Semicolon) {
                let span = mk_span(toks, i, p + 1);
                let mut cs: Vec<Node> = Vec::new();
                cs.push(name);
                cs.push(aset);
                cs.push(ret);
                proof {
                    lemma_nodes_view_index(cs@);
                    assert(nodes_view(cs@) =~= seq![node_view(cs@[0]), node_view(cs@[1]),
                        node_view(cs@[2])]);
                }
                Some((Node { node: NodeValue::FnDecl, span, children: cs }, p + 1))
            } else {
                None
            }
        },
        None => None,
    }
}

fn p_ext_block(toks: &Vec<Tok>, i: usize) -> (r: Option<(Node, usize)>)
    ensures
        r matches Some(x) ==> spec_ext_block(toks@, i as nat) == Some((x.0@, x.1 as nat))
            && i < x.1 <= toks@.len(),
        r is None ==> spec_ext_block(toks@, i as nat) is None,
    decreases pos_measure(toks@, i as nat), 11nat,
{
    if is_tok(toks, i, Token::Extern) {
        if is_tok(toks, i + 1, Token::OpenBrace) {
            match p_top_list(toks, i + 2) {
                Some((ns, j)) => {
                    if is_tok(toks, j, Token::CloseBrace) {
                        let span = mk_span(toks, i, j + 1);
                        Some((Node { node: NodeValue::Extern, span, children: ns }, j + 1))
                    } else {
                        None
                    }
                },
                None => None,
            }
        } else {
            match p_top(toks, i + 1) {
                Some((n, j)) => {
                    if i + 1 < j && j <= toks.len() {
                        let span = mk_span(toks, i, j);
                        let mut cs: Vec<Node> = Vec::new();
                        cs.push(n);
                        proof {
                            lemma_nodes_view_index(cs@);
                            assert(nodes_view(cs@) =~= seq![node_view(cs@[0])]);
                        }
                        Some((Node { node: NodeValue::Extern, span, children: cs }, j))
                    } else {
                        None
                    }
                },
                None => None,
            }
        }
    } else {
        None
    }
}

fn p_top(toks: &Vec<Tok>, i: usize) -> (r: Option<(Node, usize)>)
    ensures
        r matches Some(x) ==> spec_top(toks@, i as nat) == Some((x.0@, x.1 as nat))
            && i < x.1 <= toks@.len(),
        r is None ==> spec_top(toks@, i as nat) is None,
    decreases pos_measure(toks@, i as nat), 12nat,
{
    match p_ext_block(toks, i) {
        Some(x) => Some(x),
        None => match p_fn_decl(toks, i) {
            Some(x) => Some(x),
            None => p_fn_def(toks, i),
        },
    }
}

fn p_top_list(toks: &Vec<Tok>, i: usize) -> (r: Option<(Vec<Node>, usize)>)
    requires
        i <= toks@.len(),
    ensures
        r matches Some(x) ==> spec_top_list(toks@, i as nat)
            == Some((nodes_view(x.0@), x.1 as nat)) && i <= x.1 <= toks@.len(),
        r is None ==> spec_top_list(toks@, i as nat) is None,
    decreases pos_measure(toks@, i as nat), 13nat,
{
    match p_top(toks, i) {
        Some((n, j)) => {
            if i < j && j <= toks.len() {
                match p_top_list(toks, j) {
                    Some((ns, k)) => {
                        let ghost nsv = ns@;
                        let mut v: Vec<Node> = Vec::new();
                        v.push(n);
                        let mut ns2 = ns;
                        v.append(&mut ns2);
                        proof {
                            lemma_nodes_view_index(v@);
                            lemma_nodes_view_index(nsv);
                            assert(nodes_view(v@) =~= seq![node_view(v@[0])] + nodes_view(nsv));
                        }
                        Some((v, k))
                    },
                    None => None,
                }
            } else {
                None
            }
        },
        None => Some((Vec::new(), i)),
    }
}

/// Parses a whole program out of a structural token stream: zero or more
/// top-level items followed by the end of the stream.  On failure the error
/// points at the first token that could not be consumed.
pub fn parse_root(toks: &Vec<Tok>) -> (r: Result<Vec<Node>, Error>)
    ensures
        r matches Ok(ns) ==> spec_root(toks@) == Ok::<Seq<NodeV>, nat>(nodes_view(ns@)),
        r matches Err(e) ==> (spec_root(toks@) matches Err(p)
            && e == Error::ParseError(spec_err_span(toks@, p))),
{
    match p_top_list(toks, 0) {
        Some((ns, j)) => {
            if is_tok(toks, j, Token::EOF) {
                Ok(ns)
            } else {
                let span = if j < toks.len() {
                    toks[j].span
                } else if toks.len() > 0 {
                    let e = toks[toks.len() - 1].span.end;
                    Span { start: e, end: e }
                } else {
                    Span { start: 0, end: 0 }
                };
                Err(Error::ParseError(span))
            }
        },
        None => Err(Error::ParseError(if toks.len() > 0 { toks[0].span } else {
            Span { start: 0, end: 0 }
        })),
    }
}

} // verus!

