use vstd::prelude::*;
use crate::error::{Error, Span};
use crate::ir::{BlockId, FuncId, IrModuleV, IrModule, Op, OpV, Val, VarId,
    spec_new_function, spec_push_block, spec_push_instruction, spec_push_variable,
    spec_switch_to_block, spec_switch_to_function, named_types_view};
use crate::linkage::Linkage;
use crate::node::{Node, NodeV, NodeValue, nodes_view, lemma_nodes_view_index, clone_nodes_from};
use crate::sig::{Param, SigEntryV, SigTable, span_text, span_text_eq,
    span_is_main, type_of_span, spec_params, main_name, spec_find, lemma_spec_find};
use crate::type_::{Type, Types, spec_type_name};

verus! {

// ---------------------------------------------------------------------------
// Decimal literals and their encoding
// ---------------------------------------------------------------------------

pub open spec fn spec_digit_val(c: char) -> int {
    c as int - 48
}

pub open spec fn spec_all_digits(s: Seq<char>) -> bool {
    forall|i: int| 0 <= i < s.len() ==> crate::token::is_digit_char(#[trigger] s[i])
}

/// The value of a digit string, most significant digit first.
pub open spec fn spec_dec_val(s: Seq<char>) -> int
    decreases s.len(),
{
    if s.len() == 0 {
        0
    } else {
        spec_dec_val(s.drop_last()) * 10 + spec_digit_val(s.last())
    }
}

/// The 64-bit signed integer a literal's text denotes: defined when the text
/// is one or more decimal digits and the value fits.  Wider literal forms
/// (fractions, exponents) and overflowing values have no reading.
pub open spec fn spec_parse_i64(s: Seq<char>) -> Option<i64> {
    if s.len() > 0 && spec_all_digits(s) && spec_dec_val(s) <= i64::MAX {
        Some(spec_dec_val(s) as i64)
    } else {
        None
    }
}

proof fn lemma_dec_val_nonneg(s: Seq<char>)
    requires
        spec_all_digits(s),
    ensures
        spec_dec_val(s) >= 0,
    decreases s.len(),
{
    if s.len() > 0 {
        assert(spec_all_digits(s.drop_last())) by {
            assert(forall|i: int| 0 <= i < s.len() - 1 ==> crate::token::is_digit_char(
                #[trigger] s.drop_last()[i]));
        }
        lemma_dec_val_nonneg(s.drop_last());
        assert(spec_digit_val(s.last()) >= 0);
    }
}

proof fn lemma_dec_val_monotone(s: Seq<char>, i: int)
    requires
        spec_all_digits(s),
        0 <= i <= s.len(),
    ensures
        spec_dec_val(s.take(i)) <= spec_dec_val(s),
    decreases s.len() - i,
{
    if i < s.len() {
        lemma_dec_val_monotone(s, i + 1);
        let t = s.take(i + 1);
        assert(t.drop_last() =~= s.take(i));
        assert(spec_all_digits(s.take(i))) by {
            assert(forall|j: int| 0 <= j < i ==> crate::token::is_digit_char(
                #[trigger] s.take(i)[j]));
        }
        lemma_dec_val_nonneg(s.take(i));
        assert(spec_dec_val(t) == spec_dec_val(s.take(i)) * 10 + spec_digit_val(t.last()));
        assert(spec_digit_val(t.last()) >= 0);
    } else {
        assert(s.take(i) =~= s);
    }
}

/// Reads the span's text as a 64-bit signed decimal literal.
pub fn parse_i64(input: &Vec<char>, sp: Span) -> (r: Option<i64>)
    ensures
        r == spec_parse_i64(span_text(input@, sp)),
{
    let ghost s = span_text(input@, sp);
    if !(sp.start <= sp.end && sp.end <= input.len()) || sp.start == sp.end {
        proof {
            assert(s.len() == 0);
        }
        return None;
    }
    let n = sp.end - sp.start;
    let mut acc: i64 = 0;
    let mut i: usize = 0;
    while i < n
        invariant
            sp.start <= sp.end <= input@.len(),
            n == sp.end - sp.start,
            0 < n,
            i <= n,
            s == span_text(input@, sp),
            s.len() == n,
            spec_all_digits(s.take(i as int)),
            0 <= acc <= i64::MAX,
            acc == spec_dec_val(s.take(i as int)),
        decreases n - i,
    {
        let c = input[sp.start + i];
        proof {
            assert(s[i as int] == input@[sp.start + i]);
        }
        if !('0' <= c && c <= '9') {
            proof {
                assert(!crate::token::is_digit_char(s[i as int]));
            }
            return None;
        }
        let d: i64 = (c as u32 as i64) - 48;
        proof {
            assert(0 <= d <= 9);
        }
        if acc > (i64::MAX - d) / 10 {
            proof {
                assert(s.take(i + 1).drop_last() =~= s.take(i as int));
                assert(s.take(i + 1).last() == s[i as int]);
                assert(spec_dec_val(s.take(i + 1)) == acc * 10 + d);
                assert(spec_dec_val(s.take(i + 1)) > i64::MAX);
                assert(spec_all_digits(s.take(i + 1)));
                if spec_all_digits(s) {
                    lemma_dec_val_monotone(s, i + 1);
                    assert(spec_dec_val(s) > i64::MAX);
                }
            }
            return None;
        }
        proof {
            assert(s.take(i + 1).drop_last() =~= s.take(i as int));
            assert(s.take(i + 1).last() == s[i as int]);
        }
        acc = acc * 10 + d;
        i = i + 1;
    }
    proof {
        assert(s.take(n as int) =~= s);
        assert(spec_parse_i64(s) == Some(acc));
    }
    Some(acc)
}

/// The little-endian two's-complement encoding of a 64-bit value: byte `k`
/// holds bits `8k` to `8k + 7`.
pub open spec fn spec_le_bytes(v: i64) -> Seq<u8> {
    Seq::new(8, |k: int| (((v as u64) >> (8 * k as u64)) & 0xff) as u8)
}

/// Encodes a 64-bit value as its eight little-endian bytes.
pub fn le_bytes(v: i64) -> (r: Vec<u8>)
    ensures
        r@ == spec_le_bytes(v),
{
    let u = v as u64;
    let mut r: Vec<u8> = Vec::new();
    let mut k: usize = 0;
    while k < 8
        invariant
            k <= 8,
            u == v as u64,
            r@.len() == k,
            forall|j: int| 0 <= j < k ==> r@[j] == (((v as u64) >> (8 * j as u64)) & 0xff) as u8,
        decreases 8 - k,
    {
        let b: u8 = ((u >> ((8 * k) as u64)) & 0xff) as u8;
        r.push(b);
        k = k + 1;
    }
    proof {
        assert(r@ =~= spec_le_bytes(v));
    }
    r
}

// ---------------------------------------------------------------------------
// The lowering state: variable environment, function table, compile queue
// ---------------------------------------------------------------------------

/// One variable binding of the lowering environment: the name's span, the
/// bound type, and the variable slot holding the value.
#[derive(Clone, Copy, PartialEq, Eq, Structural, Debug)]
pub struct Binding {
    pub name: Span,
    pub ty: Type,
    pub var: VarId,
}

/// The binding for `name`, reading the environment back to front: a later
/// binding of the same name overwrites an earlier one.
pub open spec fn spec_benv_find(env: Seq<Binding>, input: Seq<char>, name: Seq<char>) -> Option<Binding>
    decreases env.len(),
{
    if env.len() == 0 {
        None
    } else if span_text(input, env.last().name) == name {
        Some(env.last())
    } else {
        spec_benv_find(env.drop_last(), input, name)
    }
}

fn benv_find_upto(input: &Vec<char>, env: &Vec<Binding>, name: Span, upto: usize) -> (r: Option<Binding>)
    requires
        upto <= env@.len(),
    ensures
        r == spec_benv_find(env@.take(upto as int), input@, span_text(input@, name)),
    decreases upto,
{
    if upto == 0 {
        proof {
            assert(env@.take(0).len() == 0);
        }
        None
    } else {
        proof {
            assert(env@.take(upto as int).last() == env@[upto - 1]);
            assert(env@.take(upto as int).drop_last() =~= env@.take(upto - 1));
        }
        if span_text_eq(input, env[upto - 1].name, name) {
            Some(env[upto - 1])
        } else {
            benv_find_upto(input, env, name, upto - 1)
        }
    }
}

/// The binding for the name the span reads as, if any.
pub fn benv_find(input: &Vec<char>, env: &Vec<Binding>, name: Span) -> (r: Option<Binding>)
    ensures
        r == spec_benv_find(env@, input@, span_text(input@, name)),
{
    proof {
        assert(env@.take(env@.len() as int) =~= env@);
    }
    benv_find_upto(input, env, name, env.len())
}

/// What the lowering pass knows of a created function: the span of its
/// name, its identity in the module, its arity, and its return type.
#[derive(Clone, Copy, PartialEq, Eq, Structural, Debug)]
pub struct FuncInfo {
    pub name: Span,
    pub id: FuncId,
    pub n_params: usize,
    pub ret: Type,
}

/// The first function whose name reads as `name`, if any.
pub open spec fn spec_fi_find(funcs: Seq<FuncInfo>, input: Seq<char>, name: Seq<char>) -> Option<FuncInfo>
    decreases funcs.len(),
{
    if funcs.len() == 0 {
        None
    } else if span_text(input, funcs[0].name) == name {
        Some(funcs[0])
    } else {
        spec_fi_find(funcs.drop_first(), input, name)
    }
}

fn fi_find_from(input: &Vec<char>, funcs: &Vec<FuncInfo>, name: Span, k: usize) -> (r: Option<FuncInfo>)
    requires
        k <= funcs@.len(),
    ensures
        r == spec_fi_find(funcs@.skip(k as int), input@, span_text(input@, name)),
    decreases funcs@.len() - k,
{
    if k == funcs.len() {
        proof {
            assert(funcs@.skip(k as int).len() == 0);
        }
        None
    } else {
        proof {
            assert(funcs@.skip(k as int)[0] == funcs@[k as int]);
            assert(funcs@.skip(k as int).drop_first() =~= funcs@.skip(k + 1));
        }
        if span_text_eq(input, funcs[k].name, name) {
            Some(funcs[k])
        } else {
            fi_find_from(input, funcs, name, k + 1)
        }
    }
}

/// The known function whose name reads as the span does, if any.
pub fn fi_find(input: &Vec<char>, funcs: &Vec<FuncInfo>, name: Span) -> (r: Option<FuncInfo>)
    ensures
        r == spec_fi_find(funcs@, input@, span_text(input@, name)),
{
    proof {
        assert(funcs@.skip(0) =~= funcs@);
    }
    fi_find_from(input, funcs, name, 0)
}

/// One deferred unit of work: lower `nodes` into block `block` of function
/// `func`, under the variable environment `env`.
pub struct QEntry {
    pub func: FuncId,
    pub block: BlockId,
    pub nodes: Vec<Node>,
    pub env: Vec<Binding>,
}

#[verifier::ext_equal]
pub ghost struct QEntryV {
    pub func: FuncId,
    pub block: BlockId,
    pub nodes: Seq<NodeV>,
    pub env: Seq<Binding>,
}

impl View for QEntry {
    type V = QEntryV;

    open spec fn view(&self) -> QEntryV {
        QEntryV {
            func: self.func,
            block: self.block,
            nodes: nodes_view(self.nodes@),
            env: self.env@,
        }
    }
}

pub open spec fn queue_view(q: Seq<QEntry>) -> Seq<QEntryV> {
    q.map_values(|e: QEntry| e@)
}

/// The whole state the lowering rules thread: the module under
/// construction, the active variable environment, the known functions, and
/// the compile queue.
#[verifier::ext_equal]
pub ghost struct LowerStV {
    pub m: IrModuleV,
    pub env: Seq<Binding>,
    pub funcs: Seq<FuncInfo>,
    pub queue: Seq<QEntryV>,
}

// ---------------------------------------------------------------------------
// The type of a lowered value
// ---------------------------------------------------------------------------

/// The type the lowering pass ascribes to a node's value: literals are
/// integers or booleans, chains take their leftmost operand's type (a
/// many-operand comparison chain is boolean), an expression takes its last
/// child's, an identifier its binding's, a call its callee's return type;
/// anything else (or an unresolved name) is `void`.
pub open spec fn spec_type_of(input: Seq<char>, env: Seq<Binding>, funcs: Seq<FuncInfo>, n: NodeV) -> Type
    decreases n,
{
    match n.node {
        NodeValue::Number => Type::Int,
        NodeValue::Sum | NodeValue::Product => {
            if n.children.len() > 0 {
                spec_type_of(input, env, funcs, n.children[0])
            } else {
                Type::Void
            }
        },
        NodeValue::BoolExpr => {
            if n.children.len() == 1 {
                spec_type_of(input, env, funcs, n.children[0])
            } else if n.children.len() > 1 {
                Type::Bool
            } else {
                Type::Void
            }
        },
        NodeValue::Expr => {
            if n.children.len() > 0 {
                spec_type_of(input, env, funcs, n.children.last())
            } else {
                Type::Void
            }
        },
        NodeValue::Id => {
            match spec_benv_find(env, input, span_text(input, n.span)) {
                Some(b) => b.ty,
                None => Type::Void,
            }
        },
        NodeValue::True => Type::Bool,
        NodeValue::False => Type::Bool,
        NodeValue::FnCall => {
            if n.children.len() > 0 {
                match spec_fi_find(funcs, input, span_text(input, n.children[0].span)) {
                    Some(fi) => fi.ret,
                    None => Type::Void,
                }
            } else {
                Type::Void
            }
        },
        _ => Type::Void,
    }
}

/// The lowering pass's type deriver; used to type the slot a `let` binding
/// allocates.
pub fn type_of(input: &Vec<char>, node: &Node, vars: &Vec<Binding>, funcs: &Vec<FuncInfo>) -> (r: Type)
    ensures
        r == spec_type_of(input@, vars@, funcs@, node@),
    decreases *node,
{
    proof {
        lemma_nodes_view_index(node.children@);
    }
    match node.node {
        NodeValue::Number => Type::Int,
        NodeValue::Sum | NodeValue::Product => {
            if node.children.len() > 0 {
                type_of(input, &node.children[0], vars, funcs)
            } else {
                Type::Void
            }
        },
        NodeValue::BoolExpr => {
            if node.children.len() == 1 {
                type_of(input, &node.children[0], vars, funcs)
            } else if node.children.len() > 1 {
                Type::Bool
            } else {
                Type::Void
            }
        },
        NodeValue::Expr => {
            if node.children.len() > 0 {
                type_of(input, &node.children[node.children.len() - 1], vars, funcs)
            } else {
                Type::Void
            }
        },
        NodeValue::Id => {
            match benv_find(input, vars, node.span) {
                Some(b) => b.ty,
                None => Type::Void,
            }
        },
        NodeValue::True => Type::Bool,
        NodeValue::False => Type::Bool,
        NodeValue::FnCall => {
            if node.children.len() > 0 {
                match fi_find(input, funcs, node.children[0].span) {
                    Some(fi) => fi.ret,
                    None => Type::Void,
                }
            } else {
                Type::Void
            }
        },
        _ => Type::Void,
    }
}


// ---------------------------------------------------------------------------
// Node sizes and the queue measure
// ---------------------------------------------------------------------------

pub open spec fn vsize(n: NodeV) -> nat
    decreases n,
{
    1 + ssize(n.children)
}

pub open spec fn ssize(s: Seq<NodeV>) -> nat
    decreases s,
{
    if s.len() == 0 {
        0
    } else {
        vsize(s[0]) + ssize(s.drop_first())
    }
}

proof fn lemma_ssize_skip(s: Seq<NodeV>, k: int)
    requires
        0 <= k < s.len(),
    ensures
        ssize(s.skip(k)) == vsize(s[k]) + ssize(s.skip(k + 1)),
{
    assert(s.skip(k)[0] == s[k]);
    assert(s.skip(k).drop_first() =~= s.skip(k + 1));
}

proof fn lemma_ssize_skip_le(s: Seq<NodeV>, k1: int, k2: int)
    requires
        0 <= k1 <= k2 <= s.len(),
    ensures
        ssize(s.skip(k2)) + (k2 - k1) <= ssize(s.skip(k1)),
    decreases k2 - k1,
{
    if k1 < k2 {
        lemma_ssize_skip(s, k1);
        lemma_ssize_skip_le(s, k1 + 1, k2);
    }
}

/// The total work the queue holds: each entry counts its nodes' sizes plus
/// one for itself.  Lowering strictly shrinks this measure with each entry
/// it drains, which is why the drain terminates.
pub open spec fn qm(q: Seq<QEntryV>) -> nat
    decreases q,
{
    if q.len() == 0 {
        0
    } else {
        ssize(q[0].nodes) + 1 + qm(q.drop_first())
    }
}

proof fn lemma_qm_push(q: Seq<QEntryV>, e: QEntryV)
    ensures
        qm(q.push(e)) == qm(q) + ssize(e.nodes) + 1,
    decreases q,
{
    if q.len() == 0 {
        assert(q.push(e)[0] == e);
        assert(q.push(e).drop_first() =~= Seq::<QEntryV>::empty());
        assert(qm(q.push(e)) == ssize(e.nodes) + 1 + qm(Seq::<QEntryV>::empty()));
        assert(qm(Seq::<QEntryV>::empty()) == 0);
        assert(qm(q) == 0);
    } else {
        assert(q.push(e)[0] == q[0]);
        assert(q.push(e).drop_first() =~= q.drop_first().push(e));
        lemma_qm_push(q.drop_first(), e);
        assert(qm(q.push(e)) == ssize(q[0].nodes) + 1 + qm(q.drop_first().push(e)));
        assert(qm(q) == ssize(q[0].nodes) + 1 + qm(q.drop_first()));
    }
}

// ---------------------------------------------------------------------------
// The lowering rules
// ---------------------------------------------------------------------------

/// The instruction an operator node combines two values with.
pub open spec fn spec_chain_op(kind: NodeValue, a: Val, b: Val) -> Option<OpV> {
    match kind {
        NodeValue::Mul => Some(OpV::Mul(a, b)),
        NodeValue::Div => Some(OpV::Div(a, b)),
        NodeValue::Add => Some(OpV::Add(a, b)),
        NodeValue::Sub => Some(OpV::Sub(a, b)),
        NodeValue::GT => Some(OpV::CmpGt(a, b)),
        NodeValue::GTE => Some(OpV::CmpGe(a, b)),
        NodeValue::EQ => Some(OpV::CmpEq(a, b)),
        NodeValue::LT => Some(OpV::CmpLt(a, b)),
        NodeValue::LTE => Some(OpV::CmpLe(a, b)),
        _ => None,
    }
}

/// The parameter bindings of a freshly created function: each parameter
/// bound to the variable slot of its position.
pub open spec fn spec_params_bindings(ps: Seq<Param>) -> Seq<Binding> {
    Seq::new(ps.len(), |i: int| Binding { name: ps[i].name, ty: ps[i].ty, var: VarId(i as usize) })
}

/// Lowering one body node under state `st`: the new state and the value the
/// node's code yields, or the diagnostic that aborts the pass.
///
/// A literal materializes an integer constant (booleans as a one-byte
/// constant); an identifier reads its variable; an operator chain lowers its
/// operands left to right, folding with the operator's instruction; an
/// expression lowers its children in order and yields the last value; a
/// `let` lowers the value, allocates a variable slot typed by the value's
/// computed type, writes it, and rebinds the name (overwriting any earlier
/// binding); a call lowers the arguments in order, resolves the callee,
/// enforces its arity, and emits the call; a nested definition creates its
/// function and queues its body rather than lowering it inline, restoring
/// the emission context afterwards.  Conditional blocks are not lowered in
/// this core, and node kinds that cannot stand in a body signal a malformed
/// tree.
pub open spec fn spec_compile_node(input: Seq<char>, st: LowerStV, n: NodeV) -> Result<(LowerStV, Option<Val>), Error>
    decreases n, 0nat,
{
    match n.node {
        NodeValue::Id => {
            match spec_benv_find(st.env, input, span_text(input, n.span)) {
                None => Err(Error::VarDoesntExist(n.span)),
                Some(b) => {
                    let pr = spec_push_instruction(st.m, OpV::GetVar(b.var));
                    match pr.1 {
                        Ok(res) => Ok((LowerStV { m: pr.0, ..st }, res)),
                        Err(e) => Err(e),
                    }
                },
            }
        },
        NodeValue::Number => {
            match spec_parse_i64(span_text(input, n.span)) {
                None => Err(Error::InvalidInteger(n.span)),
                Some(v) => {
                    let pr = spec_push_instruction(st.m,
                        OpV::Integer(Type::Int, spec_le_bytes(v)));
                    match pr.1 {
                        Ok(res) => Ok((LowerStV { m: pr.0, ..st }, res)),
                        Err(e) => Err(e),
                    }
                },
            }
        },
        NodeValue::True => {
            let pr = spec_push_instruction(st.m, OpV::Integer(Type::Bool, seq![1u8]));
            match pr.1 {
                Ok(res) => Ok((LowerStV { m: pr.0, ..st }, res)),
                Err(e) => Err(e),
            }
        },
        NodeValue::False => {
            let pr = spec_push_instruction(st.m, OpV::Integer(Type::Bool, seq![0u8]));
            match pr.1 {
                Ok(res) => Ok((LowerStV { m: pr.0, ..st }, res)),
                Err(e) => Err(e),
            }
        },
        NodeValue::Product | NodeValue::Sum | NodeValue::BoolExpr => {
            if n.children.len() == 1 {
                spec_compile_node(input, st, n.children[0])
            } else if n.children.len() % 2 == 1 {
                match spec_compile_node(input, st, n.children[0]) {
                    Ok((st1, v0)) => {
                        match v0 {
                            None => Err(Error::NotAllowedHere(n.children[0].span)),
                            Some(a) => spec_compile_chain(input, st1, n.children, 1, a),
                        }
                    },
                    Err(e) => Err(e),
                }
            } else {
                Err(Error::InternalCompilerError)
            }
        },
        NodeValue::Expr => spec_compile_seq(input, st, n.children, 0, None),
        NodeValue::VarAssign => {
            if n.children.len() >= 2 {
                match spec_compile_node(input, st, n.children[1]) {
                    Ok((st1, v)) => {
                        match v {
                            None => Err(Error::NotAllowedHere(n.children[1].span)),
                            Some(x) => {
                                let t = spec_type_of(input, st1.env, st1.funcs, n.children[1]);
                                let pv = spec_push_variable(st1.m,
                                    span_text(input, n.children[0].span), t);
                                match pv.1 {
                                    Err(e) => Err(e),
                                    Ok(var) => {
                                        let pi = spec_push_instruction(pv.0, OpV::SetVar(var, x));
                                        match pi.1 {
                                            Err(e) => Err(e),
                                            Ok(res) => Ok((LowerStV {
                                                m: pi.0,
                                                env: st1.env.push(Binding {
                                                    name: n.children[0].span,
                                                    ty: t,
                                                    var,
                                                }),
                                                ..st1
                                            }, res)),
                                        }
                                    },
                                }
                            },
                        }
                    },
                    Err(e) => Err(e),
                }
            } else {
                Err(Error::InternalCompilerError)
            }
        },
        NodeValue::FnCall => {
            if n.children.len() >= 2 {
                let aset = n.children[1];
                let argres: Result<(LowerStV, Seq<Val>), Error> =
                    if aset.node == NodeValue::FnCallArgSet {
                        spec_compile_call_args(input, st, aset.children, 0)
                    } else if aset.node == NodeValue::NULL {
                        Ok((st, seq![]))
                    } else {
                        Err(Error::InternalCompilerError)
                    };
                match argres {
                    Ok((st1, args)) => {
                        match spec_fi_find(st1.funcs, input,
                            span_text(input, n.children[0].span)) {
                            None => Err(Error::FuncDoesntExist(n.children[0].span)),
                            Some(fi) => {
                                if fi.n_params != args.len() {
                                    Err(Error::ExpectedNumArgs(fi.n_params,
                                        args.len() as usize, aset.span))
                                } else {
                                    let pr = spec_push_instruction(st1.m,
                                        OpV::Call(fi.id, args));
                                    match pr.1 {
                                        Ok(res) => Ok((LowerStV { m: pr.0, ..st1 }, res)),
                                        Err(e) => Err(e),
                                    }
                                }
                            },
                        }
                    },
                    Err(e) => Err(e),
                }
            } else {
                Err(Error::InternalCompilerError)
            }
        },
        NodeValue::FnDef => {
            if n.children.len() >= 3 {
                match (st.m.cur_func, st.m.cur_block) {
                    (Some(cf), Some(cb)) => {
                        match spec_params(input, n.children[1].children) {
                            Err(e) => Err(e),
                            Ok(ps) => {
                                match spec_type_name(span_text(input, n.children[2].span)) {
                                    None => Err(Error::UnknownReturnType(n.children[2].span)),
                                    Some(rt) => {
                                        let nf = spec_new_function(st.m,
                                            span_text(input, n.children[0].span),
                                            Linkage::Private,
                                            ps.map_values(|p: Param|
                                                (span_text(input, p.name), p.ty)),
                                            rt);
                                        let fid = nf.1;
                                        let funcs2 = spec_fi_insert(st.funcs, input, FuncInfo {
                                            name: n.children[0].span,
                                            id: fid,
                                            n_params: ps.len() as usize,
                                            ret: rt,
                                        });
                                        let m1 = spec_switch_to_function(nf.0, fid);
                                        let pb = spec_push_block(m1);
                                        match pb.1 {
                                            Err(e) => Err(e),
                                            Ok(bid) => {
                                                let m2 = spec_switch_to_block(pb.0, bid);
                                                let qe = QEntryV {
                                                    func: fid,
                                                    block: bid,
                                                    nodes: n.children.skip(3),
                                                    env: spec_params_bindings(ps),
                                                };
                                                let m3 = spec_switch_to_block(
                                                    spec_switch_to_function(m2, cf), cb);
                                                Ok((LowerStV {
                                                    m: m3,
                                                    env: st.env,
                                                    funcs: funcs2,
                                                    queue: st.queue.push(qe),
                                                }, None))
                                            },
                                        }
                                    },
                                }
                            },
                        }
                    },
                    _ => Err(Error::InternalCompilerError),
                }
            } else {
                Err(Error::InternalCompilerError)
            }
        },
        NodeValue::If => Err(Error::NotAllowedHere(n.span)),
        _ => Err(Error::InternalCompilerError),
    }
}

/// Folds the rest of an operator chain: `k` points at an operator child,
/// `acc` holds the value accumulated so far, and each step lowers the next
/// operand and combines it with the accumulator, left to right.
pub open spec fn spec_compile_chain(input: Seq<char>, st: LowerStV, cs: Seq<NodeV>, k: int, acc: Val) -> Result<(LowerStV, Option<Val>), Error>
    decreases cs, if cs.len() - k >= 0 { (cs.len() - k) as nat } else { 0nat }, 1nat,
{
    if k < 0 || k >= cs.len() {
        Ok((st, Some(acc)))
    } else if k + 1 >= cs.len() {
        Err(Error::InternalCompilerError)
    } else {
        match spec_compile_node(input, st, cs[k + 1]) {
            Ok((st1, vr)) => {
                match vr {
                    None => Err(Error::NotAllowedHere(cs[k + 1].span)),
                    Some(b) => {
                        match spec_chain_op(cs[k].node, acc, b) {
                            None => Err(Error::InternalCompilerError),
                            Some(op) => {
                                let pr = spec_push_instruction(st1.m, op);
                                match pr.1 {
                                    Err(e) => Err(e),
                                    Ok(res) => {
                                        match res {
                                            Some(v2) => spec_compile_chain(input,
                                                LowerStV { m: pr.0, ..st1 }, cs, k + 2, v2),
                                            None => Err(Error::InternalCompilerError),
                                        }
                                    },
                                }
                            },
                        }
                    },
                }
            },
            Err(e) => Err(e),
        }
    }
}

/// Lowers the nodes of a sequence in order from `k`, yielding the last
/// node's value.
pub open spec fn spec_compile_seq(input: Seq<char>, st: LowerStV, cs: Seq<NodeV>, k: int, last: Option<Val>) -> Result<(LowerStV, Option<Val>), Error>
    decreases cs, if cs.len() - k >= 0 { (cs.len() - k) as nat } else { 0nat }, 1nat,
{
    if k < 0 || k >= cs.len() {
        Ok((st, last))
    } else {
        match spec_compile_node(input, st, cs[k]) {
            Ok((st1, v)) => spec_compile_seq(input, st1, cs, k + 1, v),
            Err(e) => Err(e),
        }
    }
}

/// Lowers the argument expressions of a call in order from `k`; each must
/// yield a value.
pub open spec fn spec_compile_call_args(input: Seq<char>, st: LowerStV, cs: Seq<NodeV>, k: int) -> Result<(LowerStV, Seq<Val>), Error>
    decreases cs, if cs.len() - k >= 0 { (cs.len() - k) as nat } else { 0nat }, 1nat,
{
    if k < 0 || k >= cs.len() {
        Ok((st, seq![]))
    } else {
        match spec_compile_node(input, st, cs[k]) {
            Ok((st1, v)) => {
                match v {
                    None => Err(Error::NotAllowedHere(cs[k].span)),
                    Some(x) => {
                        match spec_compile_call_args(input, st1, cs, k + 1) {
                            Ok((st2, rest)) => Ok((st2, seq![x] + rest)),
                            Err(e) => Err(e),
                        }
                    },
                }
            },
            Err(e) => Err(e),
        }
    }
}

/// Rebinds a function name in the lowering table: an existing entry keeps
/// its place and original name span; a fresh name goes to the end.
pub open spec fn spec_fi_insert(funcs: Seq<FuncInfo>, input: Seq<char>, fi: FuncInfo) -> Seq<FuncInfo>
    decreases funcs.len(),
{
    if funcs.len() == 0 {
        seq![fi]
    } else if span_text(input, funcs[0].name) == span_text(input, fi.name) {
        seq![FuncInfo { name: funcs[0].name, ..fi }] + funcs.drop_first()
    } else {
        seq![funcs[0]] + spec_fi_insert(funcs.drop_first(), input, fi)
    }
}

// ---------------------------------------------------------------------------
// Why the drain terminates: lowering one node adds strictly less work to
// the queue than the node itself contains
// ---------------------------------------------------------------------------

proof fn lemma_compile_node_qm(input: Seq<char>, st: LowerStV, n: NodeV)
    ensures
        spec_compile_node(input, st, n) matches Ok(p) ==> qm(p.0.queue) + 1
            <= qm(st.queue) + vsize(n),
    decreases n, 0nat,
{
    match n.node {
        NodeValue::Product | NodeValue::Sum | NodeValue::BoolExpr => {
            if n.children.len() == 1 {
                lemma_compile_node_qm(input, st, n.children[0]);
                assert(vsize(n.children[0]) <= ssize(n.children)) by {
                    lemma_ssize_skip(n.children, 0);
                    assert(n.children.skip(0) =~= n.children);
                }
            } else if n.children.len() % 2 == 1 {
                lemma_compile_node_qm(input, st, n.children[0]);
                match spec_compile_node(input, st, n.children[0]) {
                    Ok(p0) => {
                        if p0.1 is Some {
                            lemma_compile_chain_qm(input, p0.0, n.children, 1, p0.1->Some_0);
                            lemma_ssize_skip(n.children, 0);
                            assert(n.children.skip(0) =~= n.children);
                        }
                    },
                    Err(e0) => {},
                }
            }
        },
        NodeValue::Expr => {
            lemma_compile_seq_qm(input, st, n.children, 0, None);
            assert(n.children.skip(0) =~= n.children);
        },
        NodeValue::VarAssign => {
            if n.children.len() >= 2 {
                lemma_compile_node_qm(input, st, n.children[1]);
                assert(vsize(n.children[1]) <= ssize(n.children)) by {
                    lemma_ssize_skip(n.children, 0);
                    lemma_ssize_skip(n.children, 1);
                    assert(n.children.skip(0) =~= n.children);
                }
            }
        },
        NodeValue::FnCall => {
            if n.children.len() >= 2 {
                let aset = n.children[1];
                if aset.node == NodeValue::FnCallArgSet {
                    lemma_compile_call_args_qm(input, st, aset.children, 0);
                    assert(aset.children.skip(0) =~= aset.children);
                    assert(ssize(aset.children) < vsize(aset));
                    assert(vsize(aset) <= ssize(n.children)) by {
                        lemma_ssize_skip(n.children, 0);
                        lemma_ssize_skip(n.children, 1);
                        assert(n.children.skip(0) =~= n.children);
                    }
                }
            }
        },
        NodeValue::FnDef => {
            if n.children.len() >= 3 && st.m.cur_func is Some && st.m.cur_block is Some {
                match spec_params(input, n.children[1].children) {
                    Ok(ps) => {
                        match spec_type_name(span_text(input, n.children[2].span)) {
                            Some(rt) => {
                                let nf = spec_new_function(st.m,
                                    span_text(input, n.children[0].span), Linkage::Private,
                                    ps.map_values(|q: Param| (span_text(input, q.name), q.ty)),
                                    rt);
                                let m1 = spec_switch_to_function(nf.0, nf.1);
                                let pb = spec_push_block(m1);
                                match pb.1 {
                                    Ok(bid) => {
                                        let qe = QEntryV {
                                            func: nf.1,
                                            block: bid,
                                            nodes: n.children.skip(3),
                                            env: spec_params_bindings(ps),
                                        };
                                        lemma_qm_push(st.queue, qe);
                                        lemma_ssize_skip_le(n.children, 0, 3);
                                        assert(n.children.skip(0) =~= n.children);
                                    },
                                    Err(e) => {},
                                }
                            },
                            None => {},
                        }
                    },
                    Err(e) => {},
                }
            }
        },
        _ => {},
    }
}

proof fn lemma_compile_chain_qm(input: Seq<char>, st: LowerStV, cs: Seq<NodeV>, k: int, acc: Val)
    ensures
        spec_compile_chain(input, st, cs, k, acc) matches Ok(p) ==> qm(p.0.queue)
            <= qm(st.queue) + ssize_from(cs, k),
    decreases cs, if cs.len() - k >= 0 { (cs.len() - k) as nat } else { 0nat }, 2nat,
{
    if 0 <= k && k + 1 < cs.len() {
        lemma_compile_node_qm(input, st, cs[k + 1]);
        match spec_compile_node(input, st, cs[k + 1]) {
            Ok(p1) => {
                match p1.1 {
                    Some(b) => {
                        match spec_chain_op(cs[k].node, acc, b) {
                            Some(op) => {
                                let pr = spec_push_instruction(p1.0.m, op);
                                match pr.1 {
                                    Ok(res) => {
                                        match res {
                                            Some(v2) => {
                                                lemma_compile_chain_qm(input,
                                                    LowerStV { m: pr.0, ..p1.0 }, cs, k + 2, v2);
                                                lemma_ssize_from_facts(cs, k);
                                            },
                                            None => {},
                                        }
                                    },
                                    Err(e) => {},
                                }
                            },
                            None => {},
                        }
                    },
                    None => {},
                }
            },
            Err(e1) => {},
        }
    }
}

/// The sizes of the nodes from index `k` on (clamped below at zero).
pub open spec fn ssize_from(cs: Seq<NodeV>, k: int) -> nat {
    if 0 <= k <= cs.len() {
        ssize(cs.skip(k))
    } else if k < 0 {
        ssize(cs)
    } else {
        0
    }
}

proof fn lemma_ssize_from_facts(cs: Seq<NodeV>, k: int)
    requires
        0 <= k,
        k + 1 < cs.len(),
    ensures
        vsize(cs[k + 1]) + ssize_from(cs, k + 2) <= ssize_from(cs, k),
{
    lemma_ssize_skip(cs, k);
    lemma_ssize_skip(cs, k + 1);
}

proof fn lemma_compile_seq_qm(input: Seq<char>, st: LowerStV, cs: Seq<NodeV>, k: int, last: Option<Val>)
    ensures
        spec_compile_seq(input, st, cs, k, last) matches Ok(p) ==> qm(p.0.queue)
            <= qm(st.queue) + ssize_from(cs, k),
    decreases cs, if cs.len() - k >= 0 { (cs.len() - k) as nat } else { 0nat }, 2nat,
{
    if 0 <= k && k < cs.len() {
        lemma_compile_node_qm(input, st, cs[k]);
        match spec_compile_node(input, st, cs[k]) {
            Ok(p1) => {
                lemma_compile_seq_qm(input, p1.0, cs, k + 1, p1.1);
                lemma_ssize_skip(cs, k);
            },
            Err(e1) => {},
        }
    }
}

proof fn lemma_compile_call_args_qm(input: Seq<char>, st: LowerStV, cs: Seq<NodeV>, k: int)
    ensures
        spec_compile_call_args(input, st, cs, k) matches Ok(p) ==> qm(p.0.queue)
            <= qm(st.queue) + ssize_from(cs, k),
    decreases cs, if cs.len() - k >= 0 { (cs.len() - k) as nat } else { 0nat }, 2nat,
{
    if 0 <= k && k < cs.len() {
        lemma_compile_node_qm(input, st, cs[k]);
        match spec_compile_node(input, st, cs[k]) {
            Ok(p1) => {
                if p1.1 is Some {
                    lemma_compile_call_args_qm(input, p1.0, cs, k + 1);
                    lemma_ssize_skip(cs, k);
                }
            },
            Err(e1) => {},
        }
    }
}

// ---------------------------------------------------------------------------
// Draining the queue
// ---------------------------------------------------------------------------

/// Works the compile queue off in order: each entry switches the emission
/// context back to its function and block and lowers its nodes, which may
/// enqueue further entries for nested definitions.  Yields the finished
/// module state.
pub open spec fn spec_drain(input: Seq<char>, st: LowerStV) -> Result<IrModuleV, Error>
    decreases qm(st.queue),
    via spec_drain_decreases
{
    if st.queue.len() == 0 {
        Ok(st.m)
    } else {
        let e = st.queue[0];
        let m1 = spec_switch_to_block(spec_switch_to_function(st.m, e.func), e.block);
        let st1 = LowerStV { m: m1, env: e.env, funcs: st.funcs, queue: st.queue.drop_first() };
        match spec_compile_seq(input, st1, e.nodes, 0, None) {
            Ok(p) => spec_drain(input, p.0),
            Err(e2) => Err(e2),
        }
    }
}

#[via_fn]
proof fn spec_drain_decreases(input: Seq<char>, st: LowerStV) {
    if st.queue.len() > 0 {
        let e = st.queue[0];
        let m1 = spec_switch_to_block(spec_switch_to_function(st.m, e.func), e.block);
        let st1 = LowerStV { m: m1, env: e.env, funcs: st.funcs, queue: st.queue.drop_first() };
        lemma_compile_seq_qm(input, st1, e.nodes, 0, None);
        assert(e.nodes.skip(0) =~= e.nodes);
        assert(qm(st.queue) == ssize(e.nodes) + 1 + qm(st.queue.drop_first()));
    }
}


// ---------------------------------------------------------------------------
// The executable lowering pass
// ---------------------------------------------------------------------------

pub open spec fn st_of(m: IrModuleV, env: Seq<Binding>, funcs: Seq<FuncInfo>, queue: Seq<QEntryV>) -> LowerStV {
    LowerStV { m, env, funcs, queue }
}

/// A copy of the text a span points at (empty for a span that does not fit
/// the input).
pub fn copy_range(input: &Vec<char>, sp: Span) -> (r: Vec<char>)
    ensures
        r@ == span_text(input@, sp),
{
    let mut r: Vec<char> = Vec::new();
    if sp.start <= sp.end && sp.end <= input.len() {
        let mut i = sp.start;
        while i < sp.end
            invariant
                sp.start <= i <= sp.end <= input@.len(),
                r@.len() == i - sp.start,
                forall|j: int| 0 <= j < r@.len() ==> r@[j] == input@[sp.start + j],
            decreases sp.end - i,
        {
            r.push(input[i]);
            i = i + 1;
        }
        proof {
            assert(r@ =~= span_text(input@, sp));
        }
    } else {
        proof {
            assert(r@ =~= span_text(input@, sp));
        }
    }
    r
}

fn exec_chain_op(kind: NodeValue, a: Val, b: Val) -> (r: Option<Op>)
    ensures
        r matches Some(op) ==> spec_chain_op(kind, a, b) == Some(op@),
        r is None ==> spec_chain_op(kind, a, b) is None,
{
    match kind {
        NodeValue::Mul => Some(Op::Mul(a, b)),
        NodeValue::Div => Some(Op::Div(a, b)),
        NodeValue::Add => Some(Op::Add(a, b)),
        NodeValue::Sub => Some(Op::Sub(a, b)),
        NodeValue::GT => Some(Op::CmpGt(a, b)),
        NodeValue::GTE => Some(Op::CmpGe(a, b)),
        NodeValue::EQ => Some(Op::CmpEq(a, b)),
        NodeValue::LT => Some(Op::CmpLt(a, b)),
        NodeValue::LTE => Some(Op::CmpLe(a, b)),
        _ => None,
    }
}

/// Rebinds a function name in the lowering table, scanning from index `k`.
fn fi_insert_from(input: &Vec<char>, funcs: &mut Vec<FuncInfo>, fi: FuncInfo, k: usize)
    requires
        k <= old(funcs)@.len(),
    ensures
        final(funcs)@ == old(funcs)@.take(k as int)
            + spec_fi_insert(old(funcs)@.skip(k as int), input@, fi),
    decreases old(funcs)@.len() - k,
{
    let ghost pre = funcs@;
    if k == funcs.len() {
        funcs.push(fi);
        proof {
            assert(pre.skip(k as int).len() == 0);
            assert(final(funcs)@ =~= pre.take(k as int)
                + spec_fi_insert(pre.skip(k as int), input@, fi));
        }
    } else if span_text_eq(input, funcs[k].name, fi.name) {
        let old_name = funcs[k].name;
        funcs.set(k, FuncInfo { name: old_name, ..fi });
        proof {
            assert(pre.skip(k as int)[0] == pre[k as int]);
            assert(pre.skip(k as int).drop_first() =~= pre.skip(k + 1));
            assert(final(funcs)@ =~= pre.take(k as int)
                + spec_fi_insert(pre.skip(k as int), input@, fi));
        }
    } else {
        proof {
            assert(pre.skip(k as int)[0] == pre[k as int]);
            assert(pre.skip(k as int).drop_first() =~= pre.skip(k + 1));
        }
        fi_insert_from(input, funcs, fi, k + 1);
        proof {
            assert(pre.take(k + 1) =~= pre.take(k as int) + seq![pre[k as int]]);
            assert(final(funcs)@ =~= pre.take(k as int)
                + spec_fi_insert(pre.skip(k as int), input@, fi));
        }
    }
}

fn compile_node(input: &Vec<char>, types: &Types, m: &mut IrModule, env: &mut Vec<Binding>, funcs: &mut Vec<FuncInfo>, queue: &mut Vec<QEntry>, n: &Node) -> (r: Result<Option<Val>, Error>)
    requires
        types.wf(),
    ensures
        r matches Ok(v) ==> spec_compile_node(input@, st_of(old(m)@, old(env)@, old(funcs)@,
            queue_view(old(queue)@)), n@) == Ok::<_, Error>((st_of(final(m)@, final(env)@,
            final(funcs)@, queue_view(final(queue)@)), v)),
        r matches Err(e) ==> spec_compile_node(input@, st_of(old(m)@, old(env)@, old(funcs)@,
            queue_view(old(queue)@)), n@) == Err::<(LowerStV, Option<Val>), Error>(e),
    decreases *n, 1nat,
{
    proof {
        lemma_nodes_view_index(n.children@);
    }
    let ghost st0 = st_of(m@, env@, funcs@, queue_view(queue@));
    match n.node {
        NodeValue::Id => {
            match benv_find(input, env, n.span) {
                None => Err(Error::VarDoesntExist(n.span)),
                Some(b) => {
                    let pr = m.push_instruction(Op::GetVar(b.var));
                    match pr {
                        Ok(res) => {
                            proof {
                                assert(st_of(final(m)@, final(env)@, final(funcs)@,
                                    queue_view(final(queue)@)) =~= (LowerStV {
                                    m: spec_push_instruction(st0.m, OpV::GetVar(b.var)).0,
                                    ..st0
                                }));
                            }
                            Ok(res)
                        },
                        Err(e) => Err(e),
                    }
                },
            }
        },
        NodeValue::Number => {
            match parse_i64(input, n.span) {
                None => Err(Error::InvalidInteger(n.span)),
                Some(v) => {
                    let bs = le_bytes(v);
                    let pr = m.push_instruction(Op::Integer(Type::Int, bs));
                    match pr {
                        Ok(res) => {
                            proof {
                                assert(st_of(final(m)@, final(env)@, final(funcs)@,
                                    queue_view(final(queue)@)) =~= (LowerStV {
                                    m: spec_push_instruction(st0.m,
                                        OpV::Integer(Type::Int, spec_le_bytes(v))).0,
                                    ..st0
                                }));
                            }
                            Ok(res)
                        },
                        Err(e) => Err(e),
                    }
                },
            }
        },
        NodeValue::True => {
            let mut bs: Vec<u8> = Vec::new();
            bs.push(1u8);
            proof {
                assert(bs@ =~= seq![1u8]);
            }
            let pr = m.push_instruction(Op::Integer(Type::Bool, bs));
            match pr {
                Ok(res) => {
                    proof {
                        assert(st_of(final(m)@, final(env)@, final(funcs)@,
                            queue_view(final(queue)@)) =~= (LowerStV {
                            m: spec_push_instruction(st0.m,
                                OpV::Integer(Type::Bool, seq![1u8])).0,
                            ..st0
                        }));
                    }
                    Ok(res)
                },
                Err(e) => Err(e),
            }
        },
        NodeValue::False => {
            let mut bs: Vec<u8> = Vec::new();
            bs.push(0u8);
            proof {
                assert(bs@ =~= seq![0u8]);
            }
            let pr = m.push_instruction(Op::Integer(Type::Bool, bs));
            match pr {
                Ok(res) => {
                    proof {
                        assert(st_of(final(m)@, final(env)@, final(funcs)@,
                            queue_view(final(queue)@)) =~= (LowerStV {
                            m: spec_push_instruction(st0.m,
                                OpV::Integer(Type::Bool, seq![0u8])).0,
                            ..st0
                        }));
                    }
                    Ok(res)
                },
                Err(e) => Err(e),
            }
        },
        NodeValue::Product | NodeValue::Sum | NodeValue::BoolExpr => {
            if n.children.len() == 1 {
                compile_node(input, types, m, env, funcs, queue, &n.children[0])
            } else if n.children.len() % 2 == 1 {
                match compile_node(input, types, m, env, funcs, queue, &n.children[0]) {
                    Ok(v0) => {
                        match v0 {
                            None => Err(Error::NotAllowedHere(n.children[0].span)),
                            Some(a) => compile_chain(input, types, m, env, funcs, queue,
                                &n.children, 1, a),
                        }
                    },
                    Err(e) => Err(e),
                }
            } else {
                Err(Error::InternalCompilerError)
            }
        },
        NodeValue::Expr => compile_seq(input, types, m, env, funcs, queue, &n.children, 0, None),
        NodeValue::VarAssign => {
            if n.children.len() >= 2 {
                match compile_node(input, types, m, env, funcs, queue, &n.children[1]) {
                    Ok(v) => {
                        match v {
                            None => Err(Error::NotAllowedHere(n.children[1].span)),
                            Some(x) => {
                                let ghost st1 = st_of(m@, env@, funcs@, queue_view(queue@));
                                let t = type_of(input, &n.children[1], env, funcs);
                                let name = copy_range(input, n.children[0].span);
                                let pv = m.push_variable(name, t);
                                match pv {
                                    Err(e) => Err(e),
                                    Ok(var) => {
                                        let pi = m.push_instruction(Op::SetVar(var, x));
                                        match pi {
                                            Err(e) => Err(e),
                                            Ok(res) => {
                                                env.push(Binding {
                                                    name: n.children[0].span,
                                                    ty: t,
                                                    var,
                                                });
                                                proof {
                                                    assert(st_of(final(m)@, final(env)@,
                                                        final(funcs)@,
                                                        queue_view(final(queue)@)) =~= (LowerStV {
                                                        m: spec_push_instruction(
                                                            spec_push_variable(st1.m,
                                                                span_text(input@,
                                                                    n@.children[0].span),
                                                                t).0,
                                                            OpV::SetVar(var, x)).0,
                                                        env: st1.env.push(Binding {
                                                            name: n@.children[0].span,
                                                            ty: t,
                                                            var,
                                                        }),
                                                        ..st1
                                                    }));
                                                }
                                                Ok(res)
                                            },
                                        }
                                    },
                                }
                            },
                        }
                    },
                    Err(e) => Err(e),
                }
            } else {
                Err(Error::InternalCompilerError)
            }
        },
        NodeValue::FnCall => {
            if n.children.len() >= 2 {
                let aset = &n.children[1];
                let argres: Result<Vec<Val>, Error> = if aset.node == NodeValue::FnCallArgSet {
                    compile_call_args(input, types, m, env, funcs, queue, &aset.children, 0)
                } else if aset.node == NodeValue::NULL {
                    Ok(Vec::new())
                } else {
                    Err(Error::InternalCompilerError)
                };
                proof {
                    assert(n@.children[1] == n.children@[1 as int]@);
                    assert(n@.children[1].children == nodes_view(n.children@[1 as int].children@));
                }
                match argres {
                    Ok(args) => {
                        let ghost st1 = st_of(m@, env@, funcs@, queue_view(queue@));
                        proof {
                            if aset.node == NodeValue::NULL {
                                assert(args@ =~= Seq::<Val>::empty());
                                assert(st1 =~= st0);
                            }
                        }
                        match fi_find(input, funcs, n.children[0].span) {
                            None => Err(Error::FuncDoesntExist(n.children[0].span)),
                            Some(fi) => {
                                if fi.n_params != args.len() {
                                    Err(Error::ExpectedNumArgs(fi.n_params, args.len(),
                                        aset.span))
                                } else {
                                    let pr = m.push_instruction(Op::Call(fi.id, args));
                                    match pr {
                                        Ok(res) => {
                                            proof {
                                                assert(st_of(final(m)@, final(env)@,
                                                    final(funcs)@, queue_view(final(queue)@))
                                                    =~= (LowerStV {
                                                    m: final(m)@,
                                                    ..st1
                                                }));
                                            }
                                            Ok(res)
                                        },
                                        Err(e) => Err(e),
                                    }
                                }
                            },
                        }
                    },
                    Err(e) => Err(e),
                }
            } else {
                Err(Error::InternalCompilerError)
            }
        },
        NodeValue::FnDef => {
            if n.children.len() >= 3 {
                let cfo = m.cur_func;
                let cbo = m.cur_block;
                let (cf, cb) = match (cfo, cbo) {
                    (Some(a), Some(b)) => (a, b),
                    _ => {
                        return Err(Error::InternalCompilerError);
                    },
                };
                proof {
                    assert(n@.children[1] == n.children@[1 as int]@);
                    assert(n@.children[1].children == nodes_view(n.children@[1 as int].children@));
                    assert(nodes_view(n.children@[1 as int].children@).skip(0)
                        =~= nodes_view(n.children@[1 as int].children@));
                }
                let ps = match crate::sig::params_of(input, types, &n.children[1].children, 0) {
                    Ok(ps) => ps,
                    Err(e) => {
                        return Err(e);
                    },
                };
                let rt = match type_of_span(types, input, n.children[2].span) {
                    Some(rt) => rt,
                    None => {
                        return Err(Error::UnknownReturnType(n.children[2].span));
                    },
                };
                let fname = copy_range(input, n.children[0].span);
                let mut nparams: Vec<(Vec<char>, Type)> = Vec::new();
                let mut k: usize = 0;
                while k < ps.len()
                    invariant
                        k <= ps@.len(),
                        nparams@.len() == k,
                        forall|j: int| 0 <= j < k ==> (#[trigger] nparams@[j]).0@
                            == span_text(input@, ps@[j].name) && nparams@[j].1 == ps@[j].ty,
                    decreases ps@.len() - k,
                {
                    let pn = copy_range(input, ps[k].name);
                    nparams.push((pn, ps[k].ty));
                    k = k + 1;
                }
                proof {
                    assert forall|j: int| 0 <= j < ps@.len() implies
                        named_types_view(nparams@)[j] == ps@.map_values(|q: Param|
                            (span_text(input@, q.name), q.ty))[j] by {
                        assert(nparams@[j].0@ == span_text(input@, ps@[j].name));
                    }
                    assert(named_types_view(nparams@) =~= ps@.map_values(|q: Param|
                        (span_text(input@, q.name), q.ty)));
                }
                let n_params = ps.len();
                let fid = m.new_function(fname, Linkage::Private, nparams, rt);
                fi_insert_from(input, funcs, FuncInfo {
                    name: n.children[0].span,
                    id: fid,
                    n_params,
                    ret: rt,
                }, 0);
                proof {
                    assert(old(funcs)@.take(0) =~= Seq::<FuncInfo>::empty());
                    assert(old(funcs)@.skip(0) =~= old(funcs)@);
                    assert(funcs@ =~= spec_fi_insert(old(funcs)@, input@, FuncInfo {
                        name: n@.children[0].span,
                        id: fid,
                        n_params,
                        ret: rt,
                    }));
                }
                m.switch_to_function(fid);
                let bid = match m.push_block() {
                    Ok(b) => b,
                    Err(e) => {
                        return Err(e);
                    },
                };
                m.switch_to_block(bid);
                let mut benv: Vec<Binding> = Vec::new();
                let mut k2: usize = 0;
                while k2 < ps.len()
                    invariant
                        k2 <= ps@.len(),
                        benv@.len() == k2,
                        forall|j: int| 0 <= j < k2 ==> benv@[j] == (Binding {
                            name: ps@[j].name,
                            ty: ps@[j].ty,
                            var: VarId(j as usize),
                        }),
                    decreases ps@.len() - k2,
                {
                    benv.push(Binding { name: ps[k2].name, ty: ps[k2].ty, var: VarId(k2) });
                    k2 = k2 + 1;
                }
                proof {
                    assert(benv@ =~= spec_params_bindings(ps@));
                }
                let body = clone_nodes_from(&n.children, 3);
                let ghost qv0 = queue_view(queue@);
                queue.push(QEntry { func: fid, block: bid, nodes: body, env: benv });
                proof {
                    assert(queue_view(queue@) =~= qv0.push(queue@.last()@));
                }
                m.switch_to_function(cf);
                m.switch_to_block(cb);
                proof {
                    assert(st_of(final(m)@, final(env)@, final(funcs)@,
                        queue_view(final(queue)@)).m =~~= (match spec_compile_node(input@, st0,
                        n@) {
                        Ok(p) => p.0.m,
                        Err(e) => st0.m,
                    }));
                    assert(st_of(final(m)@, final(env)@, final(funcs)@,
                        queue_view(final(queue)@)) =~~= (match spec_compile_node(input@, st0,
                        n@) {
                        Ok(p) => p.0,
                        Err(e) => st0,
                    }));
                }
                Ok(None)
            } else {
                Err(Error::InternalCompilerError)
            }
        },
        NodeValue::If => Err(Error::NotAllowedHere(n.span)),
        _ => Err(Error::InternalCompilerError),
    }
}

fn compile_chain(input: &Vec<char>, types: &Types, m: &mut IrModule, env: &mut Vec<Binding>, funcs: &mut Vec<FuncInfo>, queue: &mut Vec<QEntry>, cs: &Vec<Node>, k: usize, acc: Val) -> (r: Result<Option<Val>, Error>)
    requires
        types.wf(),
    ensures
        r matches Ok(v) ==> spec_compile_chain(input@, st_of(old(m)@, old(env)@, old(funcs)@,
            queue_view(old(queue)@)), nodes_view(cs@), k as int, acc)
            == Ok::<_, Error>((st_of(final(m)@, final(env)@, final(funcs)@,
            queue_view(final(queue)@)), v)),
        r matches Err(e) ==> spec_compile_chain(input@, st_of(old(m)@, old(env)@, old(funcs)@,
            queue_view(old(queue)@)), nodes_view(cs@), k as int, acc)
            == Err::<(LowerStV, Option<Val>), Error>(e),
    decreases cs@, cs@.len() - k, 2nat,
{
    proof {
        lemma_nodes_view_index(cs@);
    }
    if k >= cs.len() {
        Ok(Some(acc))
    } else if k + 1 >= cs.len() {
        Err(Error::InternalCompilerError)
    } else {
        match compile_node(input, types, m, env, funcs, queue, &cs[k + 1]) {
            Ok(vr) => {
                match vr {
                    None => Err(Error::NotAllowedHere(cs[k + 1].span)),
                    Some(b) => {
                        match exec_chain_op(cs[k].node, acc, b) {
                            None => Err(Error::InternalCompilerError),
                            Some(op) => {
                                let ghost st1 = st_of(m@, env@, funcs@, queue_view(queue@));
                                let ghost opv = op@;
                                let pr = m.push_instruction(op);
                                match pr {
                                    Err(e) => Err(e),
                                    Ok(res) => {
                                        match res {
                                            Some(v2) => {
                                                proof {
                                                    assert(st_of(m@, env@, funcs@,
                                                        queue_view(queue@)) =~= (LowerStV {
                                                        m: spec_push_instruction(st1.m, opv).0,
                                                        ..st1
                                                    }));
                                                }
                                                compile_chain(input, types, m, env, funcs,
                                                    queue, cs, k + 2, v2)
                                            },
                                            None => Err(Error::InternalCompilerError),
                                        }
                                    },
                                }
                            },
                        }
                    },
                }
            },
            Err(e) => Err(e),
        }
    }
}

fn compile_seq(input: &Vec<char>, types: &Types, m: &mut IrModule, env: &mut Vec<Binding>, funcs: &mut Vec<FuncInfo>, queue: &mut Vec<QEntry>, cs: &Vec<Node>, k: usize, last: Option<Val>) -> (r: Result<Option<Val>, Error>)
    requires
        types.wf(),
    ensures
        r matches Ok(v) ==> spec_compile_seq(input@, st_of(old(m)@, old(env)@, old(funcs)@,
            queue_view(old(queue)@)), nodes_view(cs@), k as int, last)
            == Ok::<_, Error>((st_of(final(m)@, final(env)@, final(funcs)@,
            queue_view(final(queue)@)), v)),
        r matches Err(e) ==> spec_compile_seq(input@, st_of(old(m)@, old(env)@, old(funcs)@,
            queue_view(old(queue)@)), nodes_view(cs@), k as int, last)
            == Err::<(LowerStV, Option<Val>), Error>(e),
    decreases cs@, cs@.len() - k, 2nat,
{
    proof {
        lemma_nodes_view_index(cs@);
    }
    if k >= cs.len() {
        Ok(last)
    } else {
        match compile_node(input, types, m, env, funcs, queue, &cs[k]) {
            Ok(v) => compile_seq(input, types, m, env, funcs, queue, cs, k + 1, v),
            Err(e) => Err(e),
        }
    }
}

fn compile_call_args(input: &Vec<char>, types: &Types, m: &mut IrModule, env: &mut Vec<Binding>, funcs: &mut Vec<FuncInfo>, queue: &mut Vec<QEntry>, cs: &Vec<Node>, k: usize) -> (r: Result<Vec<Val>, Error>)
    requires
        types.wf(),
    ensures
        r matches Ok(args) ==> spec_compile_call_args(input@, st_of(old(m)@, old(env)@,
            old(funcs)@, queue_view(old(queue)@)), nodes_view(cs@), k as int)
            == Ok::<_, Error>((st_of(final(m)@, final(env)@, final(funcs)@,
            queue_view(final(queue)@)), args@)),
        r matches Err(e) ==> spec_compile_call_args(input@, st_of(old(m)@, old(env)@,
            old(funcs)@, queue_view(old(queue)@)), nodes_view(cs@), k as int)
            == Err::<(LowerStV, Seq<Val>), Error>(e),
    decreases cs@, cs@.len() - k, 2nat,
{
    proof {
        lemma_nodes_view_index(cs@);
    }
    if k >= cs.len() {
        proof {
            assert(Seq::<Val>::empty() =~= seq![]);
        }
        Ok(Vec::new())
    } else {
        match compile_node(input, types, m, env, funcs, queue, &cs[k]) {
            Ok(v) => {
                match v {
                    None => Err(Error::NotAllowedHere(cs[k].span)),
                    Some(x) => {
                        match compile_call_args(input, types, m, env, funcs, queue, cs, k + 1) {
                            Ok(rest) => {
                                let ghost restv = rest@;
                                let mut args: Vec<Val> = Vec::new();
                                args.push(x);
                                let mut rest2 = rest;
                                args.append(&mut rest2);
                                proof {
                                    assert(args@ =~= seq![x] + restv);
                                }
                                Ok(args)
                            },
                            Err(e) => Err(e),
                        }
                    },
                }
            },
            Err(e) => Err(e),
        }
    }
}


// ---------------------------------------------------------------------------
// The whole pass
// ---------------------------------------------------------------------------

/// The first traversal: every collected signature becomes an IR function,
/// created before any body is visited, so forward and mutual calls resolve.
/// Yields the module and the function-identity lookup table.
pub open spec fn spec_create(input: Seq<char>, m: IrModuleV, sigs: Seq<SigEntryV>, k: int) -> (IrModuleV, Seq<FuncInfo>)
    decreases if sigs.len() - k >= 0 { (sigs.len() - k) as nat } else { 0nat },
{
    if k < 0 || k >= sigs.len() {
        (m, seq![])
    } else {
        let e = sigs[k];
        let nf = spec_new_function(m, span_text(input, e.name), e.sig.linkage,
            e.sig.params.map_values(|p: Param| (span_text(input, p.name), p.ty)), e.sig.ret);
        let rest = spec_create(input, nf.0, sigs, k + 1);
        (rest.0, seq![FuncInfo {
            name: e.name,
            id: nf.1,
            n_params: e.sig.params.len() as usize,
            ret: e.sig.ret,
        }] + rest.1)
    }
}

/// The second traversal: for every created function, switch to it, open its
/// entry block, bind its parameters, and put its pending body on the queue;
/// no body is lowered inline here.
pub open spec fn spec_enqueue(input: Seq<char>, m: IrModuleV, sigs: Seq<SigEntryV>, fis: Seq<FuncInfo>, k: int) -> Result<(IrModuleV, Seq<QEntryV>), Error>
    decreases if sigs.len() - k >= 0 { (sigs.len() - k) as nat } else { 0nat },
{
    if k < 0 || k >= sigs.len() || k >= fis.len() {
        Ok((m, seq![]))
    } else {
        let e = sigs[k];
        let fi = fis[k];
        let m1 = spec_switch_to_function(m, fi.id);
        let pb = spec_push_block(m1);
        match pb.1 {
            Err(er) => Err(er),
            Ok(bid) => {
                let m2 = spec_switch_to_block(pb.0, bid);
                let qe = QEntryV {
                    func: fi.id,
                    block: bid,
                    nodes: e.sig.body,
                    env: spec_params_bindings(e.sig.params),
                };
                match spec_enqueue(input, m2, sigs, fis, k + 1) {
                    Ok(pr) => Ok((pr.0, seq![qe] + pr.1)),
                    Err(er) => Err(er),
                }
            },
        }
    }
}

/// The lowering pass, whole: a program with no `main` is rejected; otherwise
/// every signature's function is created first, every body is queued, and
/// the queue is drained in order, starting from module state `m0`.
pub open spec fn spec_lower(input: Seq<char>, sigs: Seq<SigEntryV>, m0: IrModuleV) -> Result<IrModuleV, Error> {
    if spec_find(sigs, input, main_name()) is None {
        Err(Error::MissingMain)
    } else {
        let cr = spec_create(input, m0, sigs, 0);
        match spec_enqueue(input, cr.0, sigs, cr.1, 0) {
            Err(e) => Err(e),
            Ok(p) => spec_drain(input, LowerStV {
                m: p.0,
                env: seq![],
                funcs: cr.1,
                queue: p.1,
            }),
        }
    }
}

proof fn lemma_spec_create_len(input: Seq<char>, m: IrModuleV, sigs: Seq<SigEntryV>, k: int)
    requires
        0 <= k <= sigs.len(),
    ensures
        spec_create(input, m, sigs, k).1.len() == sigs.len() - k,
    decreases sigs.len() - k,
{
    if k < sigs.len() {
        let e = sigs[k];
        let nf = spec_new_function(m, span_text(input, e.name), e.sig.linkage,
            e.sig.params.map_values(|p: Param| (span_text(input, p.name), p.ty)), e.sig.ret);
        lemma_spec_create_len(input, nf.0, sigs, k + 1);
    }
}

/// Whether the table holds a function named `main`.
fn has_main(input: &Vec<char>, sigs: &SigTable) -> (r: bool)
    ensures
        r == (spec_find(sigs@, input@, main_name()) is Some),
{
    let mut i: usize = 0;
    while i < sigs.entries.len()
        invariant
            i <= sigs.entries@.len(),
            sigs@.len() == sigs.entries@.len(),
            forall|j: int| 0 <= j < i ==> span_text(input@, #[trigger] sigs@[j].name)
                != main_name(),
        decreases sigs.entries@.len() - i,
    {
        proof {
            assert(sigs@[i as int].name == sigs.entries@[i as int].name);
        }
        if span_is_main(input, sigs.entries[i].name) {
            proof {
                lemma_spec_find(sigs@, input@, main_name());
            }
            return true;
        }
        i = i + 1;
    }
    proof {
        lemma_spec_find(sigs@, input@, main_name());
    }
    false
}

/// The lowering pass: rejects a program with no `main`, creates every
/// function from its collected signature before any body is visited, binds
/// parameters and queues every body, then drains the queue in order, lowering
/// each body into its function's entry block.  On success the module holds
/// the whole program; on failure the module must be discarded.
pub fn lower_program(input: &Vec<char>, types: &Types, sigs: &SigTable, m: &mut IrModule) -> (r: Result<(), Error>)
    requires
        types.wf(),
    ensures
        r matches Ok(u) ==> spec_lower(input@, sigs@, old(m)@) == Ok::<IrModuleV, Error>(final(m)@),
        r matches Err(e) ==> spec_lower(input@, sigs@, old(m)@) == Err::<IrModuleV, Error>(e),
{
    let ghost sigsv = sigs@;
    if !has_main(input, sigs) {
        return Err(Error::MissingMain);
    }
    // First traversal: create every function.
    let ghost cr = spec_create(input@, old(m)@, sigsv, 0);
    let mut fis: Vec<FuncInfo> = Vec::new();
    let mut i: usize = 0;
    proof {
        lemma_spec_create_len(input@, old(m)@, sigsv, 0);
        assert(cr.1.skip(0) =~= cr.1);
        assert(fis@ =~= cr.1.take(0));
    }
    while i < sigs.entries.len()
        invariant
            types.wf(),
            i <= sigs.entries@.len(),
            sigs@ == sigsv,
            sigsv.len() == sigs.entries@.len(),
            fis@.len() == i,
            cr == spec_create(input@, old(m)@, sigsv, 0),
            cr.1.len() == sigsv.len(),
            spec_create(input@, m@, sigsv, i as int) == (cr.0, cr.1.skip(i as int)),
            fis@ == cr.1.take(i as int),
        decreases sigs.entries@.len() - i,
    {
        let ghost m_pre = m@;
        let entry = &sigs.entries[i];
        proof {
            assert(sigsv[i as int] == sigs.entries@[i as int]@);
        }
        let fname = copy_range(input, entry.name);
        let mut nparams: Vec<(Vec<char>, Type)> = Vec::new();
        let mut k: usize = 0;
        while k < entry.sig.params.len()
            invariant
                k <= entry.sig.params@.len(),
                nparams@.len() == k,
                forall|j: int| 0 <= j < k ==> (#[trigger] nparams@[j]).0@
                    == span_text(input@, entry.sig.params@[j].name)
                    && nparams@[j].1 == entry.sig.params@[j].ty,
            decreases entry.sig.params@.len() - k,
        {
            let pn = copy_range(input, entry.sig.params[k].name);
            nparams.push((pn, entry.sig.params[k].ty));
            k = k + 1;
        }
        proof {
            assert forall|j: int| 0 <= j < entry.sig.params@.len() implies
                named_types_view(nparams@)[j] == sigsv[i as int].sig.params.map_values(
                    |p: Param| (span_text(input@, p.name), p.ty))[j] by {
                assert(nparams@[j].0@ == span_text(input@, entry.sig.params@[j].name));
            }
            assert(named_types_view(nparams@) =~= sigsv[i as int].sig.params.map_values(
                |p: Param| (span_text(input@, p.name), p.ty)));
        }
        let n_params = entry.sig.params.len();
        let ret = entry.sig.ret;
        let name_span = entry.name;
        let linkage = entry.sig.linkage;
        let fid = m.new_function(fname, linkage, nparams, ret);
        fis.push(FuncInfo { name: name_span, id: fid, n_params, ret });
        proof {
            let e = sigsv[i as int];
            let nf = spec_new_function(m_pre, span_text(input@, e.name), e.sig.linkage,
                e.sig.params.map_values(|p: Param| (span_text(input@, p.name), p.ty)), e.sig.ret);
            let rest = spec_create(input@, nf.0, sigsv, i + 1);
            assert(spec_create(input@, m_pre, sigsv, i as int)
                == (rest.0, seq![FuncInfo {
                    name: e.name,
                    id: nf.1,
                    n_params: e.sig.params.len() as usize,
                    ret: e.sig.ret,
                }] + rest.1));
            assert(m@ == nf.0);
            assert(cr.1.skip(i as int) == seq![FuncInfo {
                name: e.name,
                id: nf.1,
                n_params: e.sig.params.len() as usize,
                ret: e.sig.ret,
            }] + rest.1);
            assert(rest.1 =~= cr.1.skip(i as int).drop_first());
            assert(cr.1.skip(i as int).drop_first() =~= cr.1.skip(i + 1));
            assert(cr.1.skip(i as int)[0] == cr.1[i as int]);
            assert(fis@ =~= cr.1.take(i + 1));
        }
        i = i + 1;
    }
    proof {
        assert(cr.1.skip(sigsv.len() as int) =~= Seq::<FuncInfo>::empty());
        assert(cr.1.take(sigsv.len() as int) =~= cr.1);
        assert(spec_create(input@, m@, sigsv, sigsv.len() as int) == (m@, Seq::<FuncInfo>::empty()));
        assert(cr.0 == m@);
        assert(fis@ == cr.1);
    }
    // Second traversal: open entry blocks, bind parameters, queue bodies.
    let ghost enq = spec_enqueue(input@, cr.0, sigsv, cr.1, 0);
    let mut queue: Vec<QEntry> = Vec::new();
    let mut j: usize = 0;
    proof {
        assert(queue_view(queue@) =~= Seq::<QEntryV>::empty());
    }
    while j < sigs.entries.len()
        invariant
            types.wf(),
            j <= sigs.entries@.len(),
            sigs@ == sigsv,
            sigsv.len() == sigs.entries@.len(),
            fis@ == cr.1,
            fis@.len() == sigsv.len(),
            cr.1.len() == sigsv.len(),
            cr == spec_create(input@, old(m)@, sigsv, 0),
            spec_find(sigsv, input@, main_name()) is Some,
            enq == spec_enqueue(input@, cr.0, sigsv, cr.1, 0),
            spec_enqueue(input@, m@, sigsv, cr.1, j as int) matches Ok(p)
                ==> enq == Ok::<(IrModuleV, Seq<QEntryV>), Error>((p.0,
                    queue_view(queue@) + p.1)),
            spec_enqueue(input@, m@, sigsv, cr.1, j as int) matches Err(e2)
                ==> enq == Err::<(IrModuleV, Seq<QEntryV>), Error>(e2),
        decreases sigs.entries@.len() - j,
    {
        let ghost m_pre = m@;
        let ghost qv_pre = queue_view(queue@);
        let entry = &sigs.entries[j];
        proof {
            assert(sigsv[j as int] == sigs.entries@[j as int]@);
            assert(fis@[j as int] == cr.1[j as int]);
        }
        let fi = fis[j];
        m.switch_to_function(fi.id);
        let bid = match m.push_block() {
            Ok(b) => b,
            Err(er) => {
                proof {
                    assert(spec_enqueue(input@, m_pre, sigsv, cr.1, j as int)
                        == Err::<(IrModuleV, Seq<QEntryV>), Error>(er));
                    assert(enq == Err::<(IrModuleV, Seq<QEntryV>), Error>(er));
                    assert(spec_lower(input@, sigsv, old(m)@)
                        == Err::<IrModuleV, Error>(er));
                }
                return Err(er);
            },
        };
        m.switch_to_block(bid);
        let mut benv: Vec<Binding> = Vec::new();
        let mut k2: usize = 0;
        while k2 < entry.sig.params.len()
            invariant
                k2 <= entry.sig.params@.len(),
                benv@.len() == k2,
                forall|q: int| 0 <= q < k2 ==> benv@[q] == (Binding {
                    name: entry.sig.params@[q].name,
                    ty: entry.sig.params@[q].ty,
                    var: VarId(q as usize),
                }),
            decreases entry.sig.params@.len() - k2,
        {
            benv.push(Binding { name: entry.sig.params[k2].name, ty: entry.sig.params[k2].ty,
                var: VarId(k2) });
            k2 = k2 + 1;
        }
        proof {
            assert(benv@ =~= spec_params_bindings(sigsv[j as int].sig.params));
        }
        let body = clone_nodes_from(&entry.sig.body, 0);
        proof {
            assert(nodes_view(entry.sig.body@).skip(0) =~= nodes_view(entry.sig.body@));
        }
        queue.push(QEntry { func: fi.id, block: bid, nodes: body, env: benv });
        proof {
            assert(queue@.last()@.nodes == sigsv[j as int].sig.body);
            assert(queue_view(queue@) =~= qv_pre.push(queue@.last()@));
            let ev = sigsv[j as int];
            let qe = QEntryV {
                func: cr.1[j as int].id,
                block: bid,
                nodes: ev.sig.body,
                env: spec_params_bindings(ev.sig.params),
            };
            assert(queue@.last()@ =~= qe);
            match spec_enqueue(input@, m@, sigsv, cr.1, j + 1) {
                Ok(pr) => {
                    assert(spec_enqueue(input@, m_pre, sigsv, cr.1, j as int)
                        == Ok::<(IrModuleV, Seq<QEntryV>), Error>((pr.0, seq![qe] + pr.1)));
                    assert(qv_pre + (seq![qe] + pr.1) =~= queue_view(queue@) + pr.1);
                },
                Err(e2) => {
                    assert(spec_enqueue(input@, m_pre, sigsv, cr.1, j as int)
                        == Err::<(IrModuleV, Seq<QEntryV>), Error>(e2));
                },
            }
        }
        j = j + 1;
    }
    proof {
        assert(spec_enqueue(input@, m@, sigsv, cr.1, j as int)
            == Ok::<(IrModuleV, Seq<QEntryV>), Error>((m@, Seq::<QEntryV>::empty())));
        assert(queue_view(queue@) + Seq::<QEntryV>::empty() =~= queue_view(queue@));
        assert(enq == Ok::<(IrModuleV, Seq<QEntryV>), Error>((m@, queue_view(queue@))));
    }
    // Drain the queue.
    let ghost target = spec_drain(input@, LowerStV {
        m: m@,
        env: seq![],
        funcs: cr.1,
        queue: queue_view(queue@),
    });
    proof {
        assert(spec_lower(input@, sigsv, old(m)@) == target);
    }
    let mut env: Vec<Binding> = Vec::new();
    proof {
        assert((LowerStV { m: m@, env: env@, funcs: fis@, queue: queue_view(queue@) })
            =~= (LowerStV { m: m@, env: seq![], funcs: cr.1, queue: queue_view(queue@) }));
    }
    while queue.len() > 0
        invariant
            types.wf(),
            sigs@ == sigsv,
            spec_lower(input@, sigsv, old(m)@) == target,
            spec_drain(input@, LowerStV { m: m@, env: env@, funcs: fis@,
                queue: queue_view(queue@) }) == target,
        decreases qm(queue_view(queue@)),
    {
        let ghost st_old = LowerStV { m: m@, env: env@, funcs: fis@,
            queue: queue_view(queue@) };
        proof {
            assert(queue_view(queue@)[0] == queue@[0 as int]@);
        }
        let e = queue.remove(0);
        proof {
            assert(queue_view(queue@) =~= st_old.queue.drop_first());
        }
        m.switch_to_function(e.func);
        m.switch_to_block(e.block);
        let mut env2 = e.env;
        let ghost st_pre = LowerStV { m: m@, env: env2@, funcs: fis@,
            queue: queue_view(queue@) };
        proof {
            assert(st_pre =~= (LowerStV {
                m: spec_switch_to_block(spec_switch_to_function(st_old.m, st_old.queue[0].func),
                    st_old.queue[0].block),
                env: st_old.queue[0].env,
                funcs: st_old.funcs,
                queue: st_old.queue.drop_first(),
            }));
            assert(nodes_view(e.nodes@) == st_old.queue[0].nodes);
        }
        match compile_seq(input, types, m, &mut env2, &mut fis, &mut queue, &e.nodes, 0, None) {
            Ok(v) => {
                proof {
                    lemma_compile_seq_qm(input@, st_pre, nodes_view(e.nodes@), 0, None);
                    assert(ssize_from(nodes_view(e.nodes@), 0) == ssize(st_old.queue[0].nodes))
                        by {
                        assert(nodes_view(e.nodes@).skip(0) =~= nodes_view(e.nodes@));
                    }
                    assert(qm(st_old.queue) == ssize(st_old.queue[0].nodes) + 1
                        + qm(st_old.queue.drop_first()));
                }
            },
            Err(er) => {
                proof {
                    assert(spec_drain(input@, st_old) == Err::<IrModuleV, Error>(er));
                    assert(target == Err::<IrModuleV, Error>(er));
                }
                return Err(er);
            },
        }
        env = env2;
    }
    proof {
        assert(spec_drain(input@, LowerStV { m: m@, env: env@, funcs: fis@,
            queue: queue_view(queue@) }) == Ok::<IrModuleV, Error>(m@));
    }
    Ok(())
}

} // verus!
