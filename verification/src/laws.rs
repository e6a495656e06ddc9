use vstd::prelude::*;
use crate::check::{spec_check_arg_types};
use crate::error::{Error, Span};
use crate::ir::{InstV, IrModuleV, OpV, Val};
use crate::linkage::Linkage;
use crate::lower::{Binding, LowerStV, spec_benv_find, spec_compile_call_args, spec_compile_chain,
    spec_compile_node, spec_compile_seq, spec_create, spec_fi_find, spec_le_bytes, spec_lower,
    spec_parse_i64};
use crate::node::{NodeV, NodeValue};
use crate::sig::{Param, SigEntryV, main_name, spec_find, spec_sig_of, span_text};
use crate::type_::{Type, spec_coerce};

verus! {

/// Round-trip literal lowering: lowering a body that is a single numeric
/// literal reading as the 64-bit value `value` appends exactly one
/// integer-constant instruction to the current block, whose byte payload is
/// the value's little-endian two's-complement encoding, and yields that
/// instruction's value.  The literal arrives from the parser wrapped in the
/// expression and chain nodes, each with a single child.
pub proof fn lemma_round_trip_literal_lowering(input: Seq<char>, st: LowerStV, n: NodeV, value: i64)
    requires
        n.node == NodeValue::Expr,
        n.children.len() == 1,
        n.children[0].node == NodeValue::BoolExpr,
        n.children[0].children.len() == 1,
        n.children[0].children[0].node == NodeValue::Sum,
        n.children[0].children[0].children.len() == 1,
        n.children[0].children[0].children[0].node == NodeValue::Product,
        n.children[0].children[0].children[0].children.len() == 1,
        n.children[0].children[0].children[0].children[0].node == NodeValue::Number,
        spec_parse_i64(span_text(input,
            n.children[0].children[0].children[0].children[0].span)) == Some(value),
        st.m.cur_func matches Some(f) && f.0 < st.m.functions.len()
            && (st.m.cur_block matches Some(b) && b.0 < st.m.functions[f.0 as int].blocks.len())
            && st.m.functions[f.0 as int].next_val < usize::MAX,
    ensures
        spec_compile_seq(input, st, seq![n], 0, None) matches Ok(p)
            && p.1 == Some(Val(st.m.functions[st.m.cur_func->Some_0.0 as int].next_val))
            && p.0.m.functions[st.m.cur_func->Some_0.0 as int]
                .blocks[st.m.cur_block->Some_0.0 as int]
            == st.m.functions[st.m.cur_func->Some_0.0 as int]
                .blocks[st.m.cur_block->Some_0.0 as int]
                .push(InstV {
                    op: OpV::Integer(Type::Int, spec_le_bytes(value)),
                    result: Some(Val(st.m.functions[st.m.cur_func->Some_0.0 as int].next_val)),
                }),
{
    let num = n.children[0].children[0].children[0].children[0];
    let r_num = spec_compile_node(input, st, num);
    let f = st.m.cur_func->Some_0;
    let b = st.m.cur_block->Some_0;
    assert(r_num matches Ok(pn) && pn.1 == Some(Val(st.m.functions[f.0 as int].next_val))
        && pn.0.m.functions[f.0 as int].blocks[b.0 as int]
        == st.m.functions[f.0 as int].blocks[b.0 as int].push(InstV {
            op: OpV::Integer(Type::Int, spec_le_bytes(value)),
            result: Some(Val(st.m.functions[f.0 as int].next_val)),
        }));
    assert(spec_compile_node(input, st, n.children[0].children[0].children[0]) == r_num);
    assert(spec_compile_node(input, st, n.children[0].children[0]) == r_num);
    assert(spec_compile_node(input, st, n.children[0]) == r_num);
    match r_num {
        Ok(q) => {
            assert(spec_compile_seq(input, q.0, n.children, 1, q.1) == Ok::<_, Error>(q));
            assert(spec_compile_seq(input, st, n.children, 0, None) == Ok::<_, Error>(q));
            assert(spec_compile_node(input, st, n) == Ok::<_, Error>(q));
            assert(seq![n][0] == n);
            assert(spec_compile_seq(input, q.0, seq![n], 1, q.1) == Ok::<_, Error>(q));
            assert(spec_compile_seq(input, st, seq![n], 0, None) == Ok::<_, Error>(q));
        },
        Err(e) => {
            assert(false);
        },
    }
}

/// Left-associativity: a subtraction chain `a - b - c` over bound variables
/// lowers by the left fold — first `a - b`, then `(a - b) - c` — so the
/// second subtraction's left operand is the first subtraction's result,
/// never a right fold.  The emitted block gains exactly the five
/// instructions of that order.
pub proof fn lemma_left_associative_lowering(input: Seq<char>, st: LowerStV, n: NodeV)
    requires
        n.node == NodeValue::Sum,
        n.children.len() == 5,
        n.children[0].node == NodeValue::Product && n.children[0].children.len() == 1
            && n.children[0].children[0].node == NodeValue::Id,
        n.children[1].node == NodeValue::Sub,
        n.children[2].node == NodeValue::Product && n.children[2].children.len() == 1
            && n.children[2].children[0].node == NodeValue::Id,
        n.children[3].node == NodeValue::Sub,
        n.children[4].node == NodeValue::Product && n.children[4].children.len() == 1
            && n.children[4].children[0].node == NodeValue::Id,
        spec_benv_find(st.env, input, span_text(input, n.children[0].children[0].span))
            matches Some(ba) && ba.var.0
            < st.m.functions[st.m.cur_func->Some_0.0 as int].variables.len()
            && st.m.functions[st.m.cur_func->Some_0.0 as int].variables[ba.var.0 as int].1
            != Type::Void,
        spec_benv_find(st.env, input, span_text(input, n.children[2].children[0].span))
            matches Some(bb) && bb.var.0
            < st.m.functions[st.m.cur_func->Some_0.0 as int].variables.len()
            && st.m.functions[st.m.cur_func->Some_0.0 as int].variables[bb.var.0 as int].1
            != Type::Void,
        spec_benv_find(st.env, input, span_text(input, n.children[4].children[0].span))
            matches Some(bc) && bc.var.0
            < st.m.functions[st.m.cur_func->Some_0.0 as int].variables.len()
            && st.m.functions[st.m.cur_func->Some_0.0 as int].variables[bc.var.0 as int].1
            != Type::Void,
        st.m.cur_func matches Some(f) && f.0 < st.m.functions.len()
            && (st.m.cur_block matches Some(b) && b.0 < st.m.functions[f.0 as int].blocks.len())
            && st.m.functions[f.0 as int].next_val + 5 <= usize::MAX,
    ensures
        spec_compile_node(input, st, n) matches Ok(p) && p.1 == Some(Val((
            st.m.functions[st.m.cur_func->Some_0.0 as int].next_val + 4) as usize))
            && p.0.m.functions[st.m.cur_func->Some_0.0 as int]
                .blocks[st.m.cur_block->Some_0.0 as int]
            == st.m.functions[st.m.cur_func->Some_0.0 as int]
                .blocks[st.m.cur_block->Some_0.0 as int]
                .push(InstV {
                    op: OpV::GetVar(spec_benv_find(st.env, input, span_text(input,
                        n.children[0].children[0].span))->Some_0.var),
                    result: Some(Val(st.m.functions[st.m.cur_func->Some_0.0 as int].next_val)),
                })
                .push(InstV {
                    op: OpV::GetVar(spec_benv_find(st.env, input, span_text(input,
                        n.children[2].children[0].span))->Some_0.var),
                    result: Some(Val((st.m.functions[st.m.cur_func->Some_0.0 as int].next_val
                        + 1) as usize)),
                })
                .push(InstV {
                    op: OpV::Sub(Val(st.m.functions[st.m.cur_func->Some_0.0 as int].next_val),
                        Val((st.m.functions[st.m.cur_func->Some_0.0 as int].next_val
                        + 1) as usize)),
                    result: Some(Val((st.m.functions[st.m.cur_func->Some_0.0 as int].next_val
                        + 2) as usize)),
                })
                .push(InstV {
                    op: OpV::GetVar(spec_benv_find(st.env, input, span_text(input,
                        n.children[4].children[0].span))->Some_0.var),
                    result: Some(Val((st.m.functions[st.m.cur_func->Some_0.0 as int].next_val
                        + 3) as usize)),
                })
                .push(InstV {
                    op: OpV::Sub(Val((st.m.functions[st.m.cur_func->Some_0.0 as int].next_val
                        + 2) as usize),
                        Val((st.m.functions[st.m.cur_func->Some_0.0 as int].next_val
                        + 3) as usize)),
                    result: Some(Val((st.m.functions[st.m.cur_func->Some_0.0 as int].next_val
                        + 4) as usize)),
                }),
{
    let f = st.m.cur_func->Some_0;
    let b = st.m.cur_block->Some_0;
    let nv = st.m.functions[f.0 as int].next_val;
    let va = spec_benv_find(st.env, input,
        span_text(input, n.children[0].children[0].span))->Some_0.var;
    let vb = spec_benv_find(st.env, input,
        span_text(input, n.children[2].children[0].span))->Some_0.var;
    let vc = spec_benv_find(st.env, input,
        span_text(input, n.children[4].children[0].span))->Some_0.var;
    let r0 = spec_compile_node(input, st, n.children[0]);
    assert(spec_compile_node(input, st, n.children[0].children[0]) matches Ok(pz)
        && pz.1 == Some(Val(nv)));
    assert(r0 == spec_compile_node(input, st, n.children[0].children[0]));
    let st1 = r0->Ok_0.0;
    assert(st1.m.cur_func == Some(f) && st1.m.cur_block == Some(b));
    assert(st1.m.functions.len() == st.m.functions.len());
    assert(st1.m.functions[f.0 as int].next_val == nv + 1);
    assert(st1.m.functions[f.0 as int].variables == st.m.functions[f.0 as int].variables);
    assert(st1.m.functions[f.0 as int].blocks.len() == st.m.functions[f.0 as int].blocks.len());
    assert(st1.env == st.env && st1.funcs == st.funcs && st1.queue == st.queue);
    assert(st1.m.functions[f.0 as int].blocks[b.0 as int]
        == st.m.functions[f.0 as int].blocks[b.0 as int].push(InstV {
            op: OpV::GetVar(va),
            result: Some(Val(nv)),
        }));
    let r1 = spec_compile_node(input, st1, n.children[2]);
    assert(spec_compile_node(input, st1, n.children[2].children[0]) matches Ok(py)
        && py.1 == Some(Val((nv + 1) as usize)));
    assert(r1 == spec_compile_node(input, st1, n.children[2].children[0]));
    let st2 = r1->Ok_0.0;
    assert(st2.m.cur_func == Some(f) && st2.m.cur_block == Some(b));
    assert(st2.m.functions[f.0 as int].next_val == nv + 2);
    assert(st2.m.functions[f.0 as int].variables == st.m.functions[f.0 as int].variables);
    assert(st2.env == st.env && st2.funcs == st.funcs && st2.queue == st.queue);
    let pr2 = crate::ir::spec_push_instruction(st2.m, OpV::Sub(Val(nv), Val((nv + 1) as usize)));
    assert(pr2.1 == Ok::<Option<Val>, Error>(Some(Val((nv + 2) as usize))));
    let st3 = LowerStV { m: pr2.0, ..st2 };
    assert(st3.m.cur_func == Some(f) && st3.m.cur_block == Some(b));
    assert(st3.m.functions[f.0 as int].next_val == nv + 3);
    assert(st3.m.functions[f.0 as int].variables == st.m.functions[f.0 as int].variables);
    assert(st3.env == st.env && st3.funcs == st.funcs && st3.queue == st.queue);
    let r3 = spec_compile_node(input, st3, n.children[4]);
    assert(spec_compile_node(input, st3, n.children[4].children[0]) matches Ok(px)
        && px.1 == Some(Val((nv + 3) as usize)));
    assert(r3 == spec_compile_node(input, st3, n.children[4].children[0]));
    let st4 = r3->Ok_0.0;
    assert(st4.m.cur_func == Some(f) && st4.m.cur_block == Some(b));
    assert(st4.m.functions[f.0 as int].next_val == nv + 4);
    let pr4 = crate::ir::spec_push_instruction(st4.m,
        OpV::Sub(Val((nv + 2) as usize), Val((nv + 3) as usize)));
    assert(pr4.1 == Ok::<Option<Val>, Error>(Some(Val((nv + 4) as usize))));
    assert(spec_compile_chain(input, LowerStV { m: pr4.0, ..st4 }, n.children, 5,
        Val((nv + 4) as usize)) == Ok::<(LowerStV, Option<Val>), Error>((LowerStV {
        m: pr4.0, ..st4 }, Some(Val((nv + 4) as usize)))));
    assert(spec_compile_chain(input, st3, n.children, 3, Val((nv + 2) as usize))
        == Ok::<(LowerStV, Option<Val>), Error>((LowerStV { m: pr4.0, ..st4 },
        Some(Val((nv + 4) as usize)))));
    assert(spec_compile_chain(input, st1, n.children, 1, Val(nv))
        == Ok::<(LowerStV, Option<Val>), Error>((LowerStV { m: pr4.0, ..st4 },
        Some(Val((nv + 4) as usize)))));
    assert(spec_compile_node(input, st, n)
        == Ok::<(LowerStV, Option<Val>), Error>((LowerStV { m: pr4.0, ..st4 },
        Some(Val((nv + 4) as usize)))));
    assert((LowerStV { m: pr4.0, ..st4 }).m.functions[f.0 as int].blocks[b.0 as int]
        == st.m.functions[f.0 as int].blocks[b.0 as int]
            .push(InstV { op: OpV::GetVar(va), result: Some(Val(nv)) })
            .push(InstV { op: OpV::GetVar(vb), result: Some(Val((nv + 1) as usize)) })
            .push(InstV {
                op: OpV::Sub(Val(nv), Val((nv + 1) as usize)),
                result: Some(Val((nv + 2) as usize)),
            })
            .push(InstV { op: OpV::GetVar(vc), result: Some(Val((nv + 3) as usize)) })
            .push(InstV {
                op: OpV::Sub(Val((nv + 2) as usize), Val((nv + 3) as usize)),
                result: Some(Val((nv + 4) as usize)),
            }));
}

/// Arity enforcement: once a call's arguments are lowered and the callee is
/// resolved, the call lowers only with exactly the declared parameter count;
/// any other count fails with the arity diagnostic carrying the expected and
/// found counts and the span of the whole argument list.
pub proof fn lemma_arity_enforced(input: Seq<char>, st: LowerStV, n: NodeV)
    requires
        n.node == NodeValue::FnCall,
        n.children.len() >= 2,
        n.children[1].node == NodeValue::FnCallArgSet,
    ensures
        spec_compile_call_args(input, st, n.children[1].children, 0) matches Ok(pa)
            ==> (spec_fi_find(pa.0.funcs, input, span_text(input, n.children[0].span))
                matches Some(fi)
            ==> (fi.n_params != pa.1.len()
            ==> spec_compile_node(input, st, n) == Err::<(LowerStV, Option<Val>), Error>(
                Error::ExpectedNumArgs(fi.n_params, pa.1.len() as usize, n.children[1].span)))),
        spec_compile_call_args(input, st, n.children[1].children, 0) matches Ok(pa)
            ==> (spec_fi_find(pa.0.funcs, input, span_text(input, n.children[0].span))
                matches Some(fi)
            ==> (fi.n_params == pa.1.len()
            ==> spec_compile_node(input, st, n) == (match crate::ir::spec_push_instruction(
                pa.0.m, OpV::Call(fi.id, pa.1)).1 {
                Ok(res) => Ok::<(LowerStV, Option<Val>), Error>((LowerStV {
                    m: crate::ir::spec_push_instruction(pa.0.m, OpV::Call(fi.id, pa.1)).0,
                    ..pa.0
                }, res)),
                Err(e) => Err::<(LowerStV, Option<Val>), Error>(e),
            }))),
{
}

/// Forward reference: the first lowering traversal creates one function for
/// every collected signature — same name, same parameter count, same return
/// type, in table order — before any body is lowered, so a call can resolve
/// a function defined lexically after its caller.
pub proof fn lemma_signatures_precede_bodies(input: Seq<char>, m0: IrModuleV, sigs: Seq<SigEntryV>, k: int)
    requires
        0 <= k < sigs.len(),
    ensures
        spec_create(input, m0, sigs, 0).1.len() == sigs.len(),
        spec_create(input, m0, sigs, 0).1[k].name == sigs[k].name,
        spec_create(input, m0, sigs, 0).1[k].n_params == sigs[k].sig.params.len() as usize,
        spec_create(input, m0, sigs, 0).1[k].ret == sigs[k].sig.ret,
{
    lemma_create_entry(input, m0, sigs, 0, k);
}

proof fn lemma_create_entry(input: Seq<char>, m: IrModuleV, sigs: Seq<SigEntryV>, j: int, k: int)
    requires
        0 <= j <= k < sigs.len(),
    ensures
        spec_create(input, m, sigs, j).1.len() == sigs.len() - j,
        spec_create(input, m, sigs, j).1[k - j].name == sigs[k].name,
        spec_create(input, m, sigs, j).1[k - j].n_params == sigs[k].sig.params.len() as usize,
        spec_create(input, m, sigs, j).1[k - j].ret == sigs[k].sig.ret,
    decreases sigs.len() - j,
{
    let e = sigs[j];
    let nf = crate::ir::spec_new_function(m, span_text(input, e.name), e.sig.linkage,
        e.sig.params.map_values(|p: Param| (span_text(input, p.name), p.ty)), e.sig.ret);
    lemma_create_len(input, nf.0, sigs, j + 1);
    if j < k {
        lemma_create_entry(input, nf.0, sigs, j + 1, k);
    }
}

proof fn lemma_create_len(input: Seq<char>, m: IrModuleV, sigs: Seq<SigEntryV>, j: int)
    requires
        0 <= j <= sigs.len(),
    ensures
        spec_create(input, m, sigs, j).1.len() == sigs.len() - j,
    decreases sigs.len() - j,
{
    if j < sigs.len() {
        let e = sigs[j];
        let nf = crate::ir::spec_new_function(m, span_text(input, e.name), e.sig.linkage,
            e.sig.params.map_values(|p: Param| (span_text(input, p.name), p.ty)), e.sig.ret);
        lemma_create_len(input, nf.0, sigs, j + 1);
    }
}

/// Variable shadowing by overwrite: after a second binding of the same name,
/// a lookup sees the second binding — the environment is a flat overwrite
/// map, not a stack of scopes.  Binding never fails on a name already bound.
pub proof fn lemma_shadowing_overwrites(env: Seq<Binding>, input: Seq<char>, first: Binding, second: Binding)
    requires
        span_text(input, first.name) == span_text(input, second.name),
    ensures
        spec_benv_find(env.push(first).push(second), input, span_text(input, second.name))
            == Some(second),
{
    assert(env.push(first).push(second).last() == second);
}

/// The same overwrite law for the type-checking environment.
pub proof fn lemma_shadowing_overwrites_types(env: Seq<crate::check::TypeBinding>, input: Seq<char>, first: crate::check::TypeBinding, second: crate::check::TypeBinding)
    requires
        span_text(input, first.name) == span_text(input, second.name),
    ensures
        crate::check::spec_env_find(env.push(first).push(second), input,
            span_text(input, second.name)) == Some(second.ty),
{
    assert(env.push(first).push(second).last() == second);
}

/// Extern linkage propagation: a bodiless declaration below an external
/// block is classified as defined elsewhere, while outside such a block it
/// is private; a definition is public exactly when it sits below an external
/// block or is named `main`, and private otherwise — so a same-named private
/// function elsewhere does not inherit external linkage.
pub proof fn lemma_extern_linkage(input: Seq<char>, n: NodeV, in_ext: bool)
    ensures
        spec_sig_of(input, n, in_ext) matches Ok(p) ==> (n.node == NodeValue::FnDecl
            ==> p.1.linkage == (if in_ext { Linkage::External } else { Linkage::Private })),
        spec_sig_of(input, n, in_ext) matches Ok(p) ==> (n.node == NodeValue::FnDef
            ==> p.1.linkage == (if in_ext || span_text(input, n.children[0].span) == main_name() {
                Linkage::Public
            } else {
                Linkage::Private
            })),
{
}

/// Missing-main detection: a signature table with no entry named `main`
/// makes the lowering pass fail with the missing-main diagnostic, whatever
/// else the table holds.
pub proof fn lemma_missing_main_rejected(input: Seq<char>, sigs: Seq<SigEntryV>, m0: IrModuleV)
    requires
        spec_find(sigs, input, main_name()) is None,
    ensures
        spec_lower(input, sigs, m0) == Err::<IrModuleV, Error>(Error::MissingMain),
{
}

/// Type-mismatch rejection: when every earlier argument coerces to its
/// parameter's type and argument `k` does not, the call's argument check
/// fails with a type-mismatch diagnostic naming the expected parameter type,
/// the found argument type, and the offending argument's span.
pub proof fn lemma_argument_type_mismatch(params: Seq<Param>, args: Seq<(Type, Span)>, k: int)
    requires
        0 <= k < args.len(),
        k < params.len(),
        forall|j: int| 0 <= j < k ==> spec_coerce((#[trigger] args[j]).0, params[j].ty) is Some,
        spec_coerce(args[k].0, params[k].ty) is None,
    ensures
        spec_check_arg_types(params, args, 0)
            == Err::<(), Error>(Error::TypeMismatch(params[k].ty, args[k].0, args[k].1)),
{
    lemma_argument_type_mismatch_from(params, args, 0, k);
}

proof fn lemma_argument_type_mismatch_from(params: Seq<Param>, args: Seq<(Type, Span)>, j: int, k: int)
    requires
        0 <= j <= k < args.len(),
        k < params.len(),
        forall|q: int| j <= q < k ==> spec_coerce((#[trigger] args[q]).0, params[q].ty) is Some,
        spec_coerce(args[k].0, params[k].ty) is None,
    ensures
        spec_check_arg_types(params, args, j)
            == Err::<(), Error>(Error::TypeMismatch(params[k].ty, args[k].0, args[k].1)),
    decreases k - j,
{
    if j < k {
        lemma_argument_type_mismatch_from(params, args, j + 1, k);
    }
}

} // verus!
