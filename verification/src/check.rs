use vstd::prelude::*;
use crate::error::{Error, Span};
use crate::node::{Node, NodeV, NodeValue, nodes_view, lemma_nodes_view_index};
use crate::sig::{Param, SigEntryV, SigTable, span_text, span_text_eq, spec_lookup};
use crate::type_::{Type, spec_coerce};

verus! {

/// One variable-type binding of the checking environment.
#[derive(Clone, Copy, PartialEq, Eq, Structural, Debug)]
pub struct TypeBinding {
    pub name: Span,
    pub ty: Type,
}

/// The type bound to `name`, reading the environment back to front: a later
/// binding of the same name overwrites an earlier one.
pub open spec fn spec_env_find(env: Seq<TypeBinding>, input: Seq<char>, name: Seq<char>) -> Option<Type>
    decreases env.len(),
{
    if env.len() == 0 {
        None
    } else if span_text(input, env.last().name) == name {
        Some(env.last().ty)
    } else {
        spec_env_find(env.drop_last(), input, name)
    }
}

/// Looks a variable up in the environment prefix of length `upto`.
fn env_find_upto(input: &Vec<char>, env: &Vec<TypeBinding>, name: Span, upto: usize) -> (r: Option<Type>)
    requires
        upto <= env@.len(),
    ensures
        r == spec_env_find(env@.take(upto as int), input@, span_text(input@, name)),
    decreases upto,
{
    if upto == 0 {
        proof {
            assert(env@.take(0).len() == 0);
        }
        None
    } else {
        proof {
            assert(env@.take(upto as int).last() == env@[upto - 1]);
            assert(env@.take(upto as int).drop_last() =~= env@.take(upto - 1));
        }
        if span_text_eq(input, env[upto - 1].name, name) {
            Some(env[upto - 1].ty)
        } else {
            env_find_upto(input, env, name, upto - 1)
        }
    }
}

/// The type bound to the name the span reads as, if any.
pub fn env_find(input: &Vec<char>, env: &Vec<TypeBinding>, name: Span) -> (r: Option<Type>)
    ensures
        r == spec_env_find(env@, input@, span_text(input@, name)),
{
    proof {
        assert(env@.take(env@.len() as int) =~= env@);
    }
    env_find_upto(input, env, name, env.len())
}

// ---------------------------------------------------------------------------
// The checking rules
// ---------------------------------------------------------------------------

/// The type of one node, under an environment and the signature table.
/// Literal numbers are integers, boolean literals booleans; an identifier
/// has its bound type; an operator chain has its leftmost operand's type
/// (boolean chains: `bool`), with every other operand required to equal the
/// leftmost; a binding records its value's type and has type `void`; a call
/// checks arity and argument types against the callee's signature and has
/// its return type.  Conditional blocks are not part of this core and are
/// rejected; node kinds that cannot stand in a body signal a malformed tree.
pub open spec fn spec_check_node(input: Seq<char>, sigs: Seq<SigEntryV>, env: Seq<TypeBinding>, n: NodeV) -> Result<(Type, Seq<TypeBinding>), Error>
    decreases n, 0nat,
{
    match n.node {
        NodeValue::Id => {
            match spec_env_find(env, input, span_text(input, n.span)) {
                Some(t) => Ok((t, env)),
                None => Err(Error::VarDoesntExist(n.span)),
            }
        },
        NodeValue::Number => Ok((Type::Int, env)),
        NodeValue::True => Ok((Type::Bool, env)),
        NodeValue::False => Ok((Type::Bool, env)),
        NodeValue::Product | NodeValue::Sum | NodeValue::BoolExpr => {
            if n.children.len() == 1 {
                spec_check_node(input, sigs, env, n.children[0])
            } else if n.children.len() % 2 == 1 {
                match spec_check_node(input, sigs, env, n.children[0]) {
                    Ok((lhs, env1)) => {
                        match spec_check_operands(input, sigs, env1, n.children, 2, lhs) {
                            Ok(env2) => {
                                if n.node == NodeValue::BoolExpr {
                                    Ok((Type::Bool, env2))
                                } else {
                                    Ok((lhs, env2))
                                }
                            },
                            Err(e) => Err(e),
                        }
                    },
                    Err(e) => Err(e),
                }
            } else {
                Err(Error::InternalCompilerError)
            }
        },
        NodeValue::Expr => {
            if n.children.len() >= 1 {
                spec_check_node(input, sigs, env, n.children[0])
            } else {
                Err(Error::InternalCompilerError)
            }
        },
        NodeValue::VarAssign => {
            if n.children.len() >= 2 {
                match spec_check_node(input, sigs, env, n.children[1]) {
                    Ok((t, env1)) => Ok((Type::Void,
                        env1.push(TypeBinding { name: n.children[0].span, ty: t }))),
                    Err(e) => Err(e),
                }
            } else {
                Err(Error::InternalCompilerError)
            }
        },
        NodeValue::FnCall => {
            if n.children.len() >= 2 {
                let id = n.children[0];
                let aset = n.children[1];
                let argres: Result<(Seq<(Type, Span)>, Seq<TypeBinding>), Error> =
                    if aset.node == NodeValue::FnCallArgSet {
                        spec_check_args(input, sigs, env, aset.children, 0)
                    } else if aset.node == NodeValue::NULL {
                        Ok((seq![], env))
                    } else {
                        Err(Error::InternalCompilerError)
                    };
                match argres {
                    Ok((args, env1)) => {
                        match spec_lookup(sigs, input, span_text(input, id.span)) {
                            Some(sig) => {
                                if sig.params.len() != args.len() {
                                    Err(Error::ExpectedNumArgs(sig.params.len() as usize,
                                        args.len() as usize, aset.span))
                                } else {
                                    match spec_check_arg_types(sig.params, args, 0) {
                                        Ok(u) => Ok((sig.ret, env1)),
                                        Err(e) => Err(e),
                                    }
                                }
                            },
                            None => Err(Error::FuncDoesntExist(id.span)),
                        }
                    },
                    Err(e) => Err(e),
                }
            } else {
                Err(Error::InternalCompilerError)
            }
        },
        NodeValue::If => Err(Error::NotAllowedHere(n.span)),
        NodeValue::FnDef => Err(Error::NotAllowedHere(n.span)),
        _ => Err(Error::InternalCompilerError),
    }
}

/// Checks the remaining operands of an operator chain (children `k`,
/// `k + 2`, ...), each of which must have exactly the leftmost operand's
/// type.
pub open spec fn spec_check_operands(input: Seq<char>, sigs: Seq<SigEntryV>, env: Seq<TypeBinding>, cs: Seq<NodeV>, k: int, lhs: Type) -> Result<Seq<TypeBinding>, Error>
    decreases cs, if cs.len() - k >= 0 { (cs.len() - k) as nat } else { 0nat }, 1nat,
{
    if k < 0 || k >= cs.len() {
        Ok(env)
    } else {
        match spec_check_node(input, sigs, env, cs[k]) {
            Ok((t, env1)) => {
                if t == lhs {
                    spec_check_operands(input, sigs, env1, cs, k + 2, lhs)
                } else {
                    Err(Error::TypeMismatch(lhs, t, cs[k].span))
                }
            },
            Err(e) => Err(e),
        }
    }
}

/// Checks the argument expressions of a call from index `k` on, collecting
/// each one's type and span in order.
pub open spec fn spec_check_args(input: Seq<char>, sigs: Seq<SigEntryV>, env: Seq<TypeBinding>, cs: Seq<NodeV>, k: int) -> Result<(Seq<(Type, Span)>, Seq<TypeBinding>), Error>
    decreases cs, if cs.len() - k >= 0 { (cs.len() - k) as nat } else { 0nat }, 1nat,
{
    if k < 0 || k >= cs.len() {
        Ok((seq![], env))
    } else {
        match spec_check_node(input, sigs, env, cs[k]) {
            Ok((t, env1)) => {
                match spec_check_args(input, sigs, env1, cs, k + 1) {
                    Ok((rest, env2)) => Ok((seq![(t, cs[k].span)] + rest, env2)),
                    Err(e) => Err(e),
                }
            },
            Err(e) => Err(e),
        }
    }
}

/// Checks each argument's type against the declared parameter type at the
/// same position; an argument type must coerce to the parameter type.
pub open spec fn spec_check_arg_types(params: Seq<Param>, args: Seq<(Type, Span)>, k: int) -> Result<(), Error>
    decreases if args.len() - k >= 0 { (args.len() - k) as nat } else { 0nat },
{
    if k < 0 || k >= args.len() || k >= params.len() {
        Ok(())
    } else {
        if spec_coerce(args[k].0, params[k].ty) is Some {
            spec_check_arg_types(params, args, k + 1)
        } else {
            Err(Error::TypeMismatch(params[k].ty, args[k].0, args[k].1))
        }
    }
}

/// The initial environment of a function body: its parameters, in order.
pub open spec fn spec_params_env(params: Seq<Param>) -> Seq<TypeBinding> {
    params.map_values(|p: Param| TypeBinding { name: p.name, ty: p.ty })
}

/// Checks a body's nodes in order from index `k`, threading the environment;
/// the result is the type of the last node, or `void` for an empty tail.
pub open spec fn spec_check_body(input: Seq<char>, sigs: Seq<SigEntryV>, env: Seq<TypeBinding>, body: Seq<NodeV>, k: int, last: Type) -> Result<Type, Error>
    decreases body, if body.len() - k >= 0 { (body.len() - k) as nat } else { 0nat }, 1nat,
{
    if k < 0 || k >= body.len() {
        Ok(last)
    } else {
        match spec_check_node(input, sigs, env, body[k]) {
            Ok((t, env1)) => spec_check_body(input, sigs, env1, body, k + 1, t),
            Err(e) => Err(e),
        }
    }
}

/// Checks one collected function: its body is checked under an environment
/// seeded from the parameters, and the final node's type must equal the
/// declared return type.  A bodiless declaration has nothing to check.
pub open spec fn spec_check_fn(input: Seq<char>, sigs: Seq<SigEntryV>, entry: SigEntryV) -> Result<(), Error> {
    if entry.sig.body.len() == 0 {
        Ok(())
    } else {
        match spec_check_body(input, sigs, spec_params_env(entry.sig.params), entry.sig.body, 0,
            Type::Void) {
            Ok(t) => {
                if t == entry.sig.ret {
                    Ok(())
                } else {
                    Err(Error::TypeMismatch(entry.sig.ret, t, entry.sig.body.last().span))
                }
            },
            Err(e) => Err(e),
        }
    }
}

/// Checks every collected function, in table order; the first failure aborts
/// the pass.
pub open spec fn spec_check_all(input: Seq<char>, sigs: Seq<SigEntryV>, k: int) -> Result<(), Error>
    decreases if sigs.len() - k >= 0 { (sigs.len() - k) as nat } else { 0nat },
{
    if k < 0 || k >= sigs.len() {
        Ok(())
    } else {
        match spec_check_fn(input, sigs, sigs[k]) {
            Ok(u) => spec_check_all(input, sigs, k + 1),
            Err(e) => Err(e),
        }
    }
}

// ---------------------------------------------------------------------------
// The executable checker
// ---------------------------------------------------------------------------

fn check_node(input: &Vec<char>, sigs: &SigTable, env: &mut Vec<TypeBinding>, n: &Node) -> (r: Result<Type, Error>)
    ensures
        r matches Ok(t) ==> spec_check_node(input@, sigs@, old(env)@, n@)
            == Ok::<_, Error>((t, final(env)@)),
        r matches Err(e) ==> spec_check_node(input@, sigs@, old(env)@, n@)
            == Err::<(Type, Seq<TypeBinding>), Error>(e),
    decreases *n,
{
    proof {
        lemma_nodes_view_index(n.children@);
    }
    match n.node {
        NodeValue::Id => {
            match env_find(input, env, n.span) {
                Some(t) => Ok(t),
                None => Err(Error::VarDoesntExist(n.span)),
            }
        },
        NodeValue::Number => Ok(Type::Int),
        NodeValue::True => Ok(Type::Bool),
        NodeValue::False => Ok(Type::Bool),
        NodeValue::Product | NodeValue::Sum | NodeValue::BoolExpr => {
            if n.children.len() == 1 {
                check_node(input, sigs, env, &n.children[0])
            } else if n.children.len() % 2 == 1 {
                match check_node(input, sigs, env, &n.children[0]) {
                    Ok(lhs) => {
                        match check_operands(input, sigs, env, &n.children, 2, lhs) {
                            Ok(u) => {
                                if n.node == NodeValue::BoolExpr {
                                    Ok(Type::Bool)
                                } else {
                                    Ok(lhs)
                                }
                            },
                            Err(e) => Err(e),
                        }
                    },
                    Err(e) => Err(e),
                }
            } else {
                Err(Error::InternalCompilerError)
            }
        },
        NodeValue::Expr => {
            if n.children.len() >= 1 {
                check_node(input, sigs, env, &n.children[0])
            } else {
                Err(Error::InternalCompilerError)
            }
        },
        NodeValue::VarAssign => {
            if n.children.len() >= 2 {
                match check_node(input, sigs, env, &n.children[1]) {
                    Ok(t) => {
                        env.push(TypeBinding { name: n.children[0].span, ty: t });
                        Ok(Type::Void)
                    },
                    Err(e) => Err(e),
                }
            } else {
                Err(Error::InternalCompilerError)
            }
        },
        NodeValue::FnCall => {
            if n.children.len() >= 2 {
                let aset = &n.children[1];
                let argres: Result<Vec<(Type, Span)>, Error> =
                    if aset.node == NodeValue::FnCallArgSet {
                        check_args(input, sigs, env, &aset.children, 0)
                    } else if aset.node == NodeValue::NULL {
                        Ok(Vec::new())
                    } else {
                        Err(Error::InternalCompilerError)
                    };
                proof {
                    assert(n@.children[1] == n.children@[1 as int]@);
                    assert(n@.children[1].children == nodes_view(n.children@[1 as int].children@));
                }
                match argres {
                    Ok(args) => {
                        match sigs.find(input, n.children[0].span) {
                            Some(k) => {
                                let sig = &sigs.entries[k].sig;
                                proof {
                                    assert(sigs@[k as int].sig == sigs.entries@[k as int]@.sig);
                                }
                                if sig.params.len() != args.len() {
                                    Err(Error::ExpectedNumArgs(sig.params.len(), args.len(),
                                        aset.span))
                                } else {
                                    match check_arg_types(&sig.params, &args, 0) {
                                        Ok(u) => Ok(sig.ret),
                                        Err(e) => Err(e),
                                    }
                                }
                            },
                            None => Err(Error::FuncDoesntExist(n.children[0].span)),
                        }
                    },
                    Err(e) => Err(e),
                }
            } else {
                Err(Error::InternalCompilerError)
            }
        },
        NodeValue::If => Err(Error::NotAllowedHere(n.span)),
        NodeValue::FnDef => Err(Error::NotAllowedHere(n.span)),
        _ => Err(Error::InternalCompilerError),
    }
}

fn check_operands(input: &Vec<char>, sigs: &SigTable, env: &mut Vec<TypeBinding>, cs: &Vec<Node>, k: usize, lhs: Type) -> (r: Result<(), Error>)
    ensures
        r matches Ok(u) ==> spec_check_operands(input@, sigs@, old(env)@, nodes_view(cs@),
            k as int, lhs) == Ok::<_, Error>(final(env)@),
        r matches Err(e) ==> spec_check_operands(input@, sigs@, old(env)@, nodes_view(cs@),
            k as int, lhs) == Err::<Seq<TypeBinding>, Error>(e),
    decreases cs@, cs@.len() - k,
{
    proof {
        lemma_nodes_view_index(cs@);
    }
    if k >= cs.len() {
        Ok(())
    } else {
        match check_node(input, sigs, env, &cs[k]) {
            Ok(t) => {
                if t == lhs {
                    let ghost env1v = env@;
                    let k2 = if cs.len() - k >= 2 { k + 2 } else { cs.len() };
                    proof {
                        if cs@.len() - k < 2 {
                            assert(spec_check_operands(input@, sigs@, env1v, nodes_view(cs@),
                                k + 2, lhs) == Ok::<_, Error>(env1v));
                            assert(spec_check_operands(input@, sigs@, env1v, nodes_view(cs@),
                                k2 as int, lhs) == Ok::<_, Error>(env1v));
                        }
                    }
                    check_operands(input, sigs, env, cs, k2, lhs)
                } else {
                    Err(Error::TypeMismatch(lhs, t, cs[k].span))
                }
            },
            Err(e) => Err(e),
        }
    }
}

fn check_args(input: &Vec<char>, sigs: &SigTable, env: &mut Vec<TypeBinding>, cs: &Vec<Node>, k: usize) -> (r: Result<Vec<(Type, Span)>, Error>)
    ensures
        r matches Ok(args) ==> spec_check_args(input@, sigs@, old(env)@, nodes_view(cs@),
            k as int) == Ok::<_, Error>((args@, final(env)@)),
        r matches Err(e) ==> spec_check_args(input@, sigs@, old(env)@, nodes_view(cs@),
            k as int) == Err::<(Seq<(Type, Span)>, Seq<TypeBinding>), Error>(e),
    decreases cs@, cs@.len() - k,
{
    proof {
        lemma_nodes_view_index(cs@);
    }
    if k >= cs.len() {
        proof {
            assert(Seq::<(Type, Span)>::empty() =~= seq![]);
        }
        Ok(Vec::new())
    } else {
        match check_node(input, sigs, env, &cs[k]) {
            Ok(t) => {
                match check_args(input, sigs, env, cs, k + 1) {
                    Ok(rest) => {
                        let ghost restv = rest@;
                        let mut args: Vec<(Type, Span)> = Vec::new();
                        args.push((t, cs[k].span));
                        let mut rest2 = rest;
                        args.append(&mut rest2);
                        proof {
                            assert(args@ =~= seq![(t, nodes_view(cs@)[k as int].span)] + restv);
                        }
                        Ok(args)
                    },
                    Err(e) => Err(e),
                }
            },
            Err(e) => Err(e),
        }
    }
}

fn check_arg_types(params: &Vec<Param>, args: &Vec<(Type, Span)>, k: usize) -> (r: Result<(), Error>)
    ensures
        r matches Ok(u) ==> spec_check_arg_types(params@, args@, k as int) == Ok::<(), Error>(()),
        r matches Err(e) ==> spec_check_arg_types(params@, args@, k as int)
            == Err::<(), Error>(e),
    decreases
        if args@.len() - k >= 0 { (args@.len() - k) as nat } else { 0nat },
{
    if k >= args.len() || k >= params.len() {
        Ok(())
    } else {
        let arg = args[k];
        match arg.0.coerce(params[k].ty, arg.1) {
            Ok(u) => check_arg_types(params, args, k + 1),
            Err(e) => Err(e),
        }
    }
}

/// The type-checking pass: validates every collected function against the
/// signature table and the rules above, without changing the table.  Returns
/// nothing on success; the first violation aborts the pass with its
/// diagnostic.
pub fn type_check(input: &Vec<char>, sigs: &SigTable) -> (r: Result<(), Error>)
    ensures
        r matches Ok(u) ==> spec_check_all(input@, sigs@, 0) == Ok::<(), Error>(()),
        r matches Err(e) ==> spec_check_all(input@, sigs@, 0) == Err::<(), Error>(e),
{
    let mut i: usize = 0;
    while i < sigs.entries.len()
        invariant
            i <= sigs@.len(),
            sigs@.len() == sigs.entries@.len(),
            spec_check_all(input@, sigs@, 0) == spec_check_all(input@, sigs@, i as int),
        decreases sigs@.len() - i,
    {
        let entry = &sigs.entries[i];
        proof {
            assert(sigs@[i as int] == sigs.entries@[i as int]@);
        }
        if entry.sig.body.len() == 0 {
            i = i + 1;
            continue;
        }
        let mut env: Vec<TypeBinding> = Vec::new();
        let mut j: usize = 0;
        while j < entry.sig.params.len()
            invariant
                j <= entry.sig.params@.len(),
                env@.len() == j,
                forall|q: int| 0 <= q < j ==> env@[q] == (TypeBinding {
                    name: entry.sig.params@[q].name,
                    ty: entry.sig.params@[q].ty,
                }),
            decreases entry.sig.params@.len() - j,
        {
            env.push(TypeBinding { name: entry.sig.params[j].name, ty: entry.sig.params[j].ty });
            j = j + 1;
        }
        proof {
            assert(entry@.sig == sigs@[i as int].sig);
            assert(env@ =~= spec_params_env(sigs@[i as int].sig.params));
            assert(nodes_view(entry.sig.body@) == sigs@[i as int].sig.body);
        }
        let t = match check_body(input, sigs, &mut env, &entry.sig.body, 0, Type::Void) {
            Ok(t) => t,
            Err(e) => {
                proof {
                    assert(spec_check_fn(input@, sigs@, sigs@[i as int]) == Err::<(), Error>(e));
                }
                return Err(e);
            },
        };
        if t != entry.sig.ret {
            let at = entry.sig.body[entry.sig.body.len() - 1].span;
            proof {
                lemma_nodes_view_index(entry.sig.body@);
                assert(sigs@[i as int].sig.body.last()
                    == entry.sig.body@[entry.sig.body@.len() - 1]@);
            }
            return Err(Error::TypeMismatch(entry.sig.ret, t, at));
        }
        i = i + 1;
    }
    Ok(())
}

fn check_body(input: &Vec<char>, sigs: &SigTable, env: &mut Vec<TypeBinding>, body: &Vec<Node>, k: usize, last: Type) -> (r: Result<Type, Error>)
    ensures
        r matches Ok(t) ==> spec_check_body(input@, sigs@, old(env)@, nodes_view(body@),
            k as int, last) == Ok::<_, Error>(t),
        r matches Err(e) ==> spec_check_body(input@, sigs@, old(env)@, nodes_view(body@),
            k as int, last) == Err::<Type, Error>(e),
    decreases body@, body@.len() - k,
{
    proof {
        lemma_nodes_view_index(body@);
    }
    if k >= body.len() {
        Ok(last)
    } else {
        match check_node(input, sigs, env, &body[k]) {
            Ok(t) => check_body(input, sigs, env, body, k + 1, t),
            Err(e) => Err(e),
        }
    }
}

} // verus!
