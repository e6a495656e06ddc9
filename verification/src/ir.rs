use vstd::prelude::*;
use crate::error::Error;
use crate::linkage::Linkage;
use crate::type_::Type;

verus! {

/// The identity of a value produced by an instruction, unique within its
/// function.
#[derive(Clone, Copy, PartialEq, Eq, Structural, Debug)]
pub struct Val(pub usize);

/// The identity of a variable slot within a function; the first slots are
/// the function's parameters.
#[derive(Clone, Copy, PartialEq, Eq, Structural, Debug)]
pub struct VarId(pub usize);

/// The identity of a function within the module.
#[derive(Clone, Copy, PartialEq, Eq, Structural, Debug)]
pub struct FuncId(pub usize);

/// The identity of a basic block within its function.
#[derive(Clone, Copy, PartialEq, Eq, Structural, Debug)]
pub struct BlockId(pub usize);

/// The instruction vocabulary the lowering pass emits: integer-constant
/// materialization (type and little-endian payload), the four arithmetic
/// operations, the five comparisons, variable reads and writes, and calls.
pub enum Op {
    Integer(Type, Vec<u8>),
    Add(Val, Val),
    Sub(Val, Val),
    Mul(Val, Val),
    Div(Val, Val),
    CmpGt(Val, Val),
    CmpGe(Val, Val),
    CmpEq(Val, Val),
    CmpLt(Val, Val),
    CmpLe(Val, Val),
    GetVar(VarId),
    SetVar(VarId, Val),
    Call(FuncId, Vec<Val>),
}

#[verifier::ext_equal]
pub ghost enum OpV {
    Integer(Type, Seq<u8>),
    Add(Val, Val),
    Sub(Val, Val),
    Mul(Val, Val),
    Div(Val, Val),
    CmpGt(Val, Val),
    CmpGe(Val, Val),
    CmpEq(Val, Val),
    CmpLt(Val, Val),
    CmpLe(Val, Val),
    GetVar(VarId),
    SetVar(VarId, Val),
    Call(FuncId, Seq<Val>),
}

impl View for Op {
    type V = OpV;

    open spec fn view(&self) -> OpV {
        match *self {
            Op::Integer(t, ref bs) => OpV::Integer(t, bs@),
            Op::Add(a, b) => OpV::Add(a, b),
            Op::Sub(a, b) => OpV::Sub(a, b),
            Op::Mul(a, b) => OpV::Mul(a, b),
            Op::Div(a, b) => OpV::Div(a, b),
            Op::CmpGt(a, b) => OpV::CmpGt(a, b),
            Op::CmpGe(a, b) => OpV::CmpGe(a, b),
            Op::CmpEq(a, b) => OpV::CmpEq(a, b),
            Op::CmpLt(a, b) => OpV::CmpLt(a, b),
            Op::CmpLe(a, b) => OpV::CmpLe(a, b),
            Op::GetVar(v) => OpV::GetVar(v),
            Op::SetVar(v, x) => OpV::SetVar(v, x),
            Op::Call(f, ref args) => OpV::Call(f, args@),
        }
    }
}

/// One emitted instruction: its operation and the value it yielded (`None`
/// for operations that produce nothing).
pub struct Inst {
    pub op: Op,
    pub result: Option<Val>,
}

#[verifier::ext_equal]
pub ghost struct InstV {
    pub op: OpV,
    pub result: Option<Val>,
}

impl View for Inst {
    type V = InstV;

    open spec fn view(&self) -> InstV {
        InstV { op: self.op@, result: self.result }
    }
}

/// One function of the module under construction: its externally visible
/// signature, its variable slots (the first of which are its parameters),
/// its basic blocks of emitted instructions, and the counter that numbers
/// the values its instructions yield.
pub struct IrFunction {
    pub name: Vec<char>,
    pub linkage: Linkage,
    pub params: Vec<(Vec<char>, Type)>,
    pub ret: Type,
    pub variables: Vec<(Vec<char>, Type)>,
    pub blocks: Vec<Vec<Inst>>,
    pub next_val: usize,
}

#[verifier::ext_equal]
pub ghost struct IrFunctionV {
    pub name: Seq<char>,
    pub linkage: Linkage,
    pub params: Seq<(Seq<char>, Type)>,
    pub ret: Type,
    pub variables: Seq<(Seq<char>, Type)>,
    pub blocks: Seq<Seq<InstV>>,
    pub next_val: usize,
}

pub open spec fn named_types_view(v: Seq<(Vec<char>, Type)>) -> Seq<(Seq<char>, Type)> {
    v.map_values(|p: (Vec<char>, Type)| (p.0@, p.1))
}

impl View for IrFunction {
    type V = IrFunctionV;

    open spec fn view(&self) -> IrFunctionV {
        IrFunctionV {
            name: self.name@,
            linkage: self.linkage,
            params: named_types_view(self.params@),
            ret: self.ret,
            variables: named_types_view(self.variables@),
            blocks: self.blocks@.map_values(|b: Vec<Inst>| b@.map_values(|i: Inst| i@)),
            next_val: self.next_val,
        }
    }
}

/// The module under construction, together with the builder's emission
/// context: which function and which of its blocks new instructions go to.
pub struct IrModule {
    pub functions: Vec<IrFunction>,
    pub cur_func: Option<FuncId>,
    pub cur_block: Option<BlockId>,
}

#[verifier::ext_equal]
pub ghost struct IrModuleV {
    pub functions: Seq<IrFunctionV>,
    pub cur_func: Option<FuncId>,
    pub cur_block: Option<BlockId>,
}

impl View for IrModule {
    type V = IrModuleV;

    open spec fn view(&self) -> IrModuleV {
        IrModuleV {
            functions: self.functions@.map_values(|f: IrFunction| f@),
            cur_func: self.cur_func,
            cur_block: self.cur_block,
        }
    }
}

// ---------------------------------------------------------------------------
// The builder contract, as functions of the module's mathematical state
// ---------------------------------------------------------------------------

/// A new function starts with its parameters bound to the first variable
/// slots, no blocks, and its value counter at the parameter count (the
/// parameters themselves occupy the first value numbers).
pub open spec fn spec_new_function(m: IrModuleV, name: Seq<char>, linkage: Linkage, params: Seq<(Seq<char>, Type)>, ret: Type) -> (IrModuleV, FuncId) {
    let f = IrFunctionV {
        name,
        linkage,
        params,
        ret,
        variables: params,
        blocks: seq![],
        next_val: params.len() as usize,
    };
    (IrModuleV { functions: m.functions.push(f), ..m }, FuncId(m.functions.len() as usize))
}

/// Switching functions resets the block context.
pub open spec fn spec_switch_to_function(m: IrModuleV, f: FuncId) -> IrModuleV {
    IrModuleV { cur_func: Some(f), cur_block: None, ..m }
}

pub open spec fn spec_switch_to_block(m: IrModuleV, b: BlockId) -> IrModuleV {
    IrModuleV { cur_block: Some(b), ..m }
}

/// A new, empty block in the current function; fails when no function is
/// active.
pub open spec fn spec_push_block(m: IrModuleV) -> (IrModuleV, Result<BlockId, Error>) {
    match m.cur_func {
        Some(f) => {
            if f.0 < m.functions.len() {
                let fv = m.functions[f.0 as int];
                let fv2 = IrFunctionV { blocks: fv.blocks.push(seq![]), ..fv };
                (IrModuleV { functions: m.functions.update(f.0 as int, fv2), ..m },
                    Ok(BlockId(fv.blocks.len() as usize)))
            } else {
                (m, Err(Error::InternalCompilerError))
            }
        },
        None => (m, Err(Error::InternalCompilerError)),
    }
}

/// A new variable slot in the current function; fails when no function is
/// active.
pub open spec fn spec_push_variable(m: IrModuleV, name: Seq<char>, ty: Type) -> (IrModuleV, Result<VarId, Error>) {
    match m.cur_func {
        Some(f) => {
            if f.0 < m.functions.len() {
                let fv = m.functions[f.0 as int];
                let fv2 = IrFunctionV { variables: fv.variables.push((name, ty)), ..fv };
                (IrModuleV { functions: m.functions.update(f.0 as int, fv2), ..m },
                    Ok(VarId(fv.variables.len() as usize)))
            } else {
                (m, Err(Error::InternalCompilerError))
            }
        },
        None => (m, Err(Error::InternalCompilerError)),
    }
}

/// The variable slots that hold a function's parameters: the first ones, in
/// declaration order.
pub open spec fn spec_function_args(m: IrModuleV, f: FuncId) -> Option<Seq<VarId>> {
    if f.0 < m.functions.len() {
        Some(Seq::new(m.functions[f.0 as int].params.len(), |i: int| VarId(i as usize)))
    } else {
        None
    }
}

/// Whether an operation's references fit the module: variables must exist in
/// the current function, callees in the module, and a constant must carry a
/// value-producing type.
pub open spec fn spec_op_refs_ok(m: IrModuleV, fv: IrFunctionV, op: OpV) -> bool {
    match op {
        OpV::GetVar(v) => v.0 < fv.variables.len(),
        OpV::SetVar(v, x) => v.0 < fv.variables.len(),
        OpV::Call(g, args) => g.0 < m.functions.len(),
        OpV::Integer(t, bs) => t != Type::Void,
        _ => true,
    }
}

/// Whether an operation produces no value: variable writes, calls of
/// void-returning functions, and reads of void variables.
pub open spec fn spec_op_is_void(m: IrModuleV, fv: IrFunctionV, op: OpV) -> bool {
    match op {
        OpV::SetVar(v, x) => true,
        OpV::Call(g, args) => m.functions[g.0 as int].ret == Type::Void,
        OpV::GetVar(v) => fv.variables[v.0 as int].1 == Type::Void,
        _ => false,
    }
}

/// Appending one instruction to the current block of the current function.
/// A value-producing operation yields the function's next value number; a
/// void one yields nothing.  Fails when no block is active or the
/// operation's references do not fit the module.
pub open spec fn spec_push_instruction(m: IrModuleV, op: OpV) -> (IrModuleV, Result<Option<Val>, Error>) {
    match (m.cur_func, m.cur_block) {
        (Some(f), Some(b)) => {
            if f.0 >= m.functions.len() {
                (m, Err(Error::InternalCompilerError))
            } else {
                let fv = m.functions[f.0 as int];
                if b.0 >= fv.blocks.len() || !spec_op_refs_ok(m, fv, op) {
                    (m, Err(Error::InternalCompilerError))
                } else {
                    let void = spec_op_is_void(m, fv, op);
                    if !void && fv.next_val == usize::MAX {
                        (m, Err(Error::InternalCompilerError))
                    } else {
                        let result: Option<Val> = if void { None } else { Some(Val(fv.next_val)) };
                        let nv: usize = if void { fv.next_val } else { (fv.next_val + 1) as usize };
                        let inst = InstV { op, result };
                        let fv2 = IrFunctionV {
                            blocks: fv.blocks.update(b.0 as int, fv.blocks[b.0 as int].push(inst)),
                            next_val: nv,
                            ..fv
                        };
                        (IrModuleV { functions: m.functions.update(f.0 as int, fv2), ..m },
                            Ok(result))
                    }
                }
            }
        },
        _ => (m, Err(Error::InternalCompilerError)),
    }
}

// ---------------------------------------------------------------------------
// The executable builder
// ---------------------------------------------------------------------------

impl IrModule {
    /// An empty module with no active context.
    pub fn new() -> (r: IrModule)
        ensures
            r@.functions.len() == 0,
            r@.cur_func is None,
            r@.cur_block is None,
    {
        IrModule { functions: Vec::new(), cur_func: None, cur_block: None }
    }

    /// Creates a function with the given signature and returns its identity.
    pub fn new_function(&mut self, name: Vec<char>, linkage: Linkage, params: Vec<(Vec<char>, Type)>, ret: Type) -> (r: FuncId)
        ensures
            (final(self)@, r) == spec_new_function(old(self)@, name@, linkage,
                named_types_view(params@), ret),
    {
        let id = FuncId(self.functions.len());
        let nparams = params.len();
        let mut variables: Vec<(Vec<char>, Type)> = Vec::new();
        let mut k: usize = 0;
        while k < params.len()
            invariant
                k <= params@.len(),
                variables@.len() == k,
                forall|j: int| 0 <= j < k ==> (#[trigger] variables@[j]).0@ == params@[j].0@
                    && variables@[j].1 == params@[j].1,
            decreases params@.len() - k,
        {
            let name_k = copy_chars(&params[k].0);
            let ty_k = params[k].1;
            variables.push((name_k, ty_k));
            k = k + 1;
        }
        proof {
            assert forall|j: int| 0 <= j < params@.len() implies
                named_types_view(variables@)[j] == named_types_view(params@)[j] by {
                assert(variables@[j].0@ == params@[j].0@);
            }
            assert(named_types_view(variables@) =~= named_types_view(params@));
        }
        let f = IrFunction {
            name,
            linkage,
            params,
            ret,
            variables,
            blocks: Vec::new(),
            next_val: nparams,
        };
        self.functions.push(f);
        proof {
            assert(final(self)@.functions =~~= spec_new_function(old(self)@, name@, linkage,
                named_types_view(params@), ret).0.functions);
            assert(final(self)@ =~~= spec_new_function(old(self)@, name@, linkage,
                named_types_view(params@), ret).0);
        }
        id
    }

    /// Makes `f` the function new blocks and instructions go to; the block
    /// context is cleared.
    pub fn switch_to_function(&mut self, f: FuncId)
        ensures
            final(self)@ == spec_switch_to_function(old(self)@, f),
    {
        self.cur_func = Some(f);
        self.cur_block = None;
        proof {
            assert(final(self)@ =~~= spec_switch_to_function(old(self)@, f));
        }
    }

    /// Makes `b` the block new instructions go to.
    pub fn switch_to_block(&mut self, b: BlockId)
        ensures
            final(self)@ == spec_switch_to_block(old(self)@, b),
    {
        self.cur_block = Some(b);
        proof {
            assert(final(self)@ =~~= spec_switch_to_block(old(self)@, b));
        }
    }

    /// Appends a new, empty block to the current function.
    pub fn push_block(&mut self) -> (r: Result<BlockId, Error>)
        ensures
            (final(self)@, r) == spec_push_block(old(self)@),
    {
        match self.cur_func {
            Some(f) => {
                if f.0 < self.functions.len() {
                    let nblocks = self.functions[f.0].blocks.len();
                    self.functions[f.0].blocks.push(Vec::new());
                    proof {
                        assert(Seq::<Inst>::empty().map_values(|i: Inst| i@) =~= Seq::<InstV>::empty());
                        assert(final(self)@ =~~= spec_push_block(old(self)@).0);
                    }
                    Ok(BlockId(nblocks))
                } else {
                    Err(Error::InternalCompilerError)
                }
            },
            None => Err(Error::InternalCompilerError),
        }
    }

    /// Appends a new variable slot to the current function.
    pub fn push_variable(&mut self, name: Vec<char>, ty: Type) -> (r: Result<VarId, Error>)
        ensures
            (final(self)@, r) == spec_push_variable(old(self)@, name@, ty),
    {
        match self.cur_func {
            Some(f) => {
                if f.0 < self.functions.len() {
                    let nvars = self.functions[f.0].variables.len();
                    self.functions[f.0].variables.push((name, ty));
                    proof {
                        assert(named_types_view(final(self).functions@[f.0 as int].variables@)
                            =~= named_types_view(old(self).functions@[f.0 as int].variables@)
                                .push((name@, ty)));
                        assert(final(self)@ =~~= spec_push_variable(old(self)@, name@, ty).0);
                    }
                    Ok(VarId(nvars))
                } else {
                    Err(Error::InternalCompilerError)
                }
            },
            None => Err(Error::InternalCompilerError),
        }
    }

    /// The variable slots holding `f`'s parameters, in order, or nothing for
    /// an unknown function identity.
    pub fn get_function_args(&self, f: FuncId) -> (r: Option<Vec<VarId>>)
        ensures
            r matches Some(args) ==> spec_function_args(self@, f) == Some(args@),
            r is None ==> spec_function_args(self@, f) is None,
    {
        if f.0 < self.functions.len() {
            let n = self.functions[f.0].params.len();
            let mut args: Vec<VarId> = Vec::new();
            let mut k: usize = 0;
            while k < n
                invariant
                    k <= n,
                    args@.len() == k,
                    forall|j: int| 0 <= j < k ==> args@[j] == VarId(j as usize),
                decreases n - k,
            {
                args.push(VarId(k));
                k = k + 1;
            }
            proof {
                assert(args@ =~= Seq::new(self@.functions[f.0 as int].params.len(),
                    |i: int| VarId(i as usize)));
            }
            Some(args)
        } else {
            None
        }
    }

    /// Appends one instruction to the current block, yielding its value (or
    /// nothing, for operations that produce none).
    pub fn push_instruction(&mut self, op: Op) -> (r: Result<Option<Val>, Error>)
        ensures
            (final(self)@, r) == spec_push_instruction(old(self)@, op@),
    {
        let (f, b) = match (self.cur_func, self.cur_block) {
            (Some(f), Some(b)) => (f, b),
            _ => {
                return Err(Error::InternalCompilerError);
            },
        };
        if f.0 >= self.functions.len() {
            return Err(Error::InternalCompilerError);
        }
        let refs_ok = match &op {
            Op::GetVar(v) => v.0 < self.functions[f.0].variables.len(),
            Op::SetVar(v, x) => v.0 < self.functions[f.0].variables.len(),
            Op::Call(g, args) => g.0 < self.functions.len(),
            Op::Integer(t, bs) => *t != Type::Void,
            _ => true,
        };
        if b.0 >= self.functions[f.0].blocks.len() || !refs_ok {
            return Err(Error::InternalCompilerError);
        }
        let void = match &op {
            Op::SetVar(v, x) => true,
            Op::Call(g, args) => {
                let gr = self.functions[g.0].ret;
                gr == Type::Void
            },
            Op::GetVar(v) => {
                let vt = self.functions[f.0].variables[v.0].1;
                vt == Type::Void
            },
            _ => false,
        };
        if !void && self.functions[f.0].next_val == usize::MAX {
            return Err(Error::InternalCompilerError);
        }
        let result: Option<Val> = if void { None } else {
            Some(Val(self.functions[f.0].next_val))
        };
        if !void {
            let nv = self.functions[f.0].next_val + 1;
            self.functions[f.0].next_val = nv;
        }
        self.functions[f.0].blocks[b.0].push(Inst { op, result });
        proof {
            let target = spec_push_instruction(old(self)@, op@);
            assert(final(self)@.functions[f.0 as int].blocks =~~=
                target.0.functions[f.0 as int].blocks);
            assert(final(self)@ =~~= target.0);
        }
        Ok(result)
    }
}

/// A copy of a character vector.
pub fn copy_chars(v: &Vec<char>) -> (r: Vec<char>)
    ensures
        r@ == v@,
{
    let mut r: Vec<char> = Vec::new();
    let mut k: usize = 0;
    while k < v.len()
        invariant
            k <= v@.len(),
            r@.len() == k,
            forall|j: int| 0 <= j < k ==> r@[j] == v@[j],
        decreases v@.len() - k,
    {
        r.push(v[k]);
        k = k + 1;
    }
    proof {
        assert(r@ =~= v@);
    }
    r
}

} // verus!
