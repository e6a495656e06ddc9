use vstd::prelude::*;
use crate::check::{spec_check_all, type_check};
use crate::error::{Error, Span};
use crate::ir::{IrModule, IrModuleV};
use crate::lower::{lower_program, spec_lower};
use crate::node::{Node, NodeV, nodes_view};
use crate::parse::{parse_root, spec_err_span, spec_root};
use crate::sig::{SigEntryV, SigTable, collect_signatures, spec_collect};
use crate::token::{Tok, filter_structural, spec_lex_fail, spec_structural_of, spec_tokens,
    tokenize};
use crate::type_::Types;

verus! {

// ---------------------------------------------------------------------------
// The pipeline, stage by stage
// ---------------------------------------------------------------------------

/// The front end as one function of the source text: the token stream,
/// filtered to its structural tokens, parsed into the top-level nodes.
pub open spec fn spec_front(input: Seq<char>) -> Result<Seq<NodeV>, Error> {
    match spec_lex_fail(input, 0) {
        Some(p) => Err(Error::ParseError(Span { start: p as usize, end: (p + 1) as usize })),
        None => {
            let toks = spec_structural_of(spec_tokens(input, 0));
            match spec_root(toks) {
                Ok(ns) => Ok(ns),
                Err(p) => Err(Error::ParseError(spec_err_span(toks, p))),
            }
        },
    }
}

/// Tokenizes and parses the source, yielding the top-level syntax tree nodes.
pub fn front(input: &Vec<char>) -> (r: Result<Vec<Node>, Error>)
    ensures
        r matches Ok(ns) ==> spec_front(input@) == Ok::<Seq<NodeV>, Error>(nodes_view(ns@)),
        r matches Err(e) ==> spec_front(input@) == Err::<Seq<NodeV>, Error>(e),
{
    let toks = match tokenize(input) {
        Ok(t) => t,
        Err(e) => {
            return Err(e);
        },
    };
    let st = filter_structural(&toks);
    parse_root(&st)
}

/// The module state a compilation starts from: nothing built, no context.
pub open spec fn empty_module() -> IrModuleV {
    IrModuleV { functions: seq![], cur_func: None, cur_block: None }
}

/// The whole compilation as one function of the source text: parse, collect
/// signatures, type-check, lower.
pub open spec fn spec_compile_program(input: Seq<char>, m0: IrModuleV) -> Result<IrModuleV, Error> {
    match spec_front(input) {
        Err(e) => Err(e),
        Ok(ns) => {
            match spec_collect(input, ns, false, seq![]) {
                Err(e) => Err(e),
                Ok(sigs) => {
                    match spec_check_all(input, sigs, 0) {
                        Err(e) => Err(e),
                        Ok(u) => spec_lower(input, sigs, m0),
                    }
                },
            }
        },
    }
}

/// Compiles a whole program: tokenize, parse, collect signatures, type-check,
/// and lower into a fresh IR module.
pub fn compile_program(input: &Vec<char>) -> (r: Result<IrModule, Error>)
    ensures
        r matches Ok(m) ==> spec_compile_program(input@, empty_module())
            == Ok::<IrModuleV, Error>(m@),
        r matches Err(e) ==> spec_compile_program(input@, empty_module())
            == Err::<IrModuleV, Error>(e),
{
    let nodes = match front(input) {
        Ok(ns) => ns,
        Err(e) => {
            return Err(e);
        },
    };
    let types = Types::new();
    let sigs = match collect_signatures(input, &types, &nodes) {
        Ok(t) => t,
        Err(e) => {
            return Err(e);
        },
    };
    match type_check(input, &sigs) {
        Ok(u) => {},
        Err(e) => {
            return Err(e);
        },
    }
    let mut m = IrModule::new();
    proof {
        assert(m@ =~~= empty_module());
    }
    match lower_program(input, &types, &sigs, &mut m) {
        Ok(u) => Ok(m),
        Err(e) => Err(e),
    }
}

// ---------------------------------------------------------------------------
// The pass-composition harness
// ---------------------------------------------------------------------------

/// A transforming stage: consumes its predecessor's result and produces its
/// own, possibly using an auxiliary argument supplied to the runner.
pub trait CodePass: Sized {
    type Prev;

    type Arg;

    fn pass(prev: Self::Prev, input: &Vec<char>, arg: &mut Self::Arg) -> Result<Self, Error>;
}

/// A checking stage: validates its predecessor's result and hands it back
/// unchanged.
pub trait CheckPass: Sized {
    type Prev;

    type Arg;

    fn check(prev: Self::Prev, input: &Vec<char>, arg: &Self::Arg) -> Result<Self::Prev, Error>;
}

/// Evidence that the runner's argument can stand in for the one a stage
/// asks for.
pub trait Is<T> {
    fn is(&self) -> &T;

    fn is_mut(&mut self) -> &mut T;
}

impl<T> Is<T> for T {
    fn is(&self) -> &T {
        self
    }

    fn is_mut(&mut self) -> &mut T {
        self
    }
}

/// The fluent sequencer: starts from the raw source text and an empty
/// previous-stage marker, and threads each stage's result (and one optional
/// side argument) through the pipeline; the first failing stage halts it.
pub struct PassRunner<P, A> {
    pub cur: P,
    pub input: Vec<char>,
    pub arg: A,
}

impl<P, A> PassRunner<P, A> {
    /// A runner over the given source with no result and no argument yet.
    pub fn new(input: Vec<char>) -> (r: PassRunner<(), ()>)
        ensures
            r.input == input,
    {
        PassRunner { cur: (), input, arg: () }
    }

    /// Supplies the auxiliary argument later stages may ask for.
    pub fn set_arg<N>(self, arg: N) -> (r: PassRunner<P, N>)
        ensures
            r.input == self.input,
            r.cur == self.cur,
            r.arg == arg,
    {
        PassRunner { cur: self.cur, input: self.input, arg }
    }

    /// Runs a transforming stage on the current result; the source text is
    /// threaded through unchanged.  What the stage's result means is each
    /// stage's own contract (the stage types below carry theirs); the
    /// stage may rework the auxiliary argument.
    pub fn run<N: CodePass<Prev = P>>(self) -> (r: Result<PassRunner<N, A>, Error>) where A: Is<N::Arg>
        ensures
            r matches Ok(p) ==> p.input == self.input,
    {
        let PassRunner { cur, input, arg } = self;
        let mut arg2 = arg;
        match N::pass(cur, &input, arg2.is_mut()) {
            Ok(next) => Ok(PassRunner { cur: next, input, arg: arg2 }),
            Err(e) => Err(e),
        }
    }

    /// Runs a checking stage; the source text and the auxiliary argument
    /// come through unchanged, and the stage hands the current result back.
    pub fn inject<N: CheckPass<Prev = P>>(self) -> (r: Result<PassRunner<P, A>, Error>) where A: Is<N::Arg>
        ensures
            r matches Ok(p) ==> p.input == self.input && p.arg == self.arg,
    {
        let PassRunner { cur, input, arg } = self;
        match N::check(cur, &input, arg.is()) {
            Ok(prev) => Ok(PassRunner { cur: prev, input, arg }),
            Err(e) => Err(e),
        }
    }
}

/// The parsing stage: raw text in, top-level syntax tree nodes out.
pub struct ParsePass {
    pub nodes: Vec<Node>,
}

impl CodePass for ParsePass {
    type Prev = ();

    type Arg = ();

    fn pass(prev: Self::Prev, input: &Vec<char>, arg: &mut Self::Arg) -> (r: Result<Self, Error>)
        ensures
            r matches Ok(p) ==> spec_front(input@) == Ok::<Seq<NodeV>, Error>(nodes_view(p.nodes@)),
            r matches Err(e) ==> spec_front(input@) == Err::<Seq<NodeV>, Error>(e),
    {
        match front(input) {
            Ok(nodes) => Ok(ParsePass { nodes }),
            Err(e) => Err(e),
        }
    }
}

/// The signature-collection stage: syntax tree in, signature table out.
pub struct MakeSignaturesPass {
    pub functions: SigTable,
}

impl CodePass for MakeSignaturesPass {
    type Prev = ParsePass;

    type Arg = ();

    fn pass(prev: Self::Prev, input: &Vec<char>, arg: &mut Self::Arg) -> (r: Result<Self, Error>)
        ensures
            r matches Ok(p) ==> spec_collect(input@, nodes_view(prev.nodes@), false, seq![])
                == Ok::<Seq<SigEntryV>, Error>(p.functions@),
            r matches Err(e) ==> spec_collect(input@, nodes_view(prev.nodes@), false, seq![])
                == Err::<Seq<SigEntryV>, Error>(e),
    {
        let types = Types::new();
        match collect_signatures(input, &types, &prev.nodes) {
            Ok(functions) => Ok(MakeSignaturesPass { functions }),
            Err(e) => Err(e),
        }
    }
}

/// The type-checking stage: validates the collected signatures' bodies and
/// returns the table unchanged.
pub struct TypeCheck;

impl CheckPass for TypeCheck {
    type Prev = MakeSignaturesPass;

    type Arg = ();

    fn check(prev: Self::Prev, input: &Vec<char>, arg: &Self::Arg) -> (r: Result<Self::Prev, Error>)
        ensures
            r matches Ok(p) ==> spec_check_all(input@, prev.functions@, 0) == Ok::<(), Error>(())
                && p.functions@ == prev.functions@,
            r matches Err(e) ==> spec_check_all(input@, prev.functions@, 0) == Err::<(), Error>(e),
    {
        match type_check(input, &prev.functions) {
            Ok(u) => Ok(prev),
            Err(e) => Err(e),
        }
    }
}

/// The lowering stage: fills the module builder supplied through `set_arg`.
pub struct CodegenPass;

impl CodePass for CodegenPass {
    type Prev = MakeSignaturesPass;

    type Arg = IrModule;

    fn pass(prev: Self::Prev, input: &Vec<char>, arg: &mut Self::Arg) -> (r: Result<Self, Error>)
        ensures
            r matches Ok(p) ==> spec_lower(input@, prev.functions@, old(arg)@)
                == Ok::<IrModuleV, Error>(final(arg)@),
            r matches Err(e) ==> spec_lower(input@, prev.functions@, old(arg)@)
                == Err::<IrModuleV, Error>(e),
    {
        let types = Types::new();
        match lower_program(input, &types, &prev.functions, arg) {
            Ok(u) => Ok(CodegenPass),
            Err(e) => Err(e),
        }
    }
}

} // verus!
