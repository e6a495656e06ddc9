use vstd::prelude::*;
use crate::error::{Error, Span};
use crate::linkage::Linkage;
use crate::node::{Node, NodeV, NodeValue, nodes_view, lemma_nodes_view_index, clone_nodes_from};
use crate::type_::{Type, Types, spec_type_name, char_range_eq};
use crate::{ScopeType, Stack, scope_has_extern_marker};

verus! {

// ---------------------------------------------------------------------------
// Reading source text through spans
// ---------------------------------------------------------------------------

pub open spec fn span_ok(input: Seq<char>, sp: Span) -> bool {
    sp.start <= sp.end && sp.end <= input.len()
}

/// The text a span points at; a span that does not fit the input reads as
/// empty.
pub open spec fn span_text(input: Seq<char>, sp: Span) -> Seq<char> {
    if span_ok(input, sp) {
        input.subrange(sp.start as int, sp.end as int)
    } else {
        seq![]
    }
}

pub open spec fn main_name() -> Seq<char> {
    seq!['m', 'a', 'i', 'n']
}

/// Whether two spans read as the same text.
pub fn span_text_eq(input: &Vec<char>, a: Span, b: Span) -> (r: bool)
    ensures
        r == (span_text(input@, a) == span_text(input@, b)),
{
    let av = a.start <= a.end && a.end <= input.len();
    let bv = b.start <= b.end && b.end <= input.len();
    let na = if av { a } else { Span { start: 0, end: 0 } };
    let nb = if bv { b } else { Span { start: 0, end: 0 } };
    proof {
        assert(input@.subrange(0, 0) =~= Seq::<char>::empty());
        assert(span_text(input@, a) =~= input@.subrange(na.start as int, na.end as int));
        assert(span_text(input@, b) =~= input@.subrange(nb.start as int, nb.end as int));
    }
    let la = na.end - na.start;
    let lb = nb.end - nb.start;
    if la != lb {
        proof {
            assert(span_text(input@, a).len() != span_text(input@, b).len());
        }
        return false;
    }
    let mut i: usize = 0;
    while i < la
        invariant
            la == na.end - na.start,
            la == nb.end - nb.start,
            na.start <= na.end <= input@.len(),
            nb.start <= nb.end <= input@.len(),
            i <= la,
            span_text(input@, a) == input@.subrange(na.start as int, na.end as int),
            span_text(input@, b) == input@.subrange(nb.start as int, nb.end as int),
            forall|j: int| 0 <= j < i ==> #[trigger] input@[na.start + j] == input@[nb.start + j],
        decreases la - i,
    {
        if input[na.start + i] != input[nb.start + i] {
            proof {
                assert(span_text(input@, a)[i as int] != span_text(input@, b)[i as int]);
            }
            return false;
        }
        i = i + 1;
    }
    proof {
        assert forall|j: int| 0 <= j < la implies span_text(input@, a)[j]
            == span_text(input@, b)[j] by {
            assert(input@[na.start + j] == input@[nb.start + j]);
        }
        assert(span_text(input@, a) =~= span_text(input@, b));
    }
    true
}

/// Whether the span reads as `main`, the name that makes a definition
/// externally visible.
pub fn span_is_main(input: &Vec<char>, sp: Span) -> (r: bool)
    ensures
        r == (span_text(input@, sp) == main_name()),
{
    let mut key: Vec<char> = Vec::new();
    key.push('m'); key.push('a'); key.push('i'); key.push('n');
    proof {
        assert(key@ =~= main_name());
    }
    if sp.start <= sp.end && sp.end <= input.len() {
        char_range_eq(input, sp, &key)
    } else {
        proof {
            assert(span_text(input@, sp).len() == 0);
        }
        false
    }
}

/// Resolves the type name a span points at.
pub fn type_of_span(types: &Types, input: &Vec<char>, sp: Span) -> (r: Option<Type>)
    requires
        types.wf(),
    ensures
        r == spec_type_name(span_text(input@, sp)),
{
    if sp.start <= sp.end && sp.end <= input.len() {
        types.get(input, sp)
    } else {
        proof {
            assert(span_text(input@, sp).len() == 0);
            assert(seq!['i', 'n', 't'].len() == 3);
            assert(seq!['b', 'o', 'o', 'l'].len() == 4);
            assert(seq!['v', 'o', 'i', 'd'].len() == 4);
            assert(seq!['u', 'i', 'n', 't'].len() == 4);
        }
        None
    }
}

// ---------------------------------------------------------------------------
// The signature table
// ---------------------------------------------------------------------------

/// A declared parameter: the span of its name and its resolved type.
#[derive(Clone, Copy, PartialEq, Eq, Structural, Debug)]
pub struct Param {
    pub name: Span,
    pub ty: Type,
}

/// A collected signature: linkage, parameters, return type, and the
/// function's not-yet-lowered body nodes.
pub struct FnSig {
    pub linkage: Linkage,
    pub params: Vec<Param>,
    pub ret: Type,
    pub body: Vec<Node>,
}

pub ghost struct FnSigV {
    pub linkage: Linkage,
    pub params: Seq<Param>,
    pub ret: Type,
    pub body: Seq<NodeV>,
}

impl View for FnSig {
    type V = FnSigV;

    open spec fn view(&self) -> FnSigV {
        FnSigV {
            linkage: self.linkage,
            params: self.params@,
            ret: self.ret,
            body: nodes_view(self.body@),
        }
    }
}

/// One table entry: the span of the function's name, and its signature.
pub struct SigEntry {
    pub name: Span,
    pub sig: FnSig,
}

pub ghost struct SigEntryV {
    pub name: Span,
    pub sig: FnSigV,
}

impl View for SigEntry {
    type V = SigEntryV;

    open spec fn view(&self) -> SigEntryV {
        SigEntryV { name: self.name, sig: self.sig@ }
    }
}

/// The name-to-signature table.  Keys are unique; a later definition of the
/// same name overwrites the earlier signature in place.
pub struct SigTable {
    pub entries: Vec<SigEntry>,
}

impl View for SigTable {
    type V = Seq<SigEntryV>;

    open spec fn view(&self) -> Seq<SigEntryV> {
        Seq::new(self.entries@.len(), |i: int| self.entries@[i]@)
    }
}

/// The index of the entry whose name reads as `name`, if any.
pub open spec fn spec_find(entries: Seq<SigEntryV>, input: Seq<char>, name: Seq<char>) -> Option<int>
    decreases entries.len(),
{
    if entries.len() == 0 {
        None
    } else if span_text(input, entries[0].name) == name {
        Some(0)
    } else {
        match spec_find(entries.drop_first(), input, name) {
            Some(k) => Some(k + 1),
            None => None,
        }
    }
}

pub proof fn lemma_spec_find(entries: Seq<SigEntryV>, input: Seq<char>, name: Seq<char>)
    ensures
        spec_find(entries, input, name) matches Some(k) ==> 0 <= k < entries.len()
            && span_text(input, entries[k].name) == name
            && forall|j: int| 0 <= j < k ==> span_text(input, #[trigger] entries[j].name) != name,
        spec_find(entries, input, name) is None ==> forall|j: int| 0 <= j < entries.len()
            ==> span_text(input, #[trigger] entries[j].name) != name,
    decreases entries.len(),
{
    if entries.len() > 0 && span_text(input, entries[0].name) != name {
        lemma_spec_find(entries.drop_first(), input, name);
        assert forall|j: int| 1 <= j < entries.len() implies entries.drop_first()[j - 1]
            == entries[j] by {}
    }
}

/// The signature bound to `name`, if any.
pub open spec fn spec_lookup(entries: Seq<SigEntryV>, input: Seq<char>, name: Seq<char>) -> Option<FnSigV> {
    match spec_find(entries, input, name) {
        Some(k) => Some(entries[k].sig),
        None => None,
    }
}

/// Binding a name: an existing entry keeps its place (and its original name
/// span) and gets the new signature; a fresh name goes to the end.
pub open spec fn spec_insert(entries: Seq<SigEntryV>, input: Seq<char>, name: Span, sig: FnSigV) -> Seq<SigEntryV> {
    match spec_find(entries, input, span_text(input, name)) {
        Some(k) => entries.update(k, SigEntryV { name: entries[k].name, sig }),
        None => entries.push(SigEntryV { name, sig }),
    }
}

impl SigTable {
    pub fn new() -> (r: SigTable)
        ensures
            r@.len() == 0,
    {
        SigTable { entries: Vec::new() }
    }

    /// The index of the entry whose name reads as the span `name` does.
    pub fn find(&self, input: &Vec<char>, name: Span) -> (r: Option<usize>)
        ensures
            r matches Some(k) ==> spec_find(self@, input@, span_text(input@, name))
                == Some(k as int) && k < self@.len(),
            r is None ==> spec_find(self@, input@, span_text(input@, name)) is None,
    {
        proof {
            lemma_spec_find(self@, input@, span_text(input@, name));
        }
        let ghost name_text = span_text(input@, name);
        let mut i: usize = 0;
        while i < self.entries.len()
            invariant
                i <= self@.len(),
                self@.len() == self.entries@.len(),
                name_text == span_text(input@, name),
                forall|j: int| 0 <= j < i ==> span_text(input@, #[trigger] self@[j].name)
                    != name_text,
            decreases self@.len() - i,
        {
            proof {
                assert(self@[i as int].name == self.entries@[i as int].name);
            }
            if span_text_eq(input, self.entries[i].name, name) {
                proof {
                    lemma_spec_find(self@, input@, name_text);
                    match spec_find(self@, input@, name_text) {
                        None => {
                            assert(span_text(input@, self@[i as int].name) != name_text);
                        },
                        Some(k) => {
                            if k < i {
                                assert(span_text(input@, self@[k].name) != name_text);
                            }
                            if k > i {
                                assert(span_text(input@, self@[i as int].name) != name_text);
                            }
                        },
                    }
                }
                return Some(i);
            }
            i = i + 1;
        }
        None
    }

    /// Binds `name` to `sig`, overwriting any existing binding of that name.
    pub fn insert(&mut self, input: &Vec<char>, name: Span, sig: FnSig)
        ensures
            final(self)@ == spec_insert(old(self)@, input@, name, sig@),
    {
        let found = self.find(input, name);
        match found {
            Some(k) => {
                let old_name = self.entries[k].name;
                self.entries.set(k, SigEntry { name: old_name, sig });
                proof {
                    assert(final(self)@ =~= spec_insert(old(self)@, input@, name, sig@));
                }
            },
            None => {
                self.entries.push(SigEntry { name, sig });
                proof {
                    assert(final(self)@ =~= spec_insert(old(self)@, input@, name, sig@));
                }
            },
        }
    }
}

// ---------------------------------------------------------------------------
// The signature pass
// ---------------------------------------------------------------------------

/// The parameters declared by an argument-set node: its children alternate
/// name and type name.  A type name that resolves to nothing fails with an
/// unknown-type error at its span; a dangling name with no type signals a
/// malformed tree.
pub open spec fn spec_params(input: Seq<char>, cs: Seq<NodeV>) -> Result<Seq<Param>, Error>
    decreases cs.len(),
{
    if cs.len() == 0 {
        Ok(seq![])
    } else if cs.len() == 1 {
        Err(Error::InternalCompilerError)
    } else {
        match spec_type_name(span_text(input, cs[1].span)) {
            None => Err(Error::UnknownType(cs[1].span)),
            Some(t) => match spec_params(input, cs.skip(2)) {
                Ok(rest) => Ok(seq![Param { name: cs[0].span, ty: t }] + rest),
                Err(e) => Err(e),
            },
        }
    }
}

/// The signature of one definition or declaration node, with its computed
/// linkage: `main` and anything below an external block is public; a
/// bodiless declaration below an external block is defined elsewhere;
/// everything else is private.
pub open spec fn spec_sig_of(input: Seq<char>, n: NodeV, in_ext: bool) -> Result<(Span, FnSigV), Error> {
    if n.children.len() < 3 {
        Err(Error::InternalCompilerError)
    } else {
        let name = n.children[0].span;
        let linkage = if n.node == NodeValue::FnDef {
            if in_ext || span_text(input, name) == main_name() {
                Linkage::Public
            } else {
                Linkage::Private
            }
        } else {
            if in_ext {
                Linkage::External
            } else {
                Linkage::Private
            }
        };
        match spec_params(input, n.children[1].children) {
            Err(e) => Err(e),
            Ok(ps) => match spec_type_name(span_text(input, n.children[2].span)) {
                None => Err(Error::UnknownReturnType(n.children[2].span)),
                Some(rt) => Ok((name, FnSigV {
                    linkage,
                    params: ps,
                    ret: rt,
                    body: n.children.skip(3),
                })),
            },
        }
    }
}

/// Walks a top-level node list and collects every signature into `acc`.
/// External blocks recurse with the scope flag raised; anything that is not
/// a definition, declaration or external block signals a malformed tree.
pub open spec fn spec_collect(input: Seq<char>, nodes: Seq<NodeV>, in_ext: bool, acc: Seq<SigEntryV>) -> Result<Seq<SigEntryV>, Error>
    decreases nodes,
{
    if nodes.len() == 0 {
        Ok(acc)
    } else {
        let n = nodes[0];
        let step: Result<Seq<SigEntryV>, Error> = if n.node == NodeValue::FnDef
            || n.node == NodeValue::FnDecl {
            match spec_sig_of(input, n, in_ext) {
                Ok((name, sig)) => Ok(spec_insert(acc, input, name, sig)),
                Err(e) => Err(e),
            }
        } else if n.node == NodeValue::Extern {
            spec_collect(input, n.children, true, acc)
        } else {
            Err(Error::InternalCompilerError)
        };
        match step {
            Ok(acc2) => spec_collect(input, nodes.drop_first(), in_ext, acc2),
            Err(e) => Err(e),
        }
    }
}

/// Resolves one definition or declaration node into a table entry.
fn sig_of(input: &Vec<char>, types: &Types, n: &Node, in_ext: bool) -> (r: Result<(Span, FnSig), Error>)
    requires
        types.wf(),
    ensures
        r matches Ok(e) ==> spec_sig_of(input@, n@, in_ext) == Ok::<_, Error>((e.0, e.1@)),
        r matches Err(e) ==> spec_sig_of(input@, n@, in_ext) == Err::<(Span, FnSigV), _>(e),
{
    proof {
        lemma_nodes_view_index(n.children@);
    }
    if n.children.len() < 3 {
        return Err(Error::InternalCompilerError);
    }
    let name = n.children[0].span;
    let linkage = if n.node == NodeValue::FnDef {
        if in_ext || span_is_main(input, name) {
            Linkage::Public
        } else {
            Linkage::Private
        }
    } else {
        if in_ext {
            Linkage::External
        } else {
            Linkage::Private
        }
    };
    proof {
        assert(n@.children[1] == node_view_of(n.children@[1 as int]));
        assert(n@.children[1].children == nodes_view(n.children@[1 as int].children@));
        assert(nodes_view(n.children@[1 as int].children@).skip(0)
            =~= nodes_view(n.children@[1 as int].children@));
    }
    let ps = match params_of(input, types, &n.children[1].children, 0) {
        Ok(ps) => ps,
        Err(e) => {
            return Err(e);
        },
    };
    let rt = match type_of_span(types, input, n.children[2].span) {
        Some(rt) => rt,
        None => {
            return Err(Error::UnknownReturnType(n.children[2].span));
        },
    };
    let body = clone_nodes_from(&n.children, 3);
    let sig = FnSig { linkage, params: ps, ret: rt, body };
    proof {
        assert(sig@.body == nodes_view(n.children@).skip(3));
    }
    Ok((name, sig))
}

/// A name for a node's view, so proofs can speak of one child's view.
pub open spec fn node_view_of(n: Node) -> NodeV {
    n@
}

/// Resolves the parameter list of an argument-set node, reading its children
/// from index `k` on, two at a time.
pub(crate) fn params_of(input: &Vec<char>, types: &Types, cs: &Vec<Node>, k: usize) -> (r: Result<Vec<Param>, Error>)
    requires
        types.wf(),
        k <= cs@.len(),
    ensures
        r matches Ok(ps) ==> spec_params(input@, nodes_view(cs@).skip(k as int))
            == Ok::<_, Error>(ps@),
        r matches Err(e) ==> spec_params(input@, nodes_view(cs@).skip(k as int))
            == Err::<Seq<Param>, _>(e),
    decreases cs@.len() - k,
{
    proof {
        lemma_nodes_view_index(cs@);
    }
    let ghost tail = nodes_view(cs@).skip(k as int);
    if k == cs.len() {
        proof {
            assert(tail =~= Seq::<NodeV>::empty());
        }
        Ok(Vec::new())
    } else if k + 1 == cs.len() {
        proof {
            assert(tail.len() == 1);
        }
        Err(Error::InternalCompilerError)
    } else {
        proof {
            assert(tail.len() >= 2);
            assert(tail[0] == node_view_of(cs@[k as int]));
            assert(tail[1] == node_view_of(cs@[k + 1]));
            assert(tail.skip(2) =~= nodes_view(cs@).skip(k + 2));
        }
        match type_of_span(types, input, cs[k + 1].span) {
            None => Err(Error::UnknownType(cs[k + 1].span)),
            Some(t) => {
                match params_of(input, types, cs, k + 2) {
                    Ok(rest) => {
                        let ghost restv = rest@;
                        let mut ps: Vec<Param> = Vec::new();
                        ps.push(Param { name: cs[k].span, ty: t });
                        let mut rest2 = rest;
                        ps.append(&mut rest2);
                        proof {
                            assert(tail.skip(2) =~= nodes_view(cs@).skip(k + 2));
                            assert(ps@ =~= seq![Param { name: tail[0].span, ty: t }] + restv);
                        }
                        Ok(ps)
                    },
                    Err(e) => Err(e),
                }
            },
        }
    }
}

/// Walks a top-level node list, resolving every definition's and
/// declaration's signature into `table`.  External blocks are entered with
/// the scope marker pushed and left with it popped.
fn collect_into(input: &Vec<char>, types: &Types, nodes: &Vec<Node>, scope: &mut Stack<ScopeType>, table: &mut SigTable) -> (r: Result<(), Error>)
    requires
        types.wf(),
    ensures
        r matches Ok(u) ==> spec_collect(input@, nodes_view(nodes@),
            old(scope).0@.contains(ScopeType::Extern), old(table)@)
            == Ok::<_, Error>(final(table)@) && final(scope).0@ == old(scope).0@,
        r matches Err(e) ==> spec_collect(input@, nodes_view(nodes@),
            old(scope).0@.contains(ScopeType::Extern), old(table)@)
            == Err::<Seq<SigEntryV>, Error>(e),
    decreases nodes@,
{
    proof {
        lemma_nodes_view_index(nodes@);
    }
    let ghost nv = nodes_view(nodes@);
    let ghost in_ext0 = scope.0@.contains(ScopeType::Extern);
    let ghost acc0 = table@;
    let mut i: usize = 0;
    proof {
        assert(nv.skip(0) =~= nv);
    }
    while i < nodes.len()
        invariant
            types.wf(),
            i <= nodes@.len(),
            nv == nodes_view(nodes@),
            nv.len() == nodes@.len(),
            forall|j: int| 0 <= j < nodes@.len() ==> nv[j] == node_view_of(nodes@[j]),
            scope.0@ == old(scope).0@,
            in_ext0 == old(scope).0@.contains(ScopeType::Extern),
            acc0 == old(table)@,
            spec_collect(input@, nv, in_ext0, acc0)
                == spec_collect(input@, nv.skip(i as int), in_ext0, table@),
        decreases nodes@.len() - i,
    {
        let ghost tail = nv.skip(i as int);
        proof {
            assert(tail[0] == nv[i as int]);
            assert(tail.drop_first() =~= nv.skip(i + 1));
        }
        let n = &nodes[i];
        if n.node == NodeValue::FnDef || n.node == NodeValue::FnDecl {
            let in_ext = scope_has_extern_marker(scope);
            match sig_of(input, types, n, in_ext) {
                Ok((name, sig)) => {
                    table.insert(input, name, sig);
                },
                Err(e) => {
                    return Err(e);
                },
            }
        } else if n.node == NodeValue::Extern {
            scope.push(ScopeType::Extern);
            proof {
                assert(scope.0@.last() == ScopeType::Extern);
                assert(scope.0@.contains(ScopeType::Extern));
                assert(nv[i as int].children == nodes_view(nodes@[i as int].children@));
            }
            let sub = collect_into(input, types, &n.children, scope, table);
            match sub {
                Ok(u) => {
                    let ghost pushed = scope.0@;
                    scope.pop();
                    proof {
                        assert(scope.0@ =~= old(scope).0@);
                    }
                },
                Err(e) => {
                    return Err(e);
                },
            }
        } else {
            return Err(Error::InternalCompilerError);
        }
        i = i + 1;
    }
    proof {
        assert(nv.skip(nodes@.len() as int) =~= Seq::<NodeV>::empty());
    }
    Ok(())
}

/// The signature-collection pass: walks the top-level nodes once, before any
/// body is checked or lowered, and records every function's linkage,
/// parameters, return type and pending body.
pub fn collect_signatures(input: &Vec<char>, types: &Types, nodes: &Vec<Node>) -> (r: Result<SigTable, Error>)
    requires
        types.wf(),
    ensures
        r matches Ok(t) ==> spec_collect(input@, nodes_view(nodes@), false, seq![])
            == Ok::<_, Error>(t@),
        r matches Err(e) ==> spec_collect(input@, nodes_view(nodes@), false, seq![])
            == Err::<Seq<SigEntryV>, Error>(e),
{
    let mut scope: Stack<ScopeType> = Stack::new();
    let mut table = SigTable::new();
    proof {
        assert(!scope.0@.contains(ScopeType::Extern));
        assert(table@ =~= Seq::<SigEntryV>::empty());
    }
    match collect_into(input, types, nodes, &mut scope, &mut table) {
        Ok(u) => Ok(table),
        Err(e) => Err(e),
    }
}

} // verus!

