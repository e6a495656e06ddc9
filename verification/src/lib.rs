use vstd::prelude::*;

pub mod error;
pub mod type_;
pub mod linkage;
pub mod token;
pub mod node;
pub mod parse;
pub mod sig;
pub mod check;
pub mod ir;
pub mod lower;
pub mod passes;
pub mod laws;

verus! {

/// The scope markers that the signature pass pushes while it walks nested
/// declaration scopes; only the marker for external-declaration blocks
/// exists today.
#[derive(Clone, Copy, PartialEq, Eq, Structural, Debug)]
pub enum ScopeType {
    Extern,
}

/// A plain last-in-first-out stack.  Pushes and pops must balance exactly
/// around the subtree a pass walks; the passes maintain that discipline.
pub struct Stack<T>(pub Vec<T>);

impl<T> Stack<T> {
    pub fn push(&mut self, t: T)
        ensures
            final(self).0@ == old(self).0@.push(t),
    {
        self.0.push(t);
    }

    pub fn pop(&mut self) -> (r: Option<T>)
        ensures
            old(self).0@.len() == 0 ==> r is None && final(self).0@ == old(self).0@,
            old(self).0@.len() > 0 ==> r == Some(old(self).0@.last())
                && final(self).0@ == old(self).0@.drop_last(),
    {
        self.0.pop()
    }

    pub fn new() -> (r: Self)
        ensures
            r.0@.len() == 0,
    {
        Stack(Vec::new())
    }

    /// A read-only look at the stack's contents, bottom first.
    pub fn iter(&self) -> (r: &Vec<T>)
        ensures
            r@ == self.0@,
    {
        &self.0
    }
}

/// Whether the scope stack currently holds an external-block marker; this is
/// what decides computed linkage for declarations found below such a block.
pub fn scope_has_extern_marker(s: &Stack<ScopeType>) -> (r: bool)
    ensures
        r == s.0@.contains(ScopeType::Extern),
{
    let v = s.iter();
    let mut i: usize = 0;
    while i < v.len()
        invariant
            i <= v@.len(),
            v@ == s.0@,
            forall|j: int| 0 <= j < i ==> v@[j] != ScopeType::Extern,
        decreases v@.len() - i,
    {
        if v[i] == ScopeType::Extern {
            return true;
        }
        i = i + 1;
    }
    false
}

} // verus!
