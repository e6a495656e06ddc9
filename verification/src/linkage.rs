use vstd::prelude::*;

verus! {

/// Visibility and emission classification of a function: private to the
/// module, public (externally callable and locally emitted), or defined
/// elsewhere and only callable.
#[derive(Clone, Copy, PartialEq, Eq, Structural, Debug)]
pub enum Linkage {
    Private,
    Public,
    External,
}

} // verus!
