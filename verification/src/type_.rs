use vstd::prelude::*;
use crate::error::{Error, Span};

verus! {

/// The language's closed set of types: the concrete types `int`, `bool`,
/// `void` and `uint`, and the inferable numeric placeholder `Number` used
/// before literal-context coercion.
#[derive(Clone, Copy, PartialEq, Eq, Structural, Debug)]
pub enum Type {
    Int,
    Bool,
    Void,
    Uint,
    Number,
}

pub open spec fn spec_coerce(from: Type, to: Type) -> Option<Type> {
    match from {
        Type::Int | Type::Bool | Type::Void | Type::Uint => {
            if from == to {
                Some(to)
            } else {
                None
            }
        },
        Type::Number => match to {
            Type::Int | Type::Uint | Type::Number => Some(to),
            Type::Bool | Type::Void => None,
        },
    }
}

impl Type {
    /// Coercion is a narrowing check: a concrete type coerces only to itself,
    /// while the inferable numeric type may adopt any concrete numeric type
    /// (or stay inferable) but never becomes `bool` or `void`.
    pub fn coerce(self, to: Type, at: Span) -> (r: Result<Type, Error>)
        ensures
            r matches Ok(t) ==> spec_coerce(self, to) == Some(t),
            r matches Err(e) ==> spec_coerce(self, to) is None && e == Error::TypeMismatch(to, self, at),
    {
        match self {
            Type::Int | Type::Bool | Type::Void | Type::Uint => {
                if self == to {
                    Ok(to)
                } else {
                    Err(Error::TypeMismatch(to, self, at))
                }
            },
            Type::Number => match to {
                Type::Int | Type::Uint | Type::Number => Ok(to),
                Type::Bool | Type::Void => Err(Error::TypeMismatch(to, self, at)),
            },
        }
    }
}

/// Compares the range `at` of `input` with the whole of `key`.
pub fn char_range_eq(input: &Vec<char>, at: Span, key: &Vec<char>) -> (r: bool)
    requires
        at.wf(input@.len() as nat),
    ensures
        r == (input@.subrange(at.start as int, at.end as int) == key@),
{
    let ghost name = input@.subrange(at.start as int, at.end as int);
    let n = at.end - at.start;
    if n != key.len() {
        proof {
            assert(name.len() != key@.len());
        }
        return false;
    }
    let mut i: usize = 0;
    while i < n
        invariant
            at.wf(input@.len() as nat),
            n == at.end - at.start,
            n == key@.len(),
            i <= n,
            name == input@.subrange(at.start as int, at.end as int),
            forall|j: int| 0 <= j < i ==> name[j] == key@[j],
        decreases n - i,
    {
        if input[at.start + i] != key[i] {
            proof {
                assert(name[i as int] != key@[i as int]);
            }
            return false;
        }
        i = i + 1;
    }
    proof {
        assert(name =~= key@);
    }
    true
}

pub open spec fn spec_type_name(s: Seq<char>) -> Option<Type> {
    if s == seq!['i', 'n', 't'] {
        Some(Type::Int)
    } else if s == seq!['b', 'o', 'o', 'l'] {
        Some(Type::Bool)
    } else if s == seq!['v', 'o', 'i', 'd'] {
        Some(Type::Void)
    } else if s == seq!['u', 'i', 'n', 't'] {
        Some(Type::Uint)
    } else {
        None
    }
}

pub open spec fn spec_types_entries() -> Seq<(Seq<char>, Type)> {
    seq![
        (seq!['i', 'n', 't'], Type::Int),
        (seq!['b', 'o', 'o', 'l'], Type::Bool),
        (seq!['v', 'o', 'i', 'd'], Type::Void),
        (seq!['u', 'i', 'n', 't'], Type::Uint),
    ]
}

/// The table of built-in type names: an explicit value constructed once at
/// pipeline start and passed by reference wherever type names are resolved,
/// instead of hidden process-wide state.
pub struct Types {
    pub entries: Vec<(Vec<char>, Type)>,
}

impl Types {
    pub open spec fn wf(&self) -> bool {
        self.entries@.map_values(|e: (Vec<char>, Type)| (e.0@, e.1)) == spec_types_entries()
    }

    pub fn new() -> (r: Types)
        ensures
            r.wf(),
    {
        let mut entries: Vec<(Vec<char>, Type)> = Vec::new();
        let mut k: Vec<char> = Vec::new();
        k.push('i'); k.push('n'); k.push('t');
        proof { assert(k@ =~= seq!['i', 'n', 't']); }
        entries.push((k, Type::Int));
        let mut k: Vec<char> = Vec::new();
        k.push('b'); k.push('o'); k.push('o'); k.push('l');
        proof { assert(k@ =~= seq!['b', 'o', 'o', 'l']); }
        entries.push((k, Type::Bool));
        let mut k: Vec<char> = Vec::new();
        k.push('v'); k.push('o'); k.push('i'); k.push('d');
        proof { assert(k@ =~= seq!['v', 'o', 'i', 'd']); }
        entries.push((k, Type::Void));
        let mut k: Vec<char> = Vec::new();
        k.push('u'); k.push('i'); k.push('n'); k.push('t');
        proof { assert(k@ =~= seq!['u', 'i', 'n', 't']); }
        entries.push((k, Type::Uint));
        let r = Types { entries };
        proof {
            assert(r.entries@.map_values(|e: (Vec<char>, Type)| (e.0@, e.1)) =~= spec_types_entries());
        }
        r
    }

    /// Resolves a type name, read as the span `at` of `input`.
    pub fn get(&self, input: &Vec<char>, at: Span) -> (r: Option<Type>)
        requires
            self.wf(),
            at.wf(input@.len() as nat),
        ensures
            r == spec_type_name(input@.subrange(at.start as int, at.end as int)),
    {
        let ghost name = input@.subrange(at.start as int, at.end as int);
        let ghost m = self.entries@.map_values(|e: (Vec<char>, Type)| (e.0@, e.1));
        proof {
            assert(m.len() == 4);
            assert(self.entries@.len() == 4);
            assert(m[0] == (seq!['i', 'n', 't'], Type::Int));
            assert(m[1] == (seq!['b', 'o', 'o', 'l'], Type::Bool));
            assert(m[2] == (seq!['v', 'o', 'i', 'd'], Type::Void));
            assert(m[3] == (seq!['u', 'i', 'n', 't'], Type::Uint));
        }
        if char_range_eq(input, at, &self.entries[0].0) {
            Some(self.entries[0].1)
        } else if char_range_eq(input, at, &self.entries[1].0) {
            Some(self.entries[1].1)
        } else if char_range_eq(input, at, &self.entries[2].0) {
            Some(self.entries[2].1)
        } else if char_range_eq(input, at, &self.entries[3].0) {
            Some(self.entries[3].1)
        } else {
            None
        }
    }
}

} // verus!
