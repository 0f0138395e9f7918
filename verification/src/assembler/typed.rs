use vstd::prelude::*;

verus! {

/// A parse result labelled with the kind of token it came from.
#[derive(Eq, PartialEq, Debug)]
pub struct Typed<T> {
    pub assembly_type: Type,
    pub value: T,
}

impl<T> Typed<T> {
    pub fn new(assembly_type: Type, value: T) -> (r: Typed<T>)
        ensures
            r.assembly_type == assembly_type,
            r.value == value,
    {
        Typed { assembly_type, value }
    }
}

/// Attaches a token kind to whatever a parser produces.
pub trait IntoTyped<T> {
    type X;

    fn into_typed(self, assembly_type: Type) -> Self::X;
}

/// The kinds of token a typed result can be labelled with.
#[derive(Debug, Eq, PartialEq, Structural, Copy, Clone)]
pub enum Type {
    Instruction,
    Ignored,
    HexLiteral,
    Variable,
    Register,
}

} // verus!
