use vstd::prelude::*;

use crate::assembler::typed::Typed;

verus! {

/// A two-argument instruction in its typed, not yet encoded form.
#[derive(Eq, PartialEq, Debug)]
pub struct Instruction2 {
    pub instruction: Instruction,
    pub args: (Typed<String>, Typed<String>),
}

/// The statements the typed representation distinguishes.
#[derive(Eq, PartialEq, Structural, Debug)]
pub enum Instruction {
    MoveLitReg,
}

} // verus!
