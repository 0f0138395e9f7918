use vstd::prelude::*;

use crate::parser_combinator::string::str_eq;

verus! {

/// A register is named by its byte offset within the register file.
pub type Register = usize;

pub const IP: usize = 0;

pub const ACC: usize = 2;

pub const R1: usize = 4;

pub const R2: usize = 6;

pub const R3: usize = 8;

pub const R4: usize = 10;

pub const R5: usize = 12;

pub const R6: usize = 14;

pub const R7: usize = 16;

pub const R8: usize = 18;

pub const SP: usize = 20;

pub const FP: usize = 22;

pub const MB: usize = 24;

pub const IM: usize = 26;

/// Total bytes of register storage: fourteen 16-bit registers.
pub const SIZE: u16 = 28;

/// The byte offset a register name denotes, or -1 for an unknown name.
pub open spec fn spec_register_index(name: Seq<char>) -> int {
    if name == "IP"@ {
        0
    } else if name == "ACC"@ {
        2
    } else if name == "R1"@ {
        4
    } else if name == "R2"@ {
        6
    } else if name == "R3"@ {
        8
    } else if name == "R4"@ {
        10
    } else if name == "R5"@ {
        12
    } else if name == "R6"@ {
        14
    } else if name == "R7"@ {
        16
    } else if name == "R8"@ {
        18
    } else if name == "SP"@ {
        20
    } else if name == "FP"@ {
        22
    } else if name == "MB"@ {
        24
    } else if name == "IM"@ {
        26
    } else {
        -1
    }
}

pub open spec fn is_register_name(name: Seq<char>) -> bool {
    spec_register_index(name) >= 0
}

/// Looks a register name up, if it is one.
pub fn lookup_register(s: &str) -> (r: Option<usize>)
    ensures
        match r {
            Some(i) => is_register_name(s@) && i == spec_register_index(s@),
            None => !is_register_name(s@),
        },
{
    if str_eq(s, "IP") {
        Some(0)
    } else if str_eq(s, "ACC") {
        Some(2)
    } else if str_eq(s, "R1") {
        Some(4)
    } else if str_eq(s, "R2") {
        Some(6)
    } else if str_eq(s, "R3") {
        Some(8)
    } else if str_eq(s, "R4") {
        Some(10)
    } else if str_eq(s, "R5") {
        Some(12)
    } else if str_eq(s, "R6") {
        Some(14)
    } else if str_eq(s, "R7") {
        Some(16)
    } else if str_eq(s, "R8") {
        Some(18)
    } else if str_eq(s, "SP") {
        Some(20)
    } else if str_eq(s, "FP") {
        Some(22)
    } else if str_eq(s, "MB") {
        Some(24)
    } else if str_eq(s, "IM") {
        Some(26)
    } else {
        None
    }
}

/// The byte offset of a known register name.
pub fn get_from_string(s: &str) -> (r: usize)
    requires
        is_register_name(s@),
    ensures
        r == spec_register_index(s@),
{
    match lookup_register(s) {
        Some(i) => i,
        None => {
            proof {
                assert(false);
            }
            0
        }
    }
}

} // verus!
