use vstd::prelude::*;

use crate::device::{hi8, lo8, word16, Device};

verus! {

/// Flat byte memory; the view is the byte array itself.
pub struct Memory {
    bytes: Vec<u8>,
}

impl View for Memory {
    type V = Seq<u8>;

    closed spec fn view(&self) -> Seq<u8> {
        self.bytes@
    }
}

impl Memory {
    pub fn new(size: u16) -> (r: Memory)
        ensures
            r@ == Seq::new(size as nat, |i: int| 0u8),
    {
        let r = Memory { bytes: vec![0u8; size as usize] };
        proof {
            assert(r@ =~= Seq::new(size as nat, |i: int| 0u8));
        }
        r
    }
}

impl Device for Memory {
    open spec fn dlen(&self) -> nat {
        self@.len()
    }

    open spec fn byte_at(&self, addr: int) -> u8 {
        if 0 <= addr < self@.len() {
            self@[addr]
        } else {
            0
        }
    }

    open spec fn can_r8(&self, addr: int) -> bool {
        0 <= addr < self@.len()
    }

    open spec fn can_r16(&self, addr: int) -> bool {
        0 <= addr && addr + 1 < self@.len()
    }

    open spec fn can_w8(&self, addr: int) -> bool {
        0 <= addr < self@.len()
    }

    open spec fn can_w16(&self, addr: int) -> bool {
        0 <= addr && addr + 1 < self@.len()
    }

    open spec fn stores(&self, addr: int) -> bool {
        true
    }

    open spec fn sink_log(&self) -> Seq<(usize, u16)> {
        Seq::empty()
    }

    open spec fn sink_recorded(pre: Memory, post: Memory, addr: int, value: u16) -> bool {
        true
    }

    open spec fn mb_switched(pre: Memory, post: Memory, value: u16) -> bool {
        post@ == pre@
    }

    fn get_u8(&self, address: usize) -> (r: u8) {
        self.bytes[address]
    }

    fn get_u16(&self, address: usize) -> (r: u16) {
        let n = self.bytes.len();
        let hi = self.bytes[address];
        let lo = self.bytes[address + 1];
        (hi as u16) * 256 + (lo as u16)
    }

    fn set_u8(&mut self, address: usize, value: u8) {
        self.bytes.set(address, value);
    }

    fn set_u16(&mut self, address: usize, value: u16) {
        let n = self.bytes.len();
        self.bytes.set(address, (value / 256) as u8);
        self.bytes.set(address + 1, (value % 256) as u8);
    }

    fn len(&self) -> (r: usize) {
        self.bytes.len()
    }

    fn set_mb(&mut self, value: u16) {
    }

    fn ok_r8(&self, address: usize) -> (b: bool) {
        address < self.bytes.len()
    }

    fn ok_r16(&self, address: usize) -> (b: bool) {
        let n = self.bytes.len();
        n > 0 && address < n - 1
    }

    fn ok_w8(&self, address: usize) -> (b: bool) {
        address < self.bytes.len()
    }

    fn ok_w16(&self, address: usize) -> (b: bool) {
        let n = self.bytes.len();
        n > 0 && address < n - 1
    }

    fn is_store(&self, address: usize) -> (b: bool) {
        true
    }
}

} // verus!
