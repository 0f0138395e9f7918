use vstd::prelude::*;

pub mod banked_memory;
pub mod memory;
pub mod memory_mapper;
pub mod screen;

verus! {

/// The high byte of a 16-bit word.
pub open spec fn hi8(value: u16) -> u8 {
    (value / 256) as u8
}

/// The low byte of a 16-bit word.
pub open spec fn lo8(value: u16) -> u8 {
    (value % 256) as u8
}

/// The 16-bit word formed by a big-endian byte pair.
pub open spec fn word16(hi: u8, lo: u8) -> u16 {
    (hi * 256 + lo) as u16
}

pub proof fn lemma_word16_split(value: u16)
    ensures
        word16(hi8(value), lo8(value)) == value,
{
}

/// A byte-addressed device: every address decodes to at most one byte cell,
/// reads return that cell, and writes either land in it (`stores`) or are
/// recorded, in order, on an output sink that keeps no bytes.
pub trait Device: Sized {
    /// The device's advertised length in bytes.
    spec fn dlen(&self) -> nat;

    /// The byte visible at an address (0 where the address holds no byte).
    spec fn byte_at(&self, addr: int) -> u8;

    /// The addresses from which a byte read returns without fault.
    spec fn can_r8(&self, addr: int) -> bool;

    /// The addresses from which a word read returns the big-endian pair at
    /// `addr`, `addr + 1`.
    spec fn can_r16(&self, addr: int) -> bool;

    /// The addresses a byte write may target.
    spec fn can_w8(&self, addr: int) -> bool;

    /// The addresses a word write may target.
    spec fn can_w16(&self, addr: int) -> bool;

    /// Whether a write at this address lands in an addressable byte cell,
    /// as opposed to being handed to an output sink.
    spec fn stores(&self, addr: int) -> bool;

    /// The words handed to this device's output sinks so far, in order.
    spec fn sink_log(&self) -> Seq<(usize, u16)>;

    /// What a word write to a sink address records: for a sink itself, the
    /// written word appended to its log; for an address decoder, the same
    /// at the region the address selects.
    spec fn sink_recorded(pre: Self, post: Self, addr: int, value: u16) -> bool;

    /// What a bank-select write does to this device.
    spec fn mb_switched(pre: Self, post: Self, value: u16) -> bool;

    fn get_u8(&self, address: usize) -> (r: u8)
        requires
            self.can_r8(address as int),
        ensures
            r == self.byte_at(address as int),
    ;

    fn get_u16(&self, address: usize) -> (r: u16)
        requires
            self.can_r16(address as int),
        ensures
            r == word16(self.byte_at(address as int), self.byte_at(address as int + 1)),
    ;

    fn set_u8(&mut self, address: usize, value: u8)
        requires
            old(self).can_w8(address as int),
        ensures
            final(self).dlen() == old(self).dlen(),
            forall|a: int| #[trigger] final(self).can_r8(a) == old(self).can_r8(a),
            forall|a: int| #[trigger] final(self).can_r16(a) == old(self).can_r16(a),
            forall|a: int| #[trigger] final(self).can_w8(a) == old(self).can_w8(a),
            forall|a: int| #[trigger] final(self).can_w16(a) == old(self).can_w16(a),
            forall|a: int| #[trigger] final(self).stores(a) == old(self).stores(a),
            final(self).sink_log() == old(self).sink_log(),
            forall|a: int|
                #[trigger] final(self).byte_at(a) == if a == address as int {
                    value
                } else {
                    old(self).byte_at(a)
                },
    ;

    fn set_u16(&mut self, address: usize, value: u16)
        requires
            old(self).can_w16(address as int),
        ensures
            final(self).dlen() == old(self).dlen(),
            forall|a: int| #[trigger] final(self).can_r8(a) == old(self).can_r8(a),
            forall|a: int| #[trigger] final(self).can_r16(a) == old(self).can_r16(a),
            forall|a: int| #[trigger] final(self).can_w8(a) == old(self).can_w8(a),
            forall|a: int| #[trigger] final(self).can_w16(a) == old(self).can_w16(a),
            forall|a: int| #[trigger] final(self).stores(a) == old(self).stores(a),
            old(self).stores(address as int) ==> forall|a: int|
                #[trigger] final(self).byte_at(a) == if a == address as int {
                    hi8(value)
                } else if a == address as int + 1 {
                    lo8(value)
                } else {
                    old(self).byte_at(a)
                },
            !old(self).stores(address as int) ==> forall|a: int|
                #[trigger] final(self).byte_at(a) == old(self).byte_at(a),
            old(self).stores(address as int) ==> final(self).sink_log() == old(self).sink_log(),
            !old(self).stores(address as int) ==> Self::sink_recorded(
                *old(self),
                *final(self),
                address as int,
                value,
            ),
    ;

    fn len(&self) -> (r: usize)
        ensures
            r == self.dlen(),
    ;

    fn set_mb(&mut self, value: u16)
        ensures
            Self::mb_switched(*old(self), *final(self), value),
            final(self).sink_log() == old(self).sink_log(),
    ;

    fn ok_r8(&self, address: usize) -> (b: bool)
        ensures
            b == self.can_r8(address as int),
    ;

    fn ok_r16(&self, address: usize) -> (b: bool)
        ensures
            b == self.can_r16(address as int),
    ;

    fn ok_w8(&self, address: usize) -> (b: bool)
        ensures
            b == self.can_w8(address as int),
    ;

    fn ok_w16(&self, address: usize) -> (b: bool)
        ensures
            b == self.can_w16(address as int),
    ;

    fn is_store(&self, address: usize) -> (b: bool)
        ensures
            b == self.stores(address as int),
    ;
}


/// Big-endian round trip: after a word write that landed in byte cells,
/// reading the pair back yields exactly the written word.
pub proof fn lemma_write_then_read<D: Device>(pre: D, post: D, address: int, value: u16)
    requires
        pre.stores(address),
        forall|a: int| #[trigger] post.byte_at(a) == if a == address {
            hi8(value)
        } else if a == address + 1 {
            lo8(value)
        } else {
            pre.byte_at(a)
        },
    ensures
        word16(post.byte_at(address), post.byte_at(address + 1)) == value,
{
    lemma_word16_split(value);
}

} // verus!
