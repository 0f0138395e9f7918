use vstd::prelude::*;

use crate::device::memory::Memory;
use crate::device::Device;

verus! {

/// Several same-sized flat memories multiplexed behind one address window;
/// the bank-select register chooses which one answers.
pub struct BankedMemory {
    mb: u16,
    banks: Vec<Memory>,
    size: u16,
}

impl BankedMemory {
    /// The currently selected bank.
    pub closed spec fn bank(&self) -> int {
        self.mb as int
    }

    /// The contents of every bank.
    pub closed spec fn banks_view(&self) -> Seq<Seq<u8>> {
        Seq::new(self.banks@.len(), |i: int| self.banks@[i]@)
    }

    /// The window size each bank presents.
    pub closed spec fn bank_size(&self) -> nat {
        self.size as nat
    }

    pub fn new(count: u8, size: u16) -> (r: BankedMemory)
        ensures
            r.bank() == 0,
            r.bank_size() == size,
            r.banks_view() == Seq::new(count as nat, |i: int| Seq::new(size as nat, |j: int| 0u8)),
    {
        let mut banks: Vec<Memory> = Vec::new();
        let mut k: u8 = 0;
        while k < count
            invariant
                k <= count,
                banks@.len() == k as nat,
                forall|i: int| 0 <= i < k as int ==> #[trigger] banks@[i]@ == Seq::new(
                    size as nat,
                    |j: int| 0u8,
                ),
            decreases count - k,
        {
            banks.push(Memory::new(size));
            k = k + 1;
        }
        let r = BankedMemory { mb: 0, banks, size };
        proof {
            assert(r.banks_view() =~= Seq::new(
                count as nat,
                |i: int| Seq::new(size as nat, |j: int| 0u8),
            ));
        }
        r
    }
}

/// The byte at `addr` of a flat memory holds exactly this update.
proof fn lemma_bank_byte_update(pre: Memory, post: Memory, addr: int, value: u8)
    requires
        pre@.len() == post@.len(),
        0 <= addr < pre@.len(),
        forall|a: int| #[trigger] post.byte_at(a) == if a == addr {
            value
        } else {
            pre.byte_at(a)
        },
    ensures
        post@ == pre@.update(addr, value),
{
    assert forall|i: int| 0 <= i < post@.len() implies post@[i] == pre@.update(addr, value)[i] by {
        assert(post.byte_at(i) == if i == addr {
            value
        } else {
            pre.byte_at(i)
        });
    }
    assert(post@ =~= pre@.update(addr, value));
}

/// The byte pair at `addr` of a flat memory holds exactly this word.
proof fn lemma_bank_word_update(pre: Memory, post: Memory, addr: int, value: u16)
    requires
        pre@.len() == post@.len(),
        0 <= addr,
        addr + 1 < pre@.len(),
        forall|a: int| #[trigger] post.byte_at(a) == if a == addr {
            crate::device::hi8(value)
        } else if a == addr + 1 {
            crate::device::lo8(value)
        } else {
            pre.byte_at(a)
        },
    ensures
        post@ == pre@.update(addr, crate::device::hi8(value)).update(
            addr + 1,
            crate::device::lo8(value),
        ),
{
    assert forall|i: int|
        0 <= i < post@.len() implies post@[i] == pre@.update(addr, crate::device::hi8(value)).update(
        addr + 1,
        crate::device::lo8(value),
    )[i] by {
        assert(post.byte_at(i) == if i == addr {
            crate::device::hi8(value)
        } else if i == addr + 1 {
            crate::device::lo8(value)
        } else {
            pre.byte_at(i)
        });
    }
    assert(post@ =~= pre@.update(addr, crate::device::hi8(value)).update(
        addr + 1,
        crate::device::lo8(value),
    ));
}

impl Device for BankedMemory {
    open spec fn dlen(&self) -> nat {
        self.bank_size()
    }

    open spec fn byte_at(&self, addr: int) -> u8 {
        if 0 <= self.bank() < self.banks_view().len() && 0 <= addr < self.banks_view()[self.bank()].len() {
            self.banks_view()[self.bank()][addr]
        } else {
            0
        }
    }

    open spec fn can_r8(&self, addr: int) -> bool {
        0 <= self.bank() < self.banks_view().len() && 0 <= addr < self.banks_view()[self.bank()].len()
    }

    open spec fn can_r16(&self, addr: int) -> bool {
        0 <= self.bank() < self.banks_view().len() && 0 <= addr && addr + 1
            < self.banks_view()[self.bank()].len()
    }

    open spec fn can_w8(&self, addr: int) -> bool {
        self.can_r8(addr)
    }

    open spec fn can_w16(&self, addr: int) -> bool {
        self.can_r16(addr)
    }

    open spec fn stores(&self, addr: int) -> bool {
        true
    }

    open spec fn sink_log(&self) -> Seq<(usize, u16)> {
        Seq::empty()
    }

    open spec fn sink_recorded(pre: BankedMemory, post: BankedMemory, addr: int, value: u16) -> bool {
        true
    }

    open spec fn mb_switched(pre: BankedMemory, post: BankedMemory, value: u16) -> bool {
        post.bank() == value && post.banks_view() == pre.banks_view() && post.bank_size()
            == pre.bank_size()
    }

    fn get_u8(&self, address: usize) -> (r: u8) {
        self.banks[self.mb as usize].get_u8(address)
    }

    fn get_u16(&self, address: usize) -> (r: u16) {
        self.banks[self.mb as usize].get_u16(address)
    }

    fn set_u8(&mut self, address: usize, value: u8)
        ensures
            final(self).bank() == old(self).bank(),
            final(self).bank_size() == old(self).bank_size(),
            final(self).banks_view() == old(self).banks_view().update(
                old(self).bank(),
                old(self).banks_view()[old(self).bank()].update(address as int, value),
            ),
    {
        let i = self.mb as usize;
        let mut bank = self.banks.remove(i);
        let ghost bankpre = bank;
        bank.set_u8(address, value);
        proof {
            lemma_bank_byte_update(bankpre, bank, address as int, value);
        }
        self.banks.insert(i, bank);
        proof {
            assert(self.banks@ =~= old(self).banks@.update(i as int, self.banks@[i as int]));
            assert(self.banks_view() =~= old(self).banks_view().update(
                i as int,
                old(self).banks_view()[i as int].update(address as int, value),
            ));
        }
    }

    fn set_u16(&mut self, address: usize, value: u16)
        ensures
            final(self).bank() == old(self).bank(),
            final(self).bank_size() == old(self).bank_size(),
            final(self).banks_view() == old(self).banks_view().update(
                old(self).bank(),
                old(self).banks_view()[old(self).bank()].update(
                    address as int,
                    crate::device::hi8(value),
                ).update(address as int + 1, crate::device::lo8(value)),
            ),
    {
        let i = self.mb as usize;
        let mut bank = self.banks.remove(i);
        let ghost bankpre = bank;
        bank.set_u16(address, value);
        proof {
            lemma_bank_word_update(bankpre, bank, address as int, value);
        }
        self.banks.insert(i, bank);
        proof {
            assert(self.banks@ =~= old(self).banks@.update(i as int, self.banks@[i as int]));
            assert(self.banks_view() =~= old(self).banks_view().update(
                i as int,
                old(self).banks_view()[i as int].update(
                    address as int,
                    crate::device::hi8(value),
                ).update(address as int + 1, crate::device::lo8(value)),
            ));
        }
    }

    fn len(&self) -> (r: usize) {
        self.size as usize
    }

    fn set_mb(&mut self, value: u16) {
        self.mb = value;
        proof {
            assert(self.banks_view() =~= old(self).banks_view());
        }
    }

    fn ok_r8(&self, address: usize) -> (b: bool) {
        (self.mb as usize) < self.banks.len() && self.banks[self.mb as usize].ok_r8(address)
    }

    fn ok_r16(&self, address: usize) -> (b: bool) {
        (self.mb as usize) < self.banks.len() && self.banks[self.mb as usize].ok_r16(address)
    }

    fn ok_w8(&self, address: usize) -> (b: bool) {
        self.ok_r8(address)
    }

    fn ok_w16(&self, address: usize) -> (b: bool) {
        self.ok_r16(address)
    }

    fn is_store(&self, address: usize) -> (b: bool) {
        true
    }
}


/// Writes under different banks are independent: after a byte write in
/// one bank, a switch to another bank, a write there, and a switch back,
/// the first bank still shows the first write.
pub proof fn lemma_bank_windows_independent(
    s0: BankedMemory,
    s1: BankedMemory,
    s2: BankedMemory,
    s3: BankedMemory,
    s4: BankedMemory,
    b1: u16,
    b2: u16,
    a: int,
    v1: u8,
    v2: u8,
)
    requires
        s0.bank() == b1,
        b2 != b1,
        b2 < s0.banks_view().len(),
        s0.can_w8(a),
        s1.bank() == s0.bank(),
        s1.banks_view() == s0.banks_view().update(
            s0.bank(),
            s0.banks_view()[s0.bank()].update(a, v1),
        ),
        BankedMemory::mb_switched(s1, s2, b2),
        s3.bank() == s2.bank(),
        s3.banks_view() == s2.banks_view().update(
            s2.bank(),
            s2.banks_view()[s2.bank()].update(a, v2),
        ),
        BankedMemory::mb_switched(s3, s4, b1),
    ensures
        s4.byte_at(a) == v1,
        a < s0.banks_view()[b2 as int].len() ==> s2.byte_at(a) == s0.banks_view()[b2 as int][a],
{
    assert(s4.banks_view()[b1 as int] == s0.banks_view()[b1 as int].update(a, v1));
}

} // verus!
