use vstd::prelude::*;

use crate::device::banked_memory::BankedMemory;
use crate::device::memory::Memory;
use crate::device::screen::Screen;
use crate::device::{word16, Device};

verus! {

/// The devices an address range can be mapped to.
pub enum MappedDevice {
    Flat(Memory),
    Banked(BankedMemory),
    Sink(Screen),
}

/// One mapping entry: a device answers for `[start, end]`; with `remap` the
/// device sees addresses relative to `start`, otherwise absolute ones.
pub struct Region {
    pub device: MappedDevice,
    pub start: usize,
    pub end: usize,
    pub remap: bool,
}

/// Address decoder: regions are kept most-recently-mapped first, and the
/// first region whose range contains an address answers for it.
pub struct MemoryMapper {
    regions: Vec<Region>,
}

impl Device for MappedDevice {
    open spec fn dlen(&self) -> nat {
        match self {
            MappedDevice::Flat(m) => m.dlen(),
            MappedDevice::Banked(b) => b.dlen(),
            MappedDevice::Sink(s) => s.dlen(),
        }
    }

    open spec fn byte_at(&self, addr: int) -> u8 {
        match self {
            MappedDevice::Flat(m) => m.byte_at(addr),
            MappedDevice::Banked(b) => b.byte_at(addr),
            MappedDevice::Sink(s) => s.byte_at(addr),
        }
    }

    open spec fn can_r8(&self, addr: int) -> bool {
        match self {
            MappedDevice::Flat(m) => m.can_r8(addr),
            MappedDevice::Banked(b) => b.can_r8(addr),
            MappedDevice::Sink(s) => s.can_r8(addr),
        }
    }

    open spec fn can_r16(&self, addr: int) -> bool {
        match self {
            MappedDevice::Flat(m) => m.can_r16(addr),
            MappedDevice::Banked(b) => b.can_r16(addr),
            MappedDevice::Sink(s) => s.can_r16(addr),
        }
    }

    open spec fn can_w8(&self, addr: int) -> bool {
        match self {
            MappedDevice::Flat(m) => m.can_w8(addr),
            MappedDevice::Banked(b) => b.can_w8(addr),
            MappedDevice::Sink(s) => s.can_w8(addr),
        }
    }

    open spec fn can_w16(&self, addr: int) -> bool {
        match self {
            MappedDevice::Flat(m) => m.can_w16(addr),
            MappedDevice::Banked(b) => b.can_w16(addr),
            MappedDevice::Sink(s) => s.can_w16(addr),
        }
    }

    open spec fn stores(&self, addr: int) -> bool {
        match self {
            MappedDevice::Flat(m) => m.stores(addr),
            MappedDevice::Banked(b) => b.stores(addr),
            MappedDevice::Sink(s) => s.stores(addr),
        }
    }

    open spec fn sink_log(&self) -> Seq<(usize, u16)> {
        match self {
            MappedDevice::Flat(m) => m.sink_log(),
            MappedDevice::Banked(b) => b.sink_log(),
            MappedDevice::Sink(s) => s.sink_log(),
        }
    }

    open spec fn sink_recorded(pre: MappedDevice, post: MappedDevice, addr: int, value: u16) -> bool {
        match (pre, post) {
            (MappedDevice::Flat(m1), MappedDevice::Flat(m2)) => Memory::sink_recorded(
                m1,
                m2,
                addr,
                value,
            ),
            (MappedDevice::Banked(b1), MappedDevice::Banked(b2)) => BankedMemory::sink_recorded(
                b1,
                b2,
                addr,
                value,
            ),
            (MappedDevice::Sink(s1), MappedDevice::Sink(s2)) => Screen::sink_recorded(
                s1,
                s2,
                addr,
                value,
            ),
            _ => false,
        }
    }

    open spec fn mb_switched(pre: MappedDevice, post: MappedDevice, value: u16) -> bool {
        match (pre, post) {
            (MappedDevice::Flat(m1), MappedDevice::Flat(m2)) => Memory::mb_switched(m1, m2, value),
            (MappedDevice::Banked(b1), MappedDevice::Banked(b2)) => BankedMemory::mb_switched(
                b1,
                b2,
                value,
            ),
            (MappedDevice::Sink(s1), MappedDevice::Sink(s2)) => Screen::mb_switched(s1, s2, value),
            _ => false,
        }
    }

    fn get_u8(&self, address: usize) -> (r: u8) {
        match self {
            MappedDevice::Flat(m) => m.get_u8(address),
            MappedDevice::Banked(b) => b.get_u8(address),
            MappedDevice::Sink(s) => s.get_u8(address),
        }
    }

    fn get_u16(&self, address: usize) -> (r: u16) {
        match self {
            MappedDevice::Flat(m) => m.get_u16(address),
            MappedDevice::Banked(b) => b.get_u16(address),
            MappedDevice::Sink(s) => s.get_u16(address),
        }
    }

    fn set_u8(&mut self, address: usize, value: u8) {
        match self {
            MappedDevice::Flat(m) => m.set_u8(address, value),
            MappedDevice::Banked(b) => b.set_u8(address, value),
            MappedDevice::Sink(s) => s.set_u8(address, value),
        }
    }

    fn set_u16(&mut self, address: usize, value: u16) {
        match self {
            MappedDevice::Flat(m) => m.set_u16(address, value),
            MappedDevice::Banked(b) => b.set_u16(address, value),
            MappedDevice::Sink(s) => s.set_u16(address, value),
        }
    }

    fn len(&self) -> (r: usize) {
        match self {
            MappedDevice::Flat(m) => m.len(),
            MappedDevice::Banked(b) => b.len(),
            MappedDevice::Sink(s) => s.len(),
        }
    }

    fn set_mb(&mut self, value: u16) {
        match self {
            MappedDevice::Flat(m) => m.set_mb(value),
            MappedDevice::Banked(b) => b.set_mb(value),
            MappedDevice::Sink(s) => s.set_mb(value),
        }
    }

    fn ok_r8(&self, address: usize) -> (b: bool) {
        match self {
            MappedDevice::Flat(m) => m.ok_r8(address),
            MappedDevice::Banked(b) => b.ok_r8(address),
            MappedDevice::Sink(s) => s.ok_r8(address),
        }
    }

    fn ok_r16(&self, address: usize) -> (b: bool) {
        match self {
            MappedDevice::Flat(m) => m.ok_r16(address),
            MappedDevice::Banked(b) => b.ok_r16(address),
            MappedDevice::Sink(s) => s.ok_r16(address),
        }
    }

    fn ok_w8(&self, address: usize) -> (b: bool) {
        match self {
            MappedDevice::Flat(m) => m.ok_w8(address),
            MappedDevice::Banked(b) => b.ok_w8(address),
            MappedDevice::Sink(s) => s.ok_w8(address),
        }
    }

    fn ok_w16(&self, address: usize) -> (b: bool) {
        match self {
            MappedDevice::Flat(m) => m.ok_w16(address),
            MappedDevice::Banked(b) => b.ok_w16(address),
            MappedDevice::Sink(s) => s.ok_w16(address),
        }
    }

    fn is_store(&self, address: usize) -> (b: bool) {
        match self {
            MappedDevice::Flat(m) => m.is_store(address),
            MappedDevice::Banked(b) => b.is_store(address),
            MappedDevice::Sink(s) => s.is_store(address),
        }
    }
}


/// Writes through a region change no usability predicate of the mapper.
pub open spec fn mapper_shape_eq(pre: MemoryMapper, post: MemoryMapper) -> bool {
    &&& post.dlen() == pre.dlen()
    &&& forall|a: int| #[trigger] post.can_r8(a) == pre.can_r8(a)
    &&& forall|a: int| #[trigger] post.can_r16(a) == pre.can_r16(a)
    &&& forall|a: int| #[trigger] post.can_w8(a) == pre.can_w8(a)
    &&& forall|a: int| #[trigger] post.can_w16(a) == pre.can_w16(a)
    &&& forall|a: int| #[trigger] post.stores(a) == pre.stores(a)
}

/// Writes into a mapped device change none of its usability predicates.
pub open spec fn device_shape_eq(pre: MappedDevice, post: MappedDevice) -> bool {
    &&& post.dlen() == pre.dlen()
    &&& forall|a: int| #[trigger] post.can_r8(a) == pre.can_r8(a)
    &&& forall|a: int| #[trigger] post.can_r16(a) == pre.can_r16(a)
    &&& forall|a: int| #[trigger] post.can_w8(a) == pre.can_w8(a)
    &&& forall|a: int| #[trigger] post.can_w16(a) == pre.can_w16(a)
    &&& forall|a: int| #[trigger] post.stores(a) == pre.stores(a)
}

/// Whether a region's range contains an address.
pub open spec fn region_contains(r: Region, a: int) -> bool {
    r.start <= a <= r.end
}

/// The address the region's device sees for an absolute address.
pub open spec fn region_offset(r: Region, a: int) -> int {
    if r.remap {
        a - r.start
    } else {
        a
    }
}

/// The index of the first region whose range contains the address, or -1.
pub open spec fn find_idx(rs: Seq<Region>, a: int) -> int
    decreases rs.len(),
{
    if rs.len() == 0 {
        -1
    } else if region_contains(rs[0], a) {
        0
    } else {
        let rest = find_idx(rs.drop_first(), a);
        if rest < 0 {
            -1
        } else {
            rest + 1
        }
    }
}

/// The first containing region is a containing region, and nothing before it
/// contains the address; -1 means no region contains it.
pub proof fn lemma_find_idx_character(rs: Seq<Region>, a: int)
    ensures
        find_idx(rs, a) >= 0 ==> {
            &&& find_idx(rs, a) < rs.len()
            &&& region_contains(rs[find_idx(rs, a)], a)
            &&& forall|j: int| 0 <= j < find_idx(rs, a) ==> !region_contains(rs[j], a)
        },
        find_idx(rs, a) < 0 ==> forall|j: int| 0 <= j < rs.len() ==> !region_contains(rs[j], a),
    decreases rs.len(),
{
    if rs.len() > 0 && !region_contains(rs[0], a) {
        lemma_find_idx_character(rs.drop_first(), a);
        assert(forall|j: int| 1 <= j < rs.len() ==> rs[j] == rs.drop_first()[j - 1]);
    }
}

/// find_idx depends only on the regions' ranges, not on their devices.
pub proof fn lemma_find_idx_same_ranges(rs1: Seq<Region>, rs2: Seq<Region>, a: int)
    requires
        rs1.len() == rs2.len(),
        forall|i: int| 0 <= i < rs1.len() ==> #[trigger] rs2[i].start == rs1[i].start
            && rs2[i].end == rs1[i].end,
    ensures
        find_idx(rs2, a) == find_idx(rs1, a),
    decreases rs1.len(),
{
    if rs1.len() > 0 {
        assert(region_contains(rs2[0], a) == region_contains(rs1[0], a));
        lemma_find_idx_same_ranges(rs1.drop_first(), rs2.drop_first(), a);
    }
}

impl MemoryMapper {
    /// The mapping entries, most recently mapped first.
    pub closed spec fn regions_seq(&self) -> Seq<Region> {
        self.regions@
    }

    /// The index of the region that answers for an address, or -1.
    pub open spec fn sel(&self, a: int) -> int {
        find_idx(self.regions_seq(), a)
    }

    pub fn new() -> (r: MemoryMapper)
        ensures
            r.regions_seq() == Seq::<Region>::empty(),
    {
        MemoryMapper { regions: Vec::new() }
    }

    /// Prepends a mapping, so the newest mapping wins every lookup it covers.
    pub fn map(&mut self, device: MappedDevice, start: usize, end: usize, remap: bool)
        ensures
            final(self).regions_seq() == seq![
                Region { device, start, end, remap },
            ] + old(self).regions_seq(),
    {
        let region = Region { device, start, end, remap };
        self.regions.insert(0, region);
        proof {
            assert(self.regions@ =~= seq![Region { device, start, end, remap }] + old(
                self,
            ).regions@);
        }
    }

    /// The index of the first region containing the address, if any.
    fn region_index(&self, address: usize) -> (r: Option<usize>)
        ensures
            match r {
                Some(i) => {
                    &&& self.sel(address as int) == i
                    &&& i < self.regions_seq().len()
                    &&& region_contains(self.regions_seq()[i as int], address as int)
                },
                None => self.sel(address as int) == -1,
            },
    {
        proof {
            lemma_find_idx_character(self.regions@, address as int);
        }
        let mut i: usize = 0;
        while i < self.regions.len()
            invariant
                i <= self.regions@.len(),
                forall|j: int| 0 <= j < i ==> !region_contains(self.regions@[j], address as int),
            decreases self.regions@.len() - i,
        {
            let r = &self.regions[i];
            if r.start <= address && address <= r.end {
                proof {
                    lemma_find_idx_is_first(self.regions@, address as int, i as int);
                }
                return Some(i);
            }
            i = i + 1;
        }
        None
    }
}

/// If index i contains the address and nothing before it does, find_idx is i.
proof fn lemma_find_idx_is_first(rs: Seq<Region>, a: int, i: int)
    requires
        0 <= i < rs.len(),
        region_contains(rs[i], a),
        forall|j: int| 0 <= j < i ==> !region_contains(rs[j], a),
    ensures
        find_idx(rs, a) == i,
    decreases i,
{
    if i > 0 {
        lemma_find_idx_is_first(rs.drop_first(), a, i - 1);
        assert(forall|j: int| 0 <= j < i - 1 ==> rs.drop_first()[j] == rs[j + 1]);
    }
}

impl Device for MemoryMapper {
    open spec fn dlen(&self) -> nat {
        0xffff
    }

    open spec fn byte_at(&self, a: int) -> u8 {
        if self.sel(a) >= 0 {
            let r = self.regions_seq()[self.sel(a)];
            r.device.byte_at(region_offset(r, a))
        } else {
            0
        }
    }

    open spec fn can_r8(&self, a: int) -> bool {
        self.sel(a) >= 0 && {
            let r = self.regions_seq()[self.sel(a)];
            r.device.can_r8(region_offset(r, a))
        }
    }

    open spec fn can_r16(&self, a: int) -> bool {
        self.sel(a) >= 0 && self.sel(a + 1) == self.sel(a) && {
            let r = self.regions_seq()[self.sel(a)];
            r.device.can_r16(region_offset(r, a))
        }
    }

    open spec fn can_w8(&self, a: int) -> bool {
        self.sel(a) >= 0 && {
            let r = self.regions_seq()[self.sel(a)];
            r.device.can_w8(region_offset(r, a))
        }
    }

    open spec fn can_w16(&self, a: int) -> bool {
        self.sel(a) >= 0 && {
            let r = self.regions_seq()[self.sel(a)];
            &&& r.device.can_w16(region_offset(r, a))
            &&& r.device.stores(region_offset(r, a)) ==> self.sel(a + 1) == self.sel(a)
        }
    }

    open spec fn stores(&self, a: int) -> bool {
        self.sel(a) >= 0 && {
            let r = self.regions_seq()[self.sel(a)];
            r.device.stores(region_offset(r, a))
        }
    }

    open spec fn sink_log(&self) -> Seq<(usize, u16)> {
        sink_logs(self.regions_seq())
    }

    open spec fn sink_recorded(pre: MemoryMapper, post: MemoryMapper, addr: int, value: u16) -> bool {
        &&& post.regions_seq().len() == pre.regions_seq().len()
        &&& pre.sel(addr) >= 0
        &&& forall|j: int| 0 <= j < pre.regions_seq().len() && j != pre.sel(addr)
            ==> #[trigger] post.regions_seq()[j] == pre.regions_seq()[j]
        &&& post.regions_seq()[pre.sel(addr)].start == pre.regions_seq()[pre.sel(addr)].start
        &&& post.regions_seq()[pre.sel(addr)].end == pre.regions_seq()[pre.sel(addr)].end
        &&& post.regions_seq()[pre.sel(addr)].remap == pre.regions_seq()[pre.sel(addr)].remap
        &&& MappedDevice::sink_recorded(
            pre.regions_seq()[pre.sel(addr)].device,
            post.regions_seq()[pre.sel(addr)].device,
            region_offset(pre.regions_seq()[pre.sel(addr)], addr),
            value,
        )
    }

    open spec fn mb_switched(pre: MemoryMapper, post: MemoryMapper, value: u16) -> bool {
        &&& post.regions_seq().len() == pre.regions_seq().len()
        &&& forall|i: int| 0 <= i < pre.regions_seq().len() ==> {
            &&& (#[trigger] post.regions_seq()[i]).start == pre.regions_seq()[i].start
            &&& post.regions_seq()[i].end == pre.regions_seq()[i].end
            &&& post.regions_seq()[i].remap == pre.regions_seq()[i].remap
            &&& MappedDevice::mb_switched(
                pre.regions_seq()[i].device,
                post.regions_seq()[i].device,
                value,
            )
        }
    }

    fn get_u8(&self, address: usize) -> (r: u8) {
        let i = self.region_index(address).unwrap();
        let region = &self.regions[i];
        let offset = if region.remap {
            address - region.start
        } else {
            address
        };
        region.device.get_u8(offset)
    }

    fn get_u16(&self, address: usize) -> (r: u16) {
        let i = self.region_index(address).unwrap();
        let region = &self.regions[i];
        let offset = if region.remap {
            address - region.start
        } else {
            address
        };
        region.device.get_u16(offset)
    }

    fn set_u8(&mut self, address: usize, value: u8) {
        let i = self.region_index(address).unwrap();
        let mut region = self.regions.remove(i);
        let offset = if region.remap {
            address - region.start
        } else {
            address
        };
        region.device.set_u8(offset, value);
        self.regions.insert(i, region);
        proof {
            lemma_mapper_write_u8(*old(self), *self, address as int, value, i as int);
            lemma_sink_logs_pointwise(old(self).regions@, self.regions@);
        }
    }

    fn set_u16(&mut self, address: usize, value: u16) {
        let i = self.region_index(address).unwrap();
        let mut region = self.regions.remove(i);
        let offset = if region.remap {
            address - region.start
        } else {
            address
        };
        region.device.set_u16(offset, value);
        self.regions.insert(i, region);
        proof {
            lemma_mapper_write_u16(*old(self), *self, address as int, value, i as int);
            if old(self).stores(address as int) {
                lemma_sink_logs_pointwise(old(self).regions@, self.regions@);
            }
        }
    }

    fn len(&self) -> (r: usize) {
        0xffff
    }

    fn set_mb(&mut self, value: u16) {
        let n = self.regions.len();
        let mut i: usize = 0;
        while i < n
            invariant
                n == old(self).regions@.len(),
                self.regions@.len() == n,
                i <= n,
                forall|j: int| 0 <= j < i ==> {
                    &&& (#[trigger] self.regions@[j]).start == old(self).regions@[j].start
                    &&& self.regions@[j].end == old(self).regions@[j].end
                    &&& self.regions@[j].remap == old(self).regions@[j].remap
                    &&& MappedDevice::mb_switched(
                        old(self).regions@[j].device,
                        self.regions@[j].device,
                        value,
                    )
                    &&& self.regions@[j].device.sink_log() == old(
                        self,
                    ).regions@[j].device.sink_log()
                },
                forall|j: int| i <= j < n ==> self.regions@[j] == old(self).regions@[j],
            decreases n - i,
        {
            let mut region = self.regions.remove(i);
            region.device.set_mb(value);
            self.regions.insert(i, region);
            i = i + 1;
        }
        proof {
            lemma_sink_logs_pointwise(old(self).regions@, self.regions@);
        }
    }

    fn ok_r8(&self, address: usize) -> (b: bool) {
        match self.region_index(address) {
            Some(i) => {
                let region = &self.regions[i];
                let offset = if region.remap {
                    address - region.start
                } else {
                    address
                };
                region.device.ok_r8(offset)
            }
            None => false,
        }
    }

    fn ok_r16(&self, address: usize) -> (b: bool) {
        match self.region_index(address) {
            Some(i) => {
                if address == usize::MAX {
                    proof {
                        lemma_no_region_past_max(self.regions@, address as int + 1);
                    }
                    return false;
                }
                let same = match self.region_index(address + 1) {
                    Some(i2) => i2 == i,
                    None => false,
                };
                if !same {
                    return false;
                }
                let region = &self.regions[i];
                let offset = if region.remap {
                    address - region.start
                } else {
                    address
                };
                region.device.ok_r16(offset)
            }
            None => false,
        }
    }

    fn ok_w8(&self, address: usize) -> (b: bool) {
        match self.region_index(address) {
            Some(i) => {
                let region = &self.regions[i];
                let offset = if region.remap {
                    address - region.start
                } else {
                    address
                };
                region.device.ok_w8(offset)
            }
            None => false,
        }
    }

    fn ok_w16(&self, address: usize) -> (b: bool) {
        match self.region_index(address) {
            Some(i) => {
                let region = &self.regions[i];
                let offset = if region.remap {
                    address - region.start
                } else {
                    address
                };
                if !region.device.ok_w16(offset) {
                    return false;
                }
                if region.device.is_store(offset) {
                    if address == usize::MAX {
                        proof {
                            lemma_no_region_past_max(self.regions@, address as int + 1);
                        }
                        return false;
                    }
                    let same = match self.region_index(address + 1) {
                        Some(i2) => i2 == i,
                        None => false,
                    };
                    if !same {
                        return false;
                    }
                }
                true
            }
            None => false,
        }
    }

    fn is_store(&self, address: usize) -> (b: bool) {
        match self.region_index(address) {
            Some(i) => {
                let region = &self.regions[i];
                let offset = if region.remap {
                    address - region.start
                } else {
                    address
                };
                region.device.is_store(offset)
            }
            None => false,
        }
    }
}

/// Every word recorded by the screen regions, in region order.
pub open spec fn sink_logs(rs: Seq<Region>) -> Seq<(usize, u16)>
    decreases rs.len(),
{
    if rs.len() == 0 {
        Seq::empty()
    } else {
        rs[0].device.sink_log() + sink_logs(rs.drop_first())
    }
}

/// Two region lists whose devices hold the same sink logs list the same
/// recorded words.
proof fn lemma_sink_logs_pointwise(rs1: Seq<Region>, rs2: Seq<Region>)
    requires
        rs1.len() == rs2.len(),
        forall|j: int| 0 <= j < rs1.len() ==> (#[trigger] rs2[j].device).sink_log()
            == rs1[j].device.sink_log(),
    ensures
        sink_logs(rs2) == sink_logs(rs1),
    decreases rs1.len(),
{
    if rs1.len() > 0 {
        assert(rs2[0].device.sink_log() == rs1[0].device.sink_log());
        assert forall|j: int| 0 <= j < rs1.drop_first().len() implies (#[trigger] rs2.drop_first()[j].device).sink_log() == rs1.drop_first()[j].device.sink_log() by {
            assert(rs2.drop_first()[j] == rs2[j + 1]);
            assert(rs1.drop_first()[j] == rs1[j + 1]);
        }
        lemma_sink_logs_pointwise(rs1.drop_first(), rs2.drop_first());
    }
}

/// A region list whose devices all hold empty sink logs records nothing.
proof fn lemma_sink_logs_empty(rs: Seq<Region>)
    requires
        forall|j: int| 0 <= j < rs.len() ==> (#[trigger] rs[j].device).sink_log()
            == Seq::<(usize, u16)>::empty(),
    ensures
        sink_logs(rs) == Seq::<(usize, u16)>::empty(),
    decreases rs.len(),
{
    if rs.len() > 0 {
        assert(rs[0].device.sink_log() == Seq::<(usize, u16)>::empty());
        assert forall|j: int| 0 <= j < rs.drop_first().len() implies (#[trigger] rs.drop_first()[j].device).sink_log() == Seq::<(usize, u16)>::empty() by {
            assert(rs.drop_first()[j] == rs[j + 1]);
        }
        lemma_sink_logs_empty(rs.drop_first());
        assert(sink_logs(rs) =~= Seq::<(usize, u16)>::empty());
    }
}

impl MemoryMapper {
    /// Drains every screen region's recorded writes, in region order:
    /// afterwards the sink log is empty.
    pub fn take_screen_writes(&mut self) -> (r: Vec<(usize, u16)>)
        ensures
            r@ == old(self).sink_log(),
            final(self).sink_log() == Seq::<(usize, u16)>::empty(),
    {
        let mut out: Vec<(usize, u16)> = Vec::new();
        let n = self.regions.len();
        let mut i: usize = 0;
        proof {
            assert(old(self).regions@.skip(0) =~= old(self).regions@);
            assert(out@ + sink_logs(old(self).regions@) =~= sink_logs(old(self).regions@));
        }
        while i < n
            invariant
                n == old(self).regions@.len(),
                self.regions@.len() == n,
                i <= n,
                forall|j: int| i <= j < n ==> self.regions@[j] == old(self).regions@[j],
                forall|j: int| 0 <= j < i ==> (#[trigger] self.regions@[j].device).sink_log()
                    == Seq::<(usize, u16)>::empty(),
                out@ + sink_logs(old(self).regions@.skip(i as int)) == sink_logs(
                    old(self).regions@,
                ),
            decreases n - i,
        {
            let ghost outb = out@;
            let mut region = self.regions.remove(i);
            match &mut region.device {
                MappedDevice::Sink(s) => {
                    let mut taken = s.take_writes();
                    out.append(&mut taken);
                },
                _ => {},
            }
            self.regions.insert(i, region);
            proof {
                assert(old(self).regions@.skip(i as int).drop_first() =~= old(
                    self,
                ).regions@.skip(i as int + 1));
                assert(old(self).regions@.skip(i as int)[0] == old(self).regions@[i as int]);
                match old(self).regions@[i as int].device {
                    MappedDevice::Sink(s0) => {
                        assert(out@ =~= outb + s0@);
                        assert(out@ + sink_logs(old(self).regions@.skip(i as int + 1)) =~= outb
                            + sink_logs(old(self).regions@.skip(i as int)));
                    },
                    _ => {
                        assert(out@ + sink_logs(old(self).regions@.skip(i as int + 1)) =~= outb
                            + sink_logs(old(self).regions@.skip(i as int)));
                    },
                }
            }
            i = i + 1;
        }
        proof {
            assert(old(self).regions@.skip(n as int) =~= Seq::<Region>::empty());
            assert(out@ =~= out@ + sink_logs(old(self).regions@.skip(n as int)));
            lemma_sink_logs_empty(self.regions@);
        }
        out
    }
}

/// No region's range can contain an address past the largest usize.
proof fn lemma_no_region_past_max(rs: Seq<Region>, a: int)
    requires
        a > usize::MAX,
    ensures
        find_idx(rs, a) == -1,
{
    lemma_find_idx_character(rs, a);
    if find_idx(rs, a) >= 0 {
        assert(region_contains(rs[find_idx(rs, a)], a));
    }
}

/// Replacing region i's device with one of the same shape leaves every
/// address decoding to the same region, with the mapper's shape unchanged.
proof fn lemma_mapper_same_decode(pre: MemoryMapper, post: MemoryMapper, i: int)
    requires
        0 <= i < pre.regions_seq().len(),
        post.regions_seq().len() == pre.regions_seq().len(),
        forall|j: int| 0 <= j < pre.regions_seq().len() && j != i ==> post.regions_seq()[j]
            == pre.regions_seq()[j],
        post.regions_seq()[i].start == pre.regions_seq()[i].start,
        post.regions_seq()[i].end == pre.regions_seq()[i].end,
        post.regions_seq()[i].remap == pre.regions_seq()[i].remap,
        device_shape_eq(pre.regions_seq()[i].device, post.regions_seq()[i].device),
    ensures
        forall|a: int| #[trigger] post.sel(a) == pre.sel(a),
        mapper_shape_eq(pre, post),
{
    assert forall|a: int| #[trigger] post.sel(a) == pre.sel(a) by {
        lemma_find_idx_same_ranges(pre.regions_seq(), post.regions_seq(), a);
    }
    assert forall|a: int| #[trigger] post.can_r8(a) == pre.can_r8(a) by {
        lemma_mapper_pred_case(pre, post, i, a);
    }
    assert forall|a: int| #[trigger] post.can_r16(a) == pre.can_r16(a) by {
        lemma_mapper_pred_case(pre, post, i, a);
        lemma_mapper_pred_case(pre, post, i, a + 1);
        lemma_find_idx_same_ranges(pre.regions_seq(), post.regions_seq(), a + 1);
    }
    assert forall|a: int| #[trigger] post.can_w8(a) == pre.can_w8(a) by {
        lemma_mapper_pred_case(pre, post, i, a);
    }
    assert forall|a: int| #[trigger] post.can_w16(a) == pre.can_w16(a) by {
        lemma_mapper_pred_case(pre, post, i, a);
        lemma_find_idx_same_ranges(pre.regions_seq(), post.regions_seq(), a + 1);
    }
    assert forall|a: int| #[trigger] post.stores(a) == pre.stores(a) by {
        lemma_mapper_pred_case(pre, post, i, a);
    }
}

/// The region an address decodes to is either untouched or shape-equal.
proof fn lemma_mapper_pred_case(pre: MemoryMapper, post: MemoryMapper, i: int, a: int)
    requires
        0 <= i < pre.regions_seq().len(),
        post.regions_seq().len() == pre.regions_seq().len(),
        forall|j: int| 0 <= j < pre.regions_seq().len() && j != i ==> post.regions_seq()[j]
            == pre.regions_seq()[j],
        post.regions_seq()[i].start == pre.regions_seq()[i].start,
        post.regions_seq()[i].end == pre.regions_seq()[i].end,
        post.regions_seq()[i].remap == pre.regions_seq()[i].remap,
        device_shape_eq(pre.regions_seq()[i].device, post.regions_seq()[i].device),
    ensures
        post.sel(a) == pre.sel(a),
        pre.sel(a) >= 0 ==> {
            &&& pre.sel(a) < pre.regions_seq().len()
            &&& region_offset(post.regions_seq()[pre.sel(a)], a) == region_offset(
                pre.regions_seq()[pre.sel(a)],
                a,
            )
            &&& device_shape_eq(
                pre.regions_seq()[pre.sel(a)].device,
                post.regions_seq()[pre.sel(a)].device,
            )
        },
{
    lemma_find_idx_same_ranges(pre.regions_seq(), post.regions_seq(), a);
    lemma_find_idx_character(pre.regions_seq(), a);
    if pre.sel(a) >= 0 && pre.sel(a) != i {
        assert(post.regions_seq()[pre.sel(a)] == pre.regions_seq()[pre.sel(a)]);
    }
}

/// After a byte write through region i, every address still decodes the same
/// way, and only the written address's byte changed.
proof fn lemma_mapper_write_u8(pre: MemoryMapper, post: MemoryMapper, addr: int, value: u8, i: int)
    requires
        0 <= i < pre.regions_seq().len(),
        post.regions_seq().len() == pre.regions_seq().len(),
        find_idx(pre.regions_seq(), addr) == i,
        forall|j: int| 0 <= j < pre.regions_seq().len() && j != i ==> post.regions_seq()[j]
            == pre.regions_seq()[j],
        post.regions_seq()[i].start == pre.regions_seq()[i].start,
        post.regions_seq()[i].end == pre.regions_seq()[i].end,
        post.regions_seq()[i].remap == pre.regions_seq()[i].remap,
        device_shape_eq(pre.regions_seq()[i].device, post.regions_seq()[i].device),
        forall|a: int| #[trigger] post.regions_seq()[i].device.byte_at(a) == if a == region_offset(
            pre.regions_seq()[i],
            addr,
        ) {
            value
        } else {
            pre.regions_seq()[i].device.byte_at(a)
        },
    ensures
        mapper_shape_eq(pre, post),
        forall|a: int| #[trigger] post.byte_at(a) == if a == addr {
            value
        } else {
            pre.byte_at(a)
        },
{
    lemma_mapper_same_decode(pre, post, i);
    assert forall|a: int| #[trigger] post.byte_at(a) == if a == addr {
        value
    } else {
        pre.byte_at(a)
    } by {
        lemma_mapper_pred_case(pre, post, i, a);
        if pre.sel(a) >= 0 {
            let s = pre.sel(a);
            let off_a = region_offset(pre.regions_seq()[s], a);
            assert(post.byte_at(a) == post.regions_seq()[s].device.byte_at(off_a));
            if s == i {
                assert(post.regions_seq()[i].device.byte_at(off_a) == if off_a == region_offset(
                    pre.regions_seq()[i],
                    addr,
                ) {
                    value
                } else {
                    pre.regions_seq()[i].device.byte_at(off_a)
                });
                assert(off_a == region_offset(pre.regions_seq()[i], addr) <==> a == addr);
            } else {
                assert(a != addr);
            }
        }
    }
}

/// After a word write through region i, decoding is unchanged; if the device
/// stores bytes the big-endian pair changed and nothing else, and if it is a
/// sink no byte changed at all.
proof fn lemma_mapper_write_u16(
    pre: MemoryMapper,
    post: MemoryMapper,
    addr: int,
    value: u16,
    i: int,
)
    requires
        0 <= i < pre.regions_seq().len(),
        post.regions_seq().len() == pre.regions_seq().len(),
        find_idx(pre.regions_seq(), addr) == i,
        pre.can_w16(addr),
        forall|j: int| 0 <= j < pre.regions_seq().len() && j != i ==> post.regions_seq()[j]
            == pre.regions_seq()[j],
        post.regions_seq()[i].start == pre.regions_seq()[i].start,
        post.regions_seq()[i].end == pre.regions_seq()[i].end,
        post.regions_seq()[i].remap == pre.regions_seq()[i].remap,
        device_shape_eq(pre.regions_seq()[i].device, post.regions_seq()[i].device),
        pre.regions_seq()[i].device.stores(region_offset(pre.regions_seq()[i], addr))
            ==> forall|a: int| #[trigger] post.regions_seq()[i].device.byte_at(a)
            == if a == region_offset(pre.regions_seq()[i], addr) {
            crate::device::hi8(value)
        } else if a == region_offset(pre.regions_seq()[i], addr) + 1 {
            crate::device::lo8(value)
        } else {
            pre.regions_seq()[i].device.byte_at(a)
        },
        !pre.regions_seq()[i].device.stores(region_offset(pre.regions_seq()[i], addr))
            ==> forall|a: int| #[trigger] post.regions_seq()[i].device.byte_at(a)
            == pre.regions_seq()[i].device.byte_at(a),
    ensures
        mapper_shape_eq(pre, post),
        pre.stores(addr) ==> forall|a: int| #[trigger] post.byte_at(a) == if a == addr {
            crate::device::hi8(value)
        } else if a == addr + 1 {
            crate::device::lo8(value)
        } else {
            pre.byte_at(a)
        },
        !pre.stores(addr) ==> forall|a: int| #[trigger] post.byte_at(a) == pre.byte_at(a),
{
    lemma_mapper_same_decode(pre, post, i);
    let off = region_offset(pre.regions_seq()[i], addr);
    if pre.stores(addr) {
        assert forall|a: int| #[trigger] post.byte_at(a) == if a == addr {
            crate::device::hi8(value)
        } else if a == addr + 1 {
            crate::device::lo8(value)
        } else {
            pre.byte_at(a)
        } by {
            lemma_mapper_pred_case(pre, post, i, a);
            if pre.sel(a) >= 0 {
                let s = pre.sel(a);
                let off_a = region_offset(pre.regions_seq()[s], a);
                assert(post.byte_at(a) == post.regions_seq()[s].device.byte_at(off_a));
                if s == i {
                    assert(post.regions_seq()[i].device.byte_at(off_a) == if off_a == off {
                        crate::device::hi8(value)
                    } else if off_a == off + 1 {
                        crate::device::lo8(value)
                    } else {
                        pre.regions_seq()[i].device.byte_at(off_a)
                    });
                    assert(off_a == off <==> a == addr);
                    assert(off_a == off + 1 <==> a == addr + 1);
                } else {
                    assert(a != addr);
                    if a == addr + 1 {
                        assert(pre.sel(addr + 1) == pre.sel(addr));
                    }
                }
            } else {
                assert(a != addr);
                if a == addr + 1 {
                    assert(pre.sel(addr + 1) == pre.sel(addr));
                }
            }
        }
    } else {
        assert forall|a: int| #[trigger] post.byte_at(a) == pre.byte_at(a) by {
            lemma_mapper_pred_case(pre, post, i, a);
            if pre.sel(a) >= 0 {
                let s = pre.sel(a);
                let off_a = region_offset(pre.regions_seq()[s], a);
                assert(post.byte_at(a) == post.regions_seq()[s].device.byte_at(off_a));
            }
        }
    }
}


/// The region a fresh mapping covers wins every lookup in its range: a
/// mapped address always selects the most recently mapped region that
/// contains it, because mappings are prepended and lookup takes the first
/// containing region.
pub proof fn lemma_most_recent_mapping_wins(
    pre: MemoryMapper,
    post: MemoryMapper,
    device: MappedDevice,
    start: usize,
    end: usize,
    remap: bool,
    a: int,
)
    requires
        post.regions_seq() == seq![Region { device, start, end, remap }] + pre.regions_seq(),
        start <= a <= end,
    ensures
        post.sel(a) == 0,
        post.regions_seq()[post.sel(a)].device == device,
{
    assert(post.regions_seq()[0] == Region { device, start, end, remap });
    assert(region_contains(post.regions_seq()[0], a));
}

} // verus!
