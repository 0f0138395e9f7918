use vm16::device::banked_memory::BankedMemory;
use vm16::device::memory::Memory;
use vm16::device::memory_mapper::{MappedDevice, MemoryMapper};
use vm16::device::screen::{screen_command, Screen};
use vm16::device::Device;

#[test]
fn test_memory() {
    let mut mem = Memory::new(4);
    mem.set_u8(0, 12);
    assert_eq!(mem.get_u8(0), 12);
    mem.set_u16(2, 0x1234);
    assert_eq!(mem.get_u8(2), 0x12);
    assert_eq!(mem.get_u8(3), 0x34);
    assert_eq!(mem.get_u16(2), 0x1234);
}

#[test]
fn word_round_trip_everywhere() {
    let mut mem = Memory::new(0x100);
    let mut a: usize = 0;
    while a + 1 < 0x100 {
        let v = (a * 251 % 0x10000) as u16;
        mem.set_u16(a, v);
        assert_eq!(mem.get_u16(a), v);
        a += 1;
    }
}

#[test]
fn banked_windows_are_independent() {
    let mut bank = BankedMemory::new(4, 64);
    bank.set_u8(10, 0x11);
    bank.set_mb(1);
    assert_eq!(bank.get_u8(10), 0);
    bank.set_u8(10, 0x22);
    assert_eq!(bank.get_u8(10), 0x22);
    bank.set_mb(0);
    assert_eq!(bank.get_u8(10), 0x11);
    assert_eq!(bank.len(), 64);
}

#[test]
fn most_recent_mapping_wins() {
    let mut mm = MemoryMapper::new();
    let mut old = Memory::new(0x40);
    old.set_u8(5, 0xaa);
    mm.map(MappedDevice::Flat(old), 0x0, 0x3f, false);
    let mut new = Memory::new(0x40);
    new.set_u8(5, 0xbb);
    mm.map(MappedDevice::Flat(new), 0x0, 0x1f, false);
    assert_eq!(mm.get_u8(5), 0xbb);
    assert_eq!(mm.get_u8(0x25), 0);
    mm.set_u8(5, 0xcc);
    assert_eq!(mm.get_u8(5), 0xcc);
}

#[test]
fn remapped_region_is_rebased() {
    let mut mm = MemoryMapper::new();
    let mem = Memory::new(0x10);
    mm.map(MappedDevice::Flat(mem), 0x100, 0x10f, true);
    mm.set_u8(0x105, 0x42);
    assert_eq!(mm.get_u8(0x105), 0x42);
}

#[test]
fn screen_records_writes_in_order() {
    let mut screen = Screen::new();
    screen.set_u16(0, 0xff41);
    screen.set_u16(17, 0x0042);
    let writes = screen.take_writes();
    assert_eq!(writes, vec![(0, 0xff41), (17, 0x0042)]);

    let first = screen_command(0, 0xff41);
    assert!(first.clear);
    assert_eq!(first.character, 0x41);
    assert_eq!(first.column, 1);
    assert_eq!(first.row, 1);

    let second = screen_command(17, 0x0042);
    assert!(!second.clear);
    assert_eq!(second.character, 0x42);
    assert_eq!(second.column, 2);
    assert_eq!(second.row, 2);
}
