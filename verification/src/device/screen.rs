use vstd::prelude::*;

use crate::device::Device;

verus! {

/// Write-only terminal sink. A word written at an offset is recorded, in
/// order, for the front-end to paint; the device keeps no bytes, so reads
/// are never allowed.
pub struct Screen {
    writes: Vec<(usize, u16)>,
}

impl View for Screen {
    type V = Seq<(usize, u16)>;

    closed spec fn view(&self) -> Seq<(usize, u16)> {
        self.writes@
    }
}

/// What one word written to the screen asks the terminal to do: clear when
/// the high byte is 0xff, then paint the low byte as a character at the
/// column and row derived from the offset.
pub struct ScreenCommand {
    pub clear: bool,
    pub character: u8,
    pub column: usize,
    pub row: usize,
}

impl Screen {
    pub fn new() -> (r: Screen)
        ensures
            r@ == Seq::<(usize, u16)>::empty(),
    {
        Screen { writes: Vec::new() }
    }

    /// Hands the recorded writes out in the order they arrived.
    pub fn take_writes(&mut self) -> (r: Vec<(usize, u16)>)
        ensures
            r@ == old(self)@,
            final(self)@ == Seq::<(usize, u16)>::empty(),
    {
        let mut taken = Vec::new();
        core::mem::swap(&mut taken, &mut self.writes);
        taken
    }
}

/// The terminal command a write at `address` with `value` stands for.
pub open spec fn spec_screen_command(address: usize, value: u16) -> ScreenCommand {
    ScreenCommand {
        clear: value / 256 == 0xff,
        character: (value % 256) as u8,
        column: (address % 16 + 1) as usize,
        row: (address / 16 + 1) as usize,
    }
}

/// Decodes a recorded screen write into the terminal command it stands for.
pub fn screen_command(address: usize, value: u16) -> (r: ScreenCommand)
    requires
        address < 0xffff,
    ensures
        r == spec_screen_command(address, value),
{
    ScreenCommand {
        clear: value / 256 == 0xff,
        character: (value % 256) as u8,
        column: address % 16 + 1,
        row: address / 16 + 1,
    }
}

impl Device for Screen {
    open spec fn dlen(&self) -> nat {
        0
    }

    open spec fn byte_at(&self, addr: int) -> u8 {
        0
    }

    open spec fn can_r8(&self, addr: int) -> bool {
        false
    }

    open spec fn can_r16(&self, addr: int) -> bool {
        false
    }

    open spec fn can_w8(&self, addr: int) -> bool {
        false
    }

    open spec fn can_w16(&self, addr: int) -> bool {
        addr < 0xffff
    }

    open spec fn stores(&self, addr: int) -> bool {
        false
    }

    open spec fn sink_log(&self) -> Seq<(usize, u16)> {
        self@
    }

    open spec fn sink_recorded(pre: Screen, post: Screen, addr: int, value: u16) -> bool {
        post@ == pre@.push((addr as usize, value))
    }

    open spec fn mb_switched(pre: Screen, post: Screen, value: u16) -> bool {
        post@ == pre@
    }

    fn get_u8(&self, address: usize) -> (r: u8) {
        0
    }

    fn get_u16(&self, address: usize) -> (r: u16) {
        0
    }

    fn set_u8(&mut self, address: usize, value: u8) {
    }

    fn set_u16(&mut self, address: usize, value: u16) {
        self.writes.push((address, value));
    }

    fn len(&self) -> (r: usize) {
        0
    }

    fn set_mb(&mut self, value: u16) {
    }

    fn ok_r8(&self, address: usize) -> (b: bool) {
        false
    }

    fn ok_r16(&self, address: usize) -> (b: bool) {
        false
    }

    fn ok_w8(&self, address: usize) -> (b: bool) {
        false
    }

    fn ok_w16(&self, address: usize) -> (b: bool) {
        address < 0xffff
    }

    fn is_store(&self, address: usize) -> (b: bool) {
        false
    }
}

} // verus!
