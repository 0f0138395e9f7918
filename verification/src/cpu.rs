use vstd::prelude::*;

use crate::device::memory::Memory;
use crate::device::{hi8, lo8, word16, Device};
use vstd::wrapping::u16_specs;

pub mod instruction;
pub mod register;

verus! {

/// A fault that stops the machine: the reference semantics treats these as
/// fatal diagnostics rather than recoverable traps.
#[derive(Eq, PartialEq, Structural, Debug, Copy, Clone)]
pub enum RuntimeError {
    UnrecognizedOpcode(u8),
    AddressOutOfRange(u16),
    RegisterIndexOutOfRange(u8),
    StepLimitExceeded,
}

/// The 16-bit CPU: a register file kept as a small flat memory, a memory
/// device, the byte count pushed since the last frame boundary, and the
/// interrupt-handler flag.
pub struct CPU<M: Device> {
    memory: Box<M>,
    registers: Memory,
    stack_frame_size: u16,
    is_in_interrupt_handler: bool,
}

pub const INTERRUPT_VECTOR_ADDRESS: usize = 0x1000;

/// 16-bit wrapping addition, the CPU's arithmetic.
pub open spec fn wadd(x: u16, y: u16) -> u16 {
    u16_specs::wrapping_add(x, y)
}

/// 16-bit wrapping subtraction.
pub open spec fn wsub(x: u16, y: u16) -> u16 {
    u16_specs::wrapping_sub(x, y)
}

/// 16-bit wrapping multiplication.
pub open spec fn wmul(x: u16, y: u16) -> u16 {
    u16_specs::wrapping_mul(x, y)
}

/// The 16-bit word stored big-endian at offset `r` of a register file.
pub open spec fn get16(regs: Seq<u8>, r: int) -> u16 {
    word16(regs[r], regs[r + 1])
}

/// The register file with the 16-bit word at offset `r` replaced.
pub open spec fn set16(regs: Seq<u8>, r: int, value: u16) -> Seq<u8> {
    regs.update(r, hi8(value)).update(r + 1, lo8(value))
}

/// The big-endian word a device shows at an address.
pub open spec fn mem16<M: Device>(dev: M, a: int) -> u16 {
    word16(dev.byte_at(a), dev.byte_at(a + 1))
}

/// A write changes no usability predicate and no advertised length.
pub open spec fn dev_shape_eq<M: Device>(pre: M, post: M) -> bool {
    &&& post.dlen() == pre.dlen()
    &&& forall|a: int| #[trigger] post.can_r8(a) == pre.can_r8(a)
    &&& forall|a: int| #[trigger] post.can_r16(a) == pre.can_r16(a)
    &&& forall|a: int| #[trigger] post.can_w8(a) == pre.can_w8(a)
    &&& forall|a: int| #[trigger] post.can_w16(a) == pre.can_w16(a)
    &&& forall|a: int| #[trigger] post.stores(a) == pre.stores(a)
}

/// Exactly what one big-endian word write does to a device: the pair at
/// `addr` changes where the device stores bytes there, and nothing else.
pub open spec fn wrote16<M: Device>(pre: M, post: M, addr: int, value: u16) -> bool {
    &&& dev_shape_eq(pre, post)
    &&& pre.stores(addr) ==> forall|a: int|
        #[trigger] post.byte_at(a) == if a == addr {
            hi8(value)
        } else if a == addr + 1 {
            lo8(value)
        } else {
            pre.byte_at(a)
        }
    &&& !pre.stores(addr) ==> forall|a: int| #[trigger] post.byte_at(a) == pre.byte_at(a)
    &&& pre.stores(addr) ==> post.sink_log() == pre.sink_log()
    &&& !pre.stores(addr) ==> M::sink_recorded(pre, post, addr, value)
}

/// Reading back the pair just written yields the written word.
pub proof fn lemma_get16_set16_same(regs: Seq<u8>, r: int, value: u16)
    requires
        regs.len() == 28,
        0 <= r,
        r + 1 < 28,
    ensures
        get16(set16(regs, r, value), r) == value,
{
    crate::device::lemma_word16_split(value);
}

/// A word write leaves every disjoint word slot unchanged.
pub proof fn lemma_get16_set16_ne(regs: Seq<u8>, r: int, value: u16, s: int)
    requires
        regs.len() == 28,
        0 <= r,
        r + 1 < 28,
        0 <= s,
        s + 1 < 28,
        s + 1 < r || r + 1 < s,
    ensures
        get16(set16(regs, r, value), s) == get16(regs, s),
{
}

/// Writing a word slot twice keeps only the second write.
pub proof fn lemma_set16_absorb(regs: Seq<u8>, r: int, v1: u16, v2: u16)
    requires
        regs.len() == 28,
        0 <= r,
        r + 1 < 28,
    ensures
        set16(set16(regs, r, v1), r, v2) == set16(regs, r, v2),
{
    assert(set16(set16(regs, r, v1), r, v2) =~= set16(regs, r, v2));
}

/// A word write to an even slot: the slot reads back, all other even slots
/// are untouched.
pub proof fn lemma_word_slots(regs: Seq<u8>, r: int, value: u16)
    requires
        regs.len() == 28,
        0 <= r,
        r + 1 < 28,
        r % 2 == 0,
    ensures
        get16(set16(regs, r, value), r) == value,
        forall|s: int| 0 <= s <= 26 && s % 2 == 0 && s != r ==> #[trigger] get16(
            set16(regs, r, value),
            s,
        ) == get16(regs, s),
{
    lemma_get16_set16_same(regs, r, value);
    assert forall|s: int| 0 <= s <= 26 && s % 2 == 0 && s != r implies #[trigger] get16(
        set16(regs, r, value),
        s,
    ) == get16(regs, s) by {
        lemma_get16_set16_ne(regs, r, value, s);
    }
}

/// The byte a device shows at a 16-bit address.
pub open spec fn rd8<M: Device>(d: M, a: u16) -> u8 {
    d.byte_at(a as int)
}

/// The big-endian word a device shows at a 16-bit address.
pub open spec fn rd16<M: Device>(d: M, a: u16) -> u16 {
    mem16(d, a as int)
}

/// 16-bit shift left; the shift amount is taken modulo 16.
pub open spec fn wshl(x: u16, y: u16) -> u16 {
    u16_specs::wrapping_shl(x, y as u32)
}

/// 16-bit shift right; the shift amount is taken modulo 16.
pub open spec fn wshr(x: u16, y: u16) -> u16 {
    u16_specs::wrapping_shr(x, y as u32)
}

/// Whether software interrupt `n` is enabled under interrupt mask `im`.
pub open spec fn int_enabled(im: u16, n: u16) -> bool {
    n < 16 && (im >> n) & 1 == 1
}

/// The byte pair at `addr` holds exactly this register-file word update.
proof fn lemma_mem_pair_update(pre: Memory, post: Memory, addr: int, value: u16)
    requires
        pre@.len() == post@.len(),
        0 <= addr,
        addr + 1 < pre@.len(),
        forall|a: int| #[trigger] post.byte_at(a) == if a == addr {
            hi8(value)
        } else if a == addr + 1 {
            lo8(value)
        } else {
            pre.byte_at(a)
        },
    ensures
        post@ == set16(pre@, addr, value),
{
    assert forall|i: int| 0 <= i < post@.len() implies post@[i] == set16(pre@, addr, value)[i] by {
        assert(post.byte_at(i) == if i == addr {
            hi8(value)
        } else if i == addr + 1 {
            lo8(value)
        } else {
            pre.byte_at(i)
        });
    }
    assert(post@ =~= set16(pre@, addr, value));
}


/// Pulls one saved general-purpose register slot out of the quantified
/// frame description.
proof fn lemma_pull_push_slot<M: Device>(d: M, sp0: int, pre: CPU<M>, k: int)
    requires
        0 <= k < 8,
        forall|j: int| 0 <= j < 8 ==> #[trigger] mem16(d, sp0 - 2 * j) == pre.reg16(4 + 2 * j),
    ensures
        mem16(d, sp0 - 2 * k) == pre.reg16(4 + 2 * k),
{
}

/// Pulls one restored register out of the quantified frame description.
proof fn lemma_pull_pop_slot<M: Device>(c: CPU<M>, d: M, fp0: int, i: int)
    requires
        0 <= i < 8,
        forall|j: int| 0 <= j < 8 ==> #[trigger] c.reg16(18 - 2 * j) == mem16(d, fp0 + 6 + 2 * j),
    ensures
        c.reg16(18 - 2 * i) == mem16(d, fp0 + 6 + 2 * i),
{
}

/// The register file after `n` operand bytes have been fetched: IP has
/// advanced by `n`, wrapping, and nothing else moved.
pub open spec fn after_fetch(regs1: Seq<u8>, n: u16) -> Seq<u8> {
    set16(regs1, 0, wadd(get16(regs1, 0), n))
}

/// The effect of writing register `t` through the register writer that
/// forwards bank-register writes to memory.
pub open spec fn reg_write_rel<M: Device>(
    base: Seq<u8>,
    d: M,
    frame: u16,
    flag: bool,
    post: CPU<M>,
    t: int,
    v: u16,
) -> bool {
    &&& post.regs() == set16(base, t, v)
    &&& post.frame() == frame
    &&& post.flag() == flag
    &&& (t == 24 ==> M::mb_switched(d, post.dev(), v))
    &&& (t == 24 ==> post.dev().sink_log() == d.sink_log())
    &&& (t != 24 ==> post.dev() == d)
}

/// The effect of writing register `t` directly into the register file,
/// without the bank-register side effect.
pub open spec fn plain_write_rel<M: Device>(
    base: Seq<u8>,
    d: M,
    frame: u16,
    flag: bool,
    post: CPU<M>,
    t: int,
    v: u16,
) -> bool {
    &&& post.regs() == set16(base, t, v)
    &&& post.frame() == frame
    &&& post.flag() == flag
    &&& post.dev() == d
}

/// Saving a context may happen: the stack has room and stores bytes.
pub open spec fn push_state_ok<M: Device>(regs1: Seq<u8>, d: M) -> bool {
    let sp = get16(regs1, 20);
    &&& sp >= 18
    &&& forall|a: int| sp - 18 <= a <= sp ==> #[trigger] d.can_w16(a)
    &&& forall|a: int| sp - 18 <= a <= sp ==> #[trigger] d.stores(a)
}

/// What a saved context looks like in memory: the general-purpose
/// registers, the return address, and the closing frame size, below `SP`.
pub open spec fn saved_frame_dev<M: Device>(
    regs1: Seq<u8>,
    d: M,
    post_dev: M,
    retip: u16,
    frame: u16,
) -> bool {
    let sp = get16(regs1, 20) as int;
    &&& dev_shape_eq(d, post_dev)
    &&& post_dev.sink_log() == d.sink_log()
    &&& forall|a: int| !(sp - 18 <= a <= sp + 1) ==> #[trigger] post_dev.byte_at(a) == d.byte_at(a)
    &&& mem16(post_dev, sp) == get16(regs1, 4)
    &&& mem16(post_dev, sp - 2) == get16(regs1, 6)
    &&& mem16(post_dev, sp - 4) == get16(regs1, 8)
    &&& mem16(post_dev, sp - 6) == get16(regs1, 10)
    &&& mem16(post_dev, sp - 8) == get16(regs1, 12)
    &&& mem16(post_dev, sp - 10) == get16(regs1, 14)
    &&& mem16(post_dev, sp - 12) == get16(regs1, 16)
    &&& mem16(post_dev, sp - 14) == get16(regs1, 18)
    &&& mem16(post_dev, sp - 16) == retip
    &&& mem16(post_dev, sp - 18) == wadd(frame, 20)
}

/// The register file after a call: `SP` and `FP` moved below the saved
/// context, `IP` is at the call target, and all else is untouched.
pub open spec fn call_regs_rel<M: Device>(regs1: Seq<u8>, post: CPU<M>, target: u16) -> bool {
    let sp = get16(regs1, 20);
    &&& post.regs().len() == 28
    &&& post.reg16(20) == wsub(sp, 20)
    &&& post.reg16(22) == wsub(sp, 20)
    &&& post.reg16(0) == target
    &&& forall|s: int| 2 <= s <= 26 && s % 2 == 0 && s != 20 && s != 22 ==> #[trigger] post.reg16(
        s,
    ) == get16(regs1, s)
}

/// A return may happen: the saved context at `FP` can be read back.
pub open spec fn pop_state_ok<M: Device>(regs1: Seq<u8>, d: M) -> bool {
    let fp = get16(regs1, 22);
    &&& fp + 21 <= 0xffff
    &&& forall|a: int| fp + 2 <= a <= fp + 20 ==> #[trigger] d.can_r16(a)
}

/// The register file after a return: the saved frame size, IP, and
/// R8..R1 read back from the frame at `FP`, `SP` above the frame, and
/// `FP` rebased onto the previous frame.
pub open spec fn ret_rel<M: Device>(regs1: Seq<u8>, d: M, flag: bool, post: CPU<M>) -> bool {
    let fp = get16(regs1, 22) as int;
    &&& post.regs().len() == 28
    &&& post.dev() == d
    &&& post.flag() == flag
    &&& post.reg16(20) == wadd(get16(regs1, 22), 20)
    &&& post.reg16(0) == mem16(d, fp + 4)
    &&& post.reg16(4) == mem16(d, fp + 20)
    &&& post.reg16(6) == mem16(d, fp + 18)
    &&& post.reg16(8) == mem16(d, fp + 16)
    &&& post.reg16(10) == mem16(d, fp + 14)
    &&& post.reg16(12) == mem16(d, fp + 12)
    &&& post.reg16(14) == mem16(d, fp + 10)
    &&& post.reg16(16) == mem16(d, fp + 8)
    &&& post.reg16(18) == mem16(d, fp + 6)
    &&& post.reg16(22) == wadd(get16(regs1, 22), mem16(d, fp + 2))
    &&& post.reg16(2) == get16(regs1, 2)
    &&& post.reg16(24) == get16(regs1, 24)
    &&& post.reg16(26) == get16(regs1, 26)
    &&& post.frame() == wsub(mem16(d, fp + 2), 18)
}

/// No machine fault: the operand bytes and every address the instruction
/// touches can be accessed, and fetched register offsets fit the file.
pub open spec fn exec_ok_core<M: Device>(
    regs1: Seq<u8>,
    d: M,
    frame: u16,
    flag: bool,
    op: u8,
) -> bool {
    let p = get16(regs1, 0);
    if op == 0x09 {  // MOVE_LIT_MEM
        d.can_r16(p as int) && d.can_r16(wadd(p, 2) as int) && d.can_w16(
            rd16(d, wadd(p, 2)) as int,
        )
    } else if op == 0x10 {  // MOVE_LIT_REG
        d.can_r16(p as int) && d.can_r8(wadd(p, 2) as int) && rd8(d, wadd(p, 2)) < 27
    } else if op == 0x11 || op == 0x14 || op == 0x33 || op == 0x35 || op == 0x41 || op == 0x43
        || op == 0x45 || op == 0x47 || op == 0x49 {  // reg, reg
        d.can_r8(p as int) && d.can_r8(wadd(p, 1) as int) && rd8(d, p) < 27 && rd8(
            d,
            wadd(p, 1),
        ) < 27
    } else if op == 0x1c {  // MOVE_REG_PTR_REG
        let base = after_fetch(regs1, 2);
        d.can_r8(p as int) && d.can_r8(wadd(p, 1) as int) && rd8(d, p) < 27 && rd8(d, wadd(p, 1))
            < 27 && d.can_r16(get16(base, rd8(d, p) as int) as int)
    } else if op == 0x1d {  // MOVE_LIT_OFF_REG
        let base = after_fetch(regs1, 4);
        d.can_r16(p as int) && d.can_r8(wadd(p, 2) as int) && d.can_r8(wadd(p, 3) as int) && rd8(
            d,
            wadd(p, 2),
        ) < 27 && rd8(d, wadd(p, 3)) < 27 && d.can_r16(
            wadd(get16(base, rd8(d, wadd(p, 2)) as int), rd16(d, p)) as int,
        )
    } else if op == 0x12 {  // MOVE_REG_MEM
        d.can_r8(p as int) && rd8(d, p) < 27 && d.can_r16(wadd(p, 1) as int) && d.can_w16(
            rd16(d, wadd(p, 1)) as int,
        )
    } else if op == 0x13 {  // MOVE_MEM_REG
        d.can_r16(p as int) && d.can_r8(wadd(p, 2) as int) && rd8(d, wadd(p, 2)) < 27 && d.can_r16(
            rd16(d, p) as int,
        )
    } else if op == 0x30 || op == 0x31 || op == 0x34 {  // lit, reg
        d.can_r16(p as int) && d.can_r8(wadd(p, 2) as int) && rd8(d, wadd(p, 2)) < 27
    } else if op == 0x32 || op == 0x40 || op == 0x42 || op == 0x44 || op == 0x46 || op == 0x48 {
        // reg, lit
        d.can_r8(p as int) && rd8(d, p) < 27 && d.can_r16(wadd(p, 1) as int)
    } else if op == 0x36 || op == 0x37 || op == 0x4a {  // reg only
        d.can_r8(p as int) && rd8(d, p) < 27
    } else if op == 0x50 || op == 0x52 || op == 0x54 || op == 0x56 || op == 0x58 || op == 0x5a {
        // jump lit, mem
        d.can_r16(p as int) && d.can_r16(wadd(p, 2) as int)
    } else if op == 0x51 || op == 0x53 || op == 0x55 || op == 0x57 || op == 0x59 || op == 0x5b {
        // jump reg, mem
        d.can_r8(p as int) && rd8(d, p) < 27 && d.can_r16(wadd(p, 1) as int)
    } else if op == 0x16 {  // PSH_LIT
        d.can_r16(p as int) && d.can_w16(get16(regs1, 20) as int)
    } else if op == 0x17 {  // PSH_REG
        d.can_r8(p as int) && rd8(d, p) < 27 && d.can_w16(get16(regs1, 20) as int)
    } else if op == 0x18 {  // POP_REG
        d.can_r8(p as int) && rd8(d, p) < 27 && d.can_r16(wadd(get16(regs1, 20), 2) as int)
    } else if op == 0x19 {  // CAL_LIT
        d.can_r16(p as int) && push_state_ok(after_fetch(regs1, 2), d)
    } else if op == 0x1a {  // CAL_REG
        d.can_r8(p as int) && rd8(d, p) < 27 && push_state_ok(after_fetch(regs1, 1), d)
    } else if op == 0x1b {  // RET
        pop_state_ok(regs1, d)
    } else if op == 0xfd {  // INT
        let n = rd16(d, p);
        d.can_r16(p as int) && (int_enabled(get16(regs1, 26), n) ==> d.can_r16(0x1000 + 2 * n)
            && (!flag ==> push_state_ok(after_fetch(regs1, 2), d)))
    } else if op == 0xfc {  // RET_INT
        d.can_r16(wadd(get16(regs1, 20), 2) as int)
    } else {
        op == 0xff  // HLT
    }
}

/// What executing one decoded instruction does: per opcode, exactly how
/// the register file, the memory, the frame counter, and the interrupt
/// flag change, and whether the machine halts.
pub open spec fn exec_rel_core<M: Device>(
    regs1: Seq<u8>,
    d: M,
    frame: u16,
    flag: bool,
    op: u8,
    post: CPU<M>,
    halt: bool,
) -> bool {
    let p = get16(regs1, 0);
    if op == 0xff {  // HLT
        halt && post.regs() == regs1 && post.dev() == d && post.frame() == frame && post.flag()
            == flag
    } else {
        !halt && if op == 0x09 {  // MOVE_LIT_MEM
            let base = after_fetch(regs1, 4);
            post.regs() == base && wrote16(d, post.dev(), rd16(d, wadd(p, 2)) as int, rd16(d, p))
                && post.frame() == frame && post.flag() == flag
        } else if op == 0x10 {  // MOVE_LIT_REG
            reg_write_rel(
                after_fetch(regs1, 3),
                d,
                frame,
                flag,
                post,
                rd8(d, wadd(p, 2)) as int,
                rd16(d, p),
            )
        } else if op == 0x11 {  // MOVE_REG_REG
            let base = after_fetch(regs1, 2);
            reg_write_rel(
                base,
                d,
                frame,
                flag,
                post,
                rd8(d, wadd(p, 1)) as int,
                get16(base, rd8(d, p) as int),
            )
        } else if op == 0x1c {  // MOVE_REG_PTR_REG
            let base = after_fetch(regs1, 2);
            reg_write_rel(
                base,
                d,
                frame,
                flag,
                post,
                rd8(d, wadd(p, 1)) as int,
                rd16(d, get16(base, rd8(d, p) as int)),
            )
        } else if op == 0x1d {  // MOVE_LIT_OFF_REG
            let base = after_fetch(regs1, 4);
            reg_write_rel(
                base,
                d,
                frame,
                flag,
                post,
                rd8(d, wadd(p, 3)) as int,
                rd16(d, wadd(get16(base, rd8(d, wadd(p, 2)) as int), rd16(d, p))),
            )
        } else if op == 0x12 {  // MOVE_REG_MEM
            let base = after_fetch(regs1, 3);
            post.regs() == base && wrote16(
                d,
                post.dev(),
                rd16(d, wadd(p, 1)) as int,
                get16(base, rd8(d, p) as int),
            ) && post.frame() == frame && post.flag() == flag
        } else if op == 0x13 {  // MOVE_MEM_REG
            reg_write_rel(
                after_fetch(regs1, 3),
                d,
                frame,
                flag,
                post,
                rd8(d, wadd(p, 2)) as int,
                rd16(d, rd16(d, p)),
            )
        } else if op == 0x14 {  // ADD_REG_REG
            let base = after_fetch(regs1, 2);
            reg_write_rel(
                base,
                d,
                frame,
                flag,
                post,
                2,
                wadd(get16(base, rd8(d, p) as int), get16(base, rd8(d, wadd(p, 1)) as int)),
            )
        } else if op == 0x30 {  // ADD_LIT_REG
            let base = after_fetch(regs1, 3);
            reg_write_rel(
                base,
                d,
                frame,
                flag,
                post,
                2,
                wadd(get16(base, rd8(d, wadd(p, 2)) as int), rd16(d, p)),
            )
        } else if op == 0x31 {  // SUB_LIT_REG
            let base = after_fetch(regs1, 3);
            reg_write_rel(
                base,
                d,
                frame,
                flag,
                post,
                2,
                wsub(rd16(d, p), get16(base, rd8(d, wadd(p, 2)) as int)),
            )
        } else if op == 0x32 {  // SUB_REG_LIT
            let base = after_fetch(regs1, 3);
            reg_write_rel(
                base,
                d,
                frame,
                flag,
                post,
                2,
                wsub(get16(base, rd8(d, p) as int), rd16(d, wadd(p, 1))),
            )
        } else if op == 0x33 {  // SUB_REG_REG
            let base = after_fetch(regs1, 2);
            reg_write_rel(
                base,
                d,
                frame,
                flag,
                post,
                2,
                wsub(get16(base, rd8(d, p) as int), get16(base, rd8(d, wadd(p, 1)) as int)),
            )
        } else if op == 0x34 {  // MUL_LIT_REG
            let base = after_fetch(regs1, 3);
            reg_write_rel(
                base,
                d,
                frame,
                flag,
                post,
                2,
                wmul(rd16(d, p), get16(base, rd8(d, wadd(p, 2)) as int)),
            )
        } else if op == 0x35 {  // MUL_REG_REG
            let base = after_fetch(regs1, 2);
            reg_write_rel(
                base,
                d,
                frame,
                flag,
                post,
                2,
                wmul(get16(base, rd8(d, p) as int), get16(base, rd8(d, wadd(p, 1)) as int)),
            )
        } else if op == 0x36 {  // INC_REG
            let base = after_fetch(regs1, 1);
            plain_write_rel(
                base,
                d,
                frame,
                flag,
                post,
                rd8(d, p) as int,
                wadd(get16(base, rd8(d, p) as int), 1),
            )
        } else if op == 0x37 {  // DEC_REG
            let base = after_fetch(regs1, 1);
            plain_write_rel(
                base,
                d,
                frame,
                flag,
                post,
                rd8(d, p) as int,
                wsub(get16(base, rd8(d, p) as int), 1),
            )
        } else if op == 0x41 {  // LSF_REG_REG
            let base = after_fetch(regs1, 2);
            plain_write_rel(
                base,
                d,
                frame,
                flag,
                post,
                rd8(d, p) as int,
                wshl(get16(base, rd8(d, p) as int), get16(base, rd8(d, wadd(p, 1)) as int)),
            )
        } else if op == 0x40 {  // LSF_REG_LIT8
            let base = after_fetch(regs1, 3);
            plain_write_rel(
                base,
                d,
                frame,
                flag,
                post,
                rd8(d, p) as int,
                wshl(get16(base, rd8(d, p) as int), rd16(d, wadd(p, 1))),
            )
        } else if op == 0x43 {  // RSF_REG_REG
            let base = after_fetch(regs1, 2);
            plain_write_rel(
                base,
                d,
                frame,
                flag,
                post,
                rd8(d, p) as int,
                wshr(get16(base, rd8(d, p) as int), get16(base, rd8(d, wadd(p, 1)) as int)),
            )
        } else if op == 0x42 {  // RSF_REG_LIT8
            let base = after_fetch(regs1, 3);
            plain_write_rel(
                base,
                d,
                frame,
                flag,
                post,
                rd8(d, p) as int,
                wshr(get16(base, rd8(d, p) as int), rd16(d, wadd(p, 1))),
            )
        } else if op == 0x45 {  // AND_REG_REG
            let base = after_fetch(regs1, 2);
            plain_write_rel(
                base,
                d,
                frame,
                flag,
                post,
                2,
                get16(base, rd8(d, p) as int) & get16(base, rd8(d, wadd(p, 1)) as int),
            )
        } else if op == 0x44 {  // AND_REG_LIT
            let base = after_fetch(regs1, 3);
            plain_write_rel(
                base,
                d,
                frame,
                flag,
                post,
                2,
                get16(base, rd8(d, p) as int) & rd16(d, wadd(p, 1)),
            )
        } else if op == 0x47 {  // OR_REG_REG
            let base = after_fetch(regs1, 2);
            plain_write_rel(
                base,
                d,
                frame,
                flag,
                post,
                2,
                get16(base, rd8(d, p) as int) | get16(base, rd8(d, wadd(p, 1)) as int),
            )
        } else if op == 0x46 {  // OR_REG_LIT
            let base = after_fetch(regs1, 3);
            plain_write_rel(
                base,
                d,
                frame,
                flag,
                post,
                2,
                get16(base, rd8(d, p) as int) | rd16(d, wadd(p, 1)),
            )
        } else if op == 0x49 {  // XOR_REG_REG
            let base = after_fetch(regs1, 2);
            plain_write_rel(
                base,
                d,
                frame,
                flag,
                post,
                2,
                get16(base, rd8(d, p) as int) ^ get16(base, rd8(d, wadd(p, 1)) as int),
            )
        } else if op == 0x48 {  // XOR_REG_LIT
            let base = after_fetch(regs1, 3);
            plain_write_rel(
                base,
                d,
                frame,
                flag,
                post,
                2,
                get16(base, rd8(d, p) as int) ^ rd16(d, wadd(p, 1)),
            )
        } else if op == 0x4a {  // NOT_REG
            let base = after_fetch(regs1, 1);
            plain_write_rel(base, d, frame, flag, post, 2, !get16(base, rd8(d, p) as int))
        } else if op == 0x50 || op == 0x52 || op == 0x54 || op == 0x56 || op == 0x58 || op == 0x5a {
            // conditional jumps against a literal
            let base = after_fetch(regs1, 4);
            let lit = rd16(d, p);
            let addr = rd16(d, wadd(p, 2));
            let acc = get16(regs1, 2);
            let taken = jump_taken(op, acc, lit);
            post.regs() == (if taken {
                set16(base, 0, addr)
            } else {
                base
            }) && post.dev() == d && post.frame() == frame && post.flag() == flag
        } else if op == 0x51 || op == 0x53 || op == 0x55 || op == 0x57 || op == 0x59 || op == 0x5b {
            // conditional jumps against a register
            let base = after_fetch(regs1, 3);
            let v = get16(base, rd8(d, p) as int);
            let addr = rd16(d, wadd(p, 1));
            let acc = get16(regs1, 2);
            let taken = jump_taken(op, acc, v);
            post.regs() == (if taken {
                set16(base, 0, addr)
            } else {
                base
            }) && post.dev() == d && post.frame() == frame && post.flag() == flag
        } else if op == 0x16 {  // PSH_LIT
            let base = after_fetch(regs1, 2);
            let sp = get16(regs1, 20);
            post.regs() == set16(base, 20, wsub(sp, 2)) && wrote16(
                d,
                post.dev(),
                sp as int,
                rd16(d, p),
            ) && post.frame() == wadd(frame, 2) && post.flag() == flag
        } else if op == 0x17 {  // PSH_REG
            let base = after_fetch(regs1, 1);
            let sp = get16(regs1, 20);
            post.regs() == set16(base, 20, wsub(sp, 2)) && wrote16(
                d,
                post.dev(),
                sp as int,
                get16(base, rd8(d, p) as int),
            ) && post.frame() == wadd(frame, 2) && post.flag() == flag
        } else if op == 0x18 {  // POP_REG
            let base = after_fetch(regs1, 1);
            let sp = get16(regs1, 20);
            reg_write_rel(
                set16(base, 20, wadd(sp, 2)),
                d,
                wsub(frame, 2),
                flag,
                post,
                rd8(d, p) as int,
                rd16(d, wadd(sp, 2)),
            )
        } else if op == 0x19 {  // CAL_LIT
            let base = after_fetch(regs1, 2);
            saved_frame_dev(base, d, post.dev(), wadd(p, 2), frame) && call_regs_rel(
                base,
                post,
                rd16(d, p),
            ) && post.frame() == 0 && post.flag() == flag
        } else if op == 0x1a {  // CAL_REG
            let base = after_fetch(regs1, 1);
            saved_frame_dev(base, d, post.dev(), wadd(p, 1), frame) && call_regs_rel(
                base,
                post,
                get16(base, rd8(d, p) as int),
            ) && post.frame() == 0 && post.flag() == flag
        } else if op == 0x1b {  // RET
            ret_rel(regs1, d, flag, post)
        } else if op == 0xfd {  // INT
            let base = after_fetch(regs1, 2);
            let n = rd16(d, p);
            if !int_enabled(get16(regs1, 26), n) {
                post.regs() == base && post.dev() == d && post.frame() == frame && post.flag()
                    == flag
            } else {
                let target = rd16(d, (0x1000 + 2 * n) as u16);
                if flag {
                    post.regs() == set16(base, 0, target) && post.dev() == d && post.frame()
                        == frame && post.flag()
                } else {
                    saved_frame_dev(base, d, post.dev(), wadd(p, 2), frame) && call_regs_rel(
                        base,
                        post,
                        target,
                    ) && post.frame() == 0 && post.flag()
                }
            }
        } else if op == 0xfc {  // RET_INT
            post.regs() == set16(regs1, 20, wadd(get16(regs1, 20), 2)) && post.dev() == d
                && post.frame() == wsub(frame, 2) && !post.flag()
        } else {
            false
        }
    }
}


/// After writing `IP` on top of a register file known only word-wise, the
/// other word slots keep their values.
proof fn lemma_word_slots_unknown<M: Device>(mid: CPU<M>, post: CPU<M>, target: u16)
    requires
        mid.wf(),
        post.wf(),
        post.regs() == set16(mid.regs(), 0, target),
    ensures
        post.reg16(0) == target,
        forall|s: int| 2 <= s <= 26 && s % 2 == 0 ==> #[trigger] post.reg16(s) == mid.reg16(s),
{
    lemma_word_slots(mid.regs(), 0, target);
}


/// The opcodes of the instruction table.
pub open spec fn known_opcode(op: u8) -> bool {
    ||| op == 0x09
    ||| op == 0x10
    ||| op == 0x11
    ||| op == 0x12
    ||| op == 0x13
    ||| op == 0x14
    ||| op == 0x16
    ||| op == 0x17
    ||| op == 0x18
    ||| op == 0x19
    ||| op == 0x1a
    ||| op == 0x1b
    ||| op == 0x1c
    ||| op == 0x1d
    ||| op == 0x30
    ||| op == 0x31
    ||| op == 0x32
    ||| op == 0x33
    ||| op == 0x34
    ||| op == 0x35
    ||| op == 0x36
    ||| op == 0x37
    ||| op == 0x40
    ||| op == 0x41
    ||| op == 0x42
    ||| op == 0x43
    ||| op == 0x44
    ||| op == 0x45
    ||| op == 0x46
    ||| op == 0x47
    ||| op == 0x48
    ||| op == 0x49
    ||| op == 0x4a
    ||| op == 0x50
    ||| op == 0x51
    ||| op == 0x52
    ||| op == 0x53
    ||| op == 0x54
    ||| op == 0x55
    ||| op == 0x56
    ||| op == 0x57
    ||| op == 0x58
    ||| op == 0x59
    ||| op == 0x5a
    ||| op == 0x5b
    ||| op == 0xfc
    ||| op == 0xfd
    ||| op == 0xff
}

/// Whether a conditional jump against `ACC` is taken.
pub open spec fn jump_taken(op: u8, acc: u16, v: u16) -> bool {
    if op == 0x50 || op == 0x51 {
        acc != v
    } else if op == 0x52 || op == 0x53 {
        acc == v
    } else if op == 0x54 || op == 0x55 {
        acc > v
    } else if op == 0x56 || op == 0x57 {
        acc < v
    } else if op == 0x58 || op == 0x59 {
        acc >= v
    } else {
        acc <= v
    }
}


/// Handling an enabled interrupt may go ahead: the vector entry is
/// readable, and the context can be saved when no handler is running.
pub open spec fn int_ok<M: Device>(regs1: Seq<u8>, d: M, flag: bool, n: u16) -> bool {
    int_enabled(get16(regs1, 26), n) ==> d.can_r16(0x1000 + 2 * n) && (!flag ==> push_state_ok(
        regs1,
        d,
    ))
}

/// What raising software interrupt `n` does: nothing when masked; a jump
/// into the handler, saving the context first unless one is running.
pub open spec fn int_rel<M: Device>(
    regs1: Seq<u8>,
    d: M,
    frame: u16,
    flag: bool,
    n: u16,
    post: CPU<M>,
) -> bool {
    if !int_enabled(get16(regs1, 26), n) {
        post.regs() == regs1 && post.dev() == d && post.frame() == frame && post.flag() == flag
    } else {
        let target = rd16(d, (0x1000 + 2 * n) as u16);
        if flag {
            post.regs() == set16(regs1, 0, target) && post.dev() == d && post.frame() == frame
                && post.flag()
        } else {
            saved_frame_dev(regs1, d, post.dev(), get16(regs1, 0), frame) && call_regs_rel(
                regs1,
                post,
                target,
            ) && post.frame() == 0 && post.flag()
        }
    }
}


/// One whole fetch-and-execute step may go ahead: the opcode byte is
/// readable and the decoded instruction faults nowhere.
pub open spec fn step_ok<M: Device>(pre: CPU<M>) -> bool {
    &&& pre.dev().can_r8(pre.ip() as int)
    &&& exec_ok_core(
        after_fetch(pre.regs(), 1),
        pre.dev(),
        pre.frame(),
        pre.flag(),
        rd8(pre.dev(), pre.ip()),
    )
}

/// One whole fetch-and-execute step: the opcode byte at `IP` was read,
/// and the machine moved exactly as that instruction prescribes.
pub open spec fn step_rel<M: Device>(pre: CPU<M>, post: CPU<M>, halt: bool) -> bool {
    &&& pre.dev().can_r8(pre.ip() as int)
    &&& exec_rel_core(
        after_fetch(pre.regs(), 1),
        pre.dev(),
        pre.frame(),
        pre.flag(),
        rd8(pre.dev(), pre.ip()),
        post,
        halt,
    )
}

/// A complete run: a chain of non-halting steps ending in one halting step.
pub open spec fn run_trace<M: Device>(first: CPU<M>, last: CPU<M>, tr: Seq<CPU<M>>) -> bool {
    &&& tr.len() >= 2
    &&& tr[0] == first
    &&& tr[tr.len() - 1] == last
    &&& forall|i: int| 0 <= i < tr.len() - 2 ==> #[trigger] step_rel(tr[i], tr[i + 1], false)
    &&& step_rel(tr[tr.len() - 2], tr[tr.len() - 1], true)
}

/// A faulted run: a chain of non-halting steps from the start to a state
/// whose next instruction cannot execute.
pub open spec fn faulted_trace<M: Device>(first: CPU<M>, tr: Seq<CPU<M>>) -> bool {
    &&& tr.len() >= 1
    &&& tr[0] == first
    &&& forall|i: int| 0 <= i < tr.len() - 1 ==> #[trigger] step_rel(tr[i], tr[i + 1], false)
    &&& !step_ok(tr[tr.len() - 1])
}

/// A stalled run: the whole step budget spent on non-halting steps.
pub open spec fn stalled_trace<M: Device>(first: CPU<M>, last: CPU<M>, tr: Seq<CPU<M>>) -> bool {
    &&& tr.len() == u64::MAX + 1
    &&& tr[0] == first
    &&& tr[tr.len() - 1] == last
    &&& forall|i: int| 0 <= i < tr.len() - 1 ==> #[trigger] step_rel(tr[i], tr[i + 1], false)
}

impl<M: Device> CPU<M> {
    /// The raw bytes of the register file.
    pub closed spec fn regs(&self) -> Seq<u8> {
        self.registers@
    }

    /// The memory device.
    pub closed spec fn dev(&self) -> M {
        *self.memory
    }

    /// Bytes pushed since the most recent frame boundary.
    pub closed spec fn frame(&self) -> u16 {
        self.stack_frame_size
    }

    /// Whether the CPU is inside an interrupt handler.
    pub closed spec fn flag(&self) -> bool {
        self.is_in_interrupt_handler
    }

    /// The register file always holds fourteen 16-bit registers.
    pub open spec fn wf(&self) -> bool {
        self.regs().len() == 28
    }

    /// The value of the register at byte offset `r`.
    pub open spec fn reg16(&self, r: int) -> u16 {
        get16(self.regs(), r)
    }

    pub open spec fn ip(&self) -> u16 {
        self.reg16(0)
    }

    pub open spec fn acc(&self) -> u16 {
        self.reg16(2)
    }

    pub open spec fn sp(&self) -> u16 {
        self.reg16(20)
    }

    pub open spec fn fp(&self) -> u16 {
        self.reg16(22)
    }

    pub fn new(memory: Box<M>) -> (r: CPU<M>)
        requires
            2 <= memory.dlen() <= 0xffff,
        ensures
            r.wf(),
            r.dev() == *memory,
            r.frame() == 0,
            r.flag() == false,
            forall|j: int| 0 <= j < 20 ==> r.regs()[j] == 0,
            r.regs()[24] == 0 && r.regs()[25] == 0,
            r.sp() == memory.dlen() - 2,
            r.fp() == memory.dlen() - 2,
            r.reg16(26) == 0xff,
    {
        let len = memory.len();
        let mut cpu = CPU {
            memory,
            registers: Memory::new(register::SIZE),
            stack_frame_size: 0,
            is_in_interrupt_handler: false,
        };
        let top = (len as u16).wrapping_sub(2);
        cpu.set_register(register::SP, top);
        cpu.set_register(register::FP, top);
        cpu.set_register(register::IM, 0xff);
        proof {
            assert(cpu.regs() =~= set16(
                set16(set16(Seq::new(28, |i: int| 0u8), 20, top), 22, top),
                26,
                0xff,
            ));
        }
        cpu
    }

    /// Writes a register; a write to the bank register also reaches the
    /// memory subsystem so banked devices can switch windows.
    pub fn set_register(&mut self, reg: register::Register, value: u16)
        requires
            old(self).wf(),
            reg + 1 < 28,
        ensures
            final(self).wf(),
            final(self).regs() == set16(old(self).regs(), reg as int, value),
            final(self).frame() == old(self).frame(),
            final(self).flag() == old(self).flag(),
            reg == register::MB ==> M::mb_switched(old(self).dev(), final(self).dev(), value),
            reg == register::MB ==> final(self).dev().sink_log() == old(self).dev().sink_log(),
            reg != register::MB ==> final(self).dev() == old(self).dev(),
    {
        if reg == register::MB {
            self.memory.set_mb(value);
        }
        self.registers.set_u16(reg, value);
        proof {
            lemma_mem_pair_update(old(self).registers, self.registers, reg as int, value);
        }
    }

    pub fn get_register(&self, reg: register::Register) -> (r: u16)
        requires
            self.wf(),
            reg + 1 < 28,
        ensures
            r == self.reg16(reg as int),
    {
        self.registers.get_u16(reg)
    }

    /// Reads the byte at `IP` and advances `IP` by one.
    pub fn fetch8(&mut self) -> (r: u8)
        requires
            old(self).wf(),
            old(self).dev().can_r8(old(self).ip() as int),
        ensures
            final(self).wf(),
            r == old(self).dev().byte_at(old(self).ip() as int),
            final(self).regs() == set16(old(self).regs(), 0, wadd(old(self).ip(), 1)),
            final(self).dev() == old(self).dev(),
            final(self).frame() == old(self).frame(),
            final(self).flag() == old(self).flag(),
    {
        let ip = self.get_register(register::IP);
        let res = self.memory.get_u8(ip as usize);
        self.set_register(register::IP, ip.wrapping_add(1));
        res
    }

    /// Reads the big-endian word at `IP` and advances `IP` by two.
    pub fn fetch16(&mut self) -> (r: u16)
        requires
            old(self).wf(),
            old(self).dev().can_r16(old(self).ip() as int),
        ensures
            final(self).wf(),
            r == mem16(old(self).dev(), old(self).ip() as int),
            final(self).regs() == set16(old(self).regs(), 0, wadd(old(self).ip(), 2)),
            final(self).dev() == old(self).dev(),
            final(self).frame() == old(self).frame(),
            final(self).flag() == old(self).flag(),
    {
        let ip = self.get_register(register::IP);
        let res = self.memory.get_u16(ip as usize);
        self.set_register(register::IP, ip.wrapping_add(2));
        res
    }

    /// Reads the next byte as a register file offset.
    pub fn fetch_register_index(&mut self) -> (r: register::Register)
        requires
            old(self).wf(),
            old(self).dev().can_r8(old(self).ip() as int),
        ensures
            final(self).wf(),
            r == old(self).dev().byte_at(old(self).ip() as int) as usize,
            final(self).regs() == set16(old(self).regs(), 0, wadd(old(self).ip(), 1)),
            final(self).dev() == old(self).dev(),
            final(self).frame() == old(self).frame(),
            final(self).flag() == old(self).flag(),
    {
        self.fetch8() as usize
    }

    /// Stores the word at `SP`, moves `SP` down a slot, and counts the
    /// pushed bytes into the current frame.
    pub fn push_to_stack(&mut self, value: u16)
        requires
            old(self).wf(),
            old(self).dev().can_w16(old(self).sp() as int),
        ensures
            final(self).wf(),
            final(self).regs() == set16(old(self).regs(), 20, wsub(old(self).sp(), 2)),
            wrote16(old(self).dev(), final(self).dev(), old(self).sp() as int, value),
            final(self).frame() == wadd(old(self).frame(), 2),
            final(self).flag() == old(self).flag(),
    {
        let sp = self.get_register(register::SP);
        self.memory.set_u16(sp as usize, value);
        self.set_register(register::SP, sp.wrapping_sub(2));
        self.stack_frame_size = self.stack_frame_size.wrapping_add(2);
    }

    /// Moves `SP` up a slot and returns the word stored there.
    pub fn pop_from_stack(&mut self) -> (r: u16)
        requires
            old(self).wf(),
            old(self).dev().can_r16(wadd(old(self).sp(), 2) as int),
        ensures
            final(self).wf(),
            r == mem16(old(self).dev(), wadd(old(self).sp(), 2) as int),
            final(self).regs() == set16(old(self).regs(), 20, wadd(old(self).sp(), 2)),
            final(self).dev() == old(self).dev(),
            final(self).frame() == wsub(old(self).frame(), 2),
            final(self).flag() == old(self).flag(),
    {
        let new_sp_address = self.get_register(register::SP).wrapping_add(2);
        self.set_register(register::SP, new_sp_address);
        self.stack_frame_size = self.stack_frame_size.wrapping_sub(2);
        self.memory.get_u16(new_sp_address as usize)
    }

    /// Saves the caller's context on the stack: R1..R8 in order, then IP,
    /// then the finished frame's size; then opens a fresh frame at `FP`.
    pub fn push_state(&mut self)
        requires
            old(self).wf(),
            old(self).sp() >= 18,
            forall|a: int| old(self).sp() - 18 <= a <= old(self).sp() ==> #[trigger] old(
                self,
            ).dev().can_w16(a),
            forall|a: int| old(self).sp() - 18 <= a <= old(self).sp() ==> #[trigger] old(
                self,
            ).dev().stores(a),
        ensures
            final(self).wf(),
            final(self).reg16(20) == wsub(old(self).sp(), 20),
            final(self).reg16(22) == wsub(old(self).sp(), 20),
            forall|s: int| 0 <= s <= 26 && s % 2 == 0 && s != 20 && s != 22 ==> #[trigger] final(self).reg16(s) == old(self).reg16(s),
            final(self).frame() == 0,
            final(self).flag() == old(self).flag(),
            dev_shape_eq(old(self).dev(), final(self).dev()),
            saved_frame_dev(
                old(self).regs(),
                old(self).dev(),
                final(self).dev(),
                old(self).ip(),
                old(self).frame(),
            ),
    {
        let ghost pre = *old(self);
        let ghost sp0 = pre.sp() as int;
        let mut j: usize = 0;
        while j < 8
            invariant
                pre.wf(),
                pre.sp() >= 18,
                forall|a: int| pre.sp() - 18 <= a <= pre.sp() ==> #[trigger] pre.dev().can_w16(a),
                forall|a: int| pre.sp() - 18 <= a <= pre.sp() ==> #[trigger] pre.dev().stores(a),
                sp0 == pre.sp() as int,
                j <= 8,
                self.wf(),
                self.reg16(20) == wsub(pre.sp(), (2 * j) as u16),
                forall|s: int| 0 <= s <= 26 && s % 2 == 0 && s != 20 ==> #[trigger] self.reg16(s)
                    == pre.reg16(s),
                self.frame() == wadd(pre.frame(), (2 * j) as u16),
                self.flag() == pre.flag(),
                dev_shape_eq(pre.dev(), self.dev()),
                self.dev().sink_log() == pre.dev().sink_log(),
                forall|a: int| !(sp0 - 2 * j + 2 <= a <= sp0 + 1) ==> #[trigger] self.dev().byte_at(
                    a,
                ) == pre.dev().byte_at(a),
                forall|k: int| 0 <= k < j ==> #[trigger] mem16(self.dev(), sp0 - 2 * k)
                    == pre.reg16(4 + 2 * k),
            decreases 8 - j,
        {
            let ghost cpup = *self;
            let ghost devp = self.dev();
            let ghost regsp = self.regs();
            let ghost spv = self.sp();
            proof {
                assert(spv as int == sp0 - 2 * j);
                assert(pre.dev().can_w16(sp0 - 2 * j) && pre.dev().stores(sp0 - 2 * j));
                assert(self.dev().can_w16(sp0 - 2 * j) && self.dev().stores(sp0 - 2 * j));
            }
            let value = self.get_register(register::R1 + 2 * j);
            self.push_to_stack(value);
            proof {
                lemma_word_slots(regsp, 20, wsub(spv, 2));
                assert(wsub(spv, 2) == wsub(pre.sp(), (2 * (j + 1)) as u16));
                crate::device::lemma_word16_split(value);
                assert(value == pre.reg16(4 + 2 * j));
                assert(mem16(self.dev(), sp0 - 2 * j) == value);
                assert forall|s: int| 0 <= s <= 26 && s % 2 == 0 && s != 20 implies #[trigger] self
                    .reg16(s) == pre.reg16(s) by {
                    lemma_get16_set16_ne(regsp, 20, wsub(spv, 2), s);
                    assert(cpup.reg16(s) == pre.reg16(s));
                    assert(cpup.reg16(s) == get16(regsp, s));
                }
                assert forall|k: int| 0 <= k < j + 1 implies #[trigger] mem16(
                    self.dev(),
                    sp0 - 2 * k,
                ) == pre.reg16(4 + 2 * k) by {
                    if k < j {
                        assert(self.dev().byte_at(sp0 - 2 * k) == devp.byte_at(sp0 - 2 * k));
                        assert(self.dev().byte_at(sp0 - 2 * k + 1) == devp.byte_at(
                            sp0 - 2 * k + 1,
                        ));
                        assert(mem16(devp, sp0 - 2 * k) == pre.reg16(4 + 2 * k));
                    }
                }
            }
            j = j + 1;
        }
        let ghost cpu8 = *self;
        let ghost dev8 = self.dev();
        let ghost regs8 = self.regs();
        let ipv = self.get_register(register::IP);
        proof {
            assert(self.sp() as int == sp0 - 16);
            assert(pre.dev().can_w16(sp0 - 16) && pre.dev().stores(sp0 - 16));
            assert(self.dev().can_w16(sp0 - 16) && self.dev().stores(sp0 - 16));
        }
        self.push_to_stack(ipv);
        let ghost dev9 = self.dev();
        proof {
            lemma_word_slots(regs8, 20, wsub(pre.sp(), 18));
            crate::device::lemma_word16_split(ipv);
            assert(mem16(self.dev(), sp0 - 16) == ipv);
            assert forall|s: int| 0 <= s <= 26 && s % 2 == 0 && s != 20 implies #[trigger] self
                .reg16(s) == pre.reg16(s) by {
                lemma_get16_set16_ne(regs8, 20, wsub(pre.sp(), 18), s);
                assert(cpu8.reg16(s) == pre.reg16(s));
                assert(cpu8.reg16(s) == get16(regs8, s));
            }
        }
        let ghost cpu9 = *self;
        let ghost regs9 = self.regs();
        let fsize = self.stack_frame_size.wrapping_add(2);
        proof {
            assert(self.sp() as int == sp0 - 18);
            assert(pre.dev().can_w16(sp0 - 18) && pre.dev().stores(sp0 - 18));
            assert(self.dev().can_w16(sp0 - 18) && self.dev().stores(sp0 - 18));
            assert(fsize == wadd(pre.frame(), 20));
        }
        self.push_to_stack(fsize);
        proof {
            lemma_word_slots(regs9, 20, wsub(pre.sp(), 20));
            crate::device::lemma_word16_split(fsize);
            assert(mem16(self.dev(), sp0 - 18) == fsize);
            assert forall|s: int| 0 <= s <= 26 && s % 2 == 0 && s != 20 implies #[trigger] self
                .reg16(s) == pre.reg16(s) by {
                lemma_get16_set16_ne(regs9, 20, wsub(pre.sp(), 20), s);
                assert(cpu9.reg16(s) == pre.reg16(s));
                assert(cpu9.reg16(s) == get16(regs9, s));
            }
        }
        let ghost cpu10 = *self;
        let ghost regs10 = self.regs();
        let spv = self.get_register(register::SP);
        self.set_register(register::FP, spv);
        self.stack_frame_size = 0;
        proof {
            lemma_word_slots(regs10, 22, wsub(pre.sp(), 20));
            assert forall|s: int| 0 <= s <= 26 && s % 2 == 0 && s != 20 && s != 22 implies
                #[trigger] final(self).reg16(s) == pre.reg16(s) by {
                lemma_get16_set16_ne(regs10, 22, wsub(pre.sp(), 20), s);
                assert(cpu10.reg16(s) == pre.reg16(s));
                assert(cpu10.reg16(s) == get16(regs10, s));
            }
            assert forall|k: int| 0 <= k < 8 implies #[trigger] mem16(final(self).dev(), sp0 - 2 * k)
                == pre.reg16(4 + 2 * k) by {
                assert(dev9.byte_at(sp0 - 2 * k) == dev8.byte_at(sp0 - 2 * k));
                assert(dev9.byte_at(sp0 - 2 * k + 1) == dev8.byte_at(sp0 - 2 * k + 1));
                assert(final(self).dev().byte_at(sp0 - 2 * k) == dev9.byte_at(sp0 - 2 * k));
                assert(final(self).dev().byte_at(sp0 - 2 * k + 1) == dev9.byte_at(sp0 - 2 * k + 1));
                assert(mem16(dev8, sp0 - 2 * k) == pre.reg16(4 + 2 * k));
            }
            lemma_pull_push_slot(final(self).dev(), sp0, pre, 0);
            lemma_pull_push_slot(final(self).dev(), sp0, pre, 1);
            lemma_pull_push_slot(final(self).dev(), sp0, pre, 2);
            lemma_pull_push_slot(final(self).dev(), sp0, pre, 3);
            lemma_pull_push_slot(final(self).dev(), sp0, pre, 4);
            lemma_pull_push_slot(final(self).dev(), sp0, pre, 5);
            lemma_pull_push_slot(final(self).dev(), sp0, pre, 6);
            lemma_pull_push_slot(final(self).dev(), sp0, pre, 7);
            assert(final(self).dev().byte_at(sp0 - 16) == dev9.byte_at(sp0 - 16));
            assert(final(self).dev().byte_at(sp0 - 15) == dev9.byte_at(sp0 - 15));
            assert(mem16(final(self).dev(), sp0 - 16) == ipv);
        }
    }

    /// Restores the context saved at `FP`: reads the frame size, IP, and
    /// R8..R1 back, then rebases `FP` onto the previous frame.
    pub fn pop_state(&mut self)
        requires
            old(self).wf(),
            old(self).fp() + 21 <= 0xffff,
            forall|a: int| old(self).fp() + 2 <= a <= old(self).fp() + 20 ==> #[trigger] old(
                self,
            ).dev().can_r16(a),
        ensures
            final(self).wf(),
            final(self).dev() == old(self).dev(),
            final(self).flag() == old(self).flag(),
            final(self).reg16(20) == wadd(old(self).fp(), 20),
            final(self).reg16(0) == mem16(old(self).dev(), old(self).fp() + 4),
            final(self).reg16(4) == mem16(old(self).dev(), old(self).fp() + 20),
            final(self).reg16(6) == mem16(old(self).dev(), old(self).fp() + 18),
            final(self).reg16(8) == mem16(old(self).dev(), old(self).fp() + 16),
            final(self).reg16(10) == mem16(old(self).dev(), old(self).fp() + 14),
            final(self).reg16(12) == mem16(old(self).dev(), old(self).fp() + 12),
            final(self).reg16(14) == mem16(old(self).dev(), old(self).fp() + 10),
            final(self).reg16(16) == mem16(old(self).dev(), old(self).fp() + 8),
            final(self).reg16(18) == mem16(old(self).dev(), old(self).fp() + 6),
            final(self).reg16(22) == wadd(
                old(self).fp(),
                mem16(old(self).dev(), old(self).fp() + 2),
            ),
            final(self).reg16(2) == old(self).reg16(2),
            final(self).reg16(24) == old(self).reg16(24),
            final(self).reg16(26) == old(self).reg16(26),
            final(self).frame() == wsub(mem16(old(self).dev(), old(self).fp() + 2), 18),
    {
        let ghost pre = *old(self);
        let fp0 = self.get_register(register::FP);
        let ghost regs0 = self.regs();
        self.set_register(register::SP, fp0);
        proof {
            lemma_word_slots(regs0, 20, fp0);
        }
        self.stack_frame_size = 2;
        let ghost regs1 = self.regs();
        proof {
            assert(wadd(self.sp(), 2) as int == pre.fp() + 2);
            assert(pre.dev().can_r16(pre.fp() + 2));
        }
        let fsize = self.pop_from_stack();
        proof {
            lemma_word_slots(regs1, 20, wadd(fp0, 2));
        }
        self.stack_frame_size = fsize;
        let ghost regs2 = self.regs();
        proof {
            assert(wadd(self.sp(), 2) as int == pre.fp() + 4);
            assert(pre.dev().can_r16(pre.fp() + 4));
        }
        let ipv = self.pop_from_stack();
        proof {
            lemma_word_slots(regs2, 20, wadd(fp0, 4));
        }
        let ghost regs3 = self.regs();
        self.set_register(register::IP, ipv);
        proof {
            lemma_word_slots(regs3, 0, ipv);
        }
        let mut j: usize = 0;
        while j < 8
            invariant
                pre.wf(),
                pre.fp() + 21 <= 0xffff,
                forall|a: int| pre.fp() + 2 <= a <= pre.fp() + 20 ==> #[trigger] pre.dev().can_r16(
                    a,
                ),
                j <= 8,
                self.wf(),
                fp0 == pre.fp(),
                self.dev() == pre.dev(),
                self.flag() == pre.flag(),
                self.frame() == wsub(fsize, (2 + 2 * j) as u16),
                fsize == mem16(pre.dev(), fp0 + 2),
                ipv == mem16(pre.dev(), fp0 + 4),
                self.reg16(20) == wadd(fp0, (4 + 2 * j) as u16),
                self.reg16(0) == ipv,
                self.reg16(22) == pre.reg16(22),
                self.reg16(2) == pre.reg16(2),
                self.reg16(24) == pre.reg16(24),
                self.reg16(26) == pre.reg16(26),
                forall|i: int| 0 <= i < j ==> #[trigger] self.reg16(18 - 2 * i) == mem16(
                    pre.dev(),
                    fp0 + 6 + 2 * i,
                ),
                forall|i: int| j <= i < 8 ==> #[trigger] self.reg16(18 - 2 * i) == pre.reg16(
                    18 - 2 * i,
                ),
            decreases 8 - j,
        {
            let ghost cpup = *self;
            let ghost regsp = self.regs();
            let ghost spv = self.sp();
            proof {
                assert(wadd(spv, 2) == wadd(fp0, (6 + 2 * j) as u16));
                assert(wadd(spv, 2) as int == fp0 + 6 + 2 * j);
                assert(pre.dev().can_r16(fp0 + 6 + 2 * j));
            }
            let value = self.pop_from_stack();
            proof {
                lemma_word_slots(regsp, 20, wadd(spv, 2));
                assert(value == mem16(pre.dev(), fp0 + 6 + 2 * j));
            }
            let ghost regsq = self.regs();
            self.set_register(register::R8 - 2 * j, value);
            proof {
                lemma_word_slots(regsq, 18 - 2 * j, value);
                assert(self.regs() == set16(regsq, 18 - 2 * j, value));
                assert(self.reg16(18 - 2 * j) == value);
                assert forall|i: int| 0 <= i < j + 1 implies #[trigger] self.reg16(18 - 2 * i)
                    == mem16(pre.dev(), fp0 + 6 + 2 * i) by {
                    if i < j {
                        lemma_get16_set16_ne(regsq, 18 - 2 * j, value, 18 - 2 * i);
                        lemma_get16_set16_ne(regsp, 20, wadd(spv, 2), 18 - 2 * i);
                        assert(cpup.reg16(18 - 2 * i) == mem16(pre.dev(), fp0 + 6 + 2 * i));
                        assert(cpup.reg16(18 - 2 * i) == get16(regsp, 18 - 2 * i));
                    }
                }
                assert forall|i: int| j + 1 <= i < 8 implies #[trigger] self.reg16(18 - 2 * i)
                    == pre.reg16(18 - 2 * i) by {
                    lemma_get16_set16_ne(regsq, 18 - 2 * j, value, 18 - 2 * i);
                    lemma_get16_set16_ne(regsp, 20, wadd(spv, 2), 18 - 2 * i);
                    assert(cpup.reg16(18 - 2 * i) == pre.reg16(18 - 2 * i));
                    assert(cpup.reg16(18 - 2 * i) == get16(regsp, 18 - 2 * i));
                }
            }
            j = j + 1;
        }
        let ghost cpul = *self;
        let ghost regsl = self.regs();
        self.set_register(register::FP, fp0.wrapping_add(fsize));
        proof {
            lemma_word_slots(regsl, 22, wadd(fp0, fsize));
            assert forall|i: int| 0 <= i < 8 implies #[trigger] final(self).reg16(18 - 2 * i)
                == mem16(pre.dev(), fp0 + 6 + 2 * i) by {
                lemma_get16_set16_ne(regsl, 22, wadd(fp0, fsize), 18 - 2 * i);
                assert(cpul.reg16(18 - 2 * i) == mem16(pre.dev(), fp0 + 6 + 2 * i));
                assert(cpul.reg16(18 - 2 * i) == get16(regsl, 18 - 2 * i));
                assert(final(self).reg16(18 - 2 * i) == get16(regsl, 18 - 2 * i));
            }
            lemma_pull_pop_slot(*final(self), pre.dev(), fp0 as int, 0);
            lemma_pull_pop_slot(*final(self), pre.dev(), fp0 as int, 1);
            lemma_pull_pop_slot(*final(self), pre.dev(), fp0 as int, 2);
            lemma_pull_pop_slot(*final(self), pre.dev(), fp0 as int, 3);
            lemma_pull_pop_slot(*final(self), pre.dev(), fp0 as int, 4);
            lemma_pull_pop_slot(*final(self), pre.dev(), fp0 as int, 5);
            lemma_pull_pop_slot(*final(self), pre.dev(), fp0 as int, 6);
            lemma_pull_pop_slot(*final(self), pre.dev(), fp0 as int, 7);
        }
    }


    /// Decodes and performs one instruction whose opcode byte has already
    /// been fetched; reports a fault instead of touching an address or a
    /// register offset the machine cannot use.
    #[verifier::rlimit(100)]
    pub fn execute(&mut self, instruction: u8) -> (r: Result<bool, RuntimeError>)
        requires
            old(self).wf(),
        ensures
            final(self).wf(),
            match r {
                Ok(halt) => {
                    &&& exec_ok_core(
                        old(self).regs(),
                        old(self).dev(),
                        old(self).frame(),
                        old(self).flag(),
                        instruction,
                    )
                    &&& exec_rel_core(
                        old(self).regs(),
                        old(self).dev(),
                        old(self).frame(),
                        old(self).flag(),
                        instruction,
                        *final(self),
                        halt,
                    )
                },
                Err(e) => {
                    &&& !exec_ok_core(
                        old(self).regs(),
                        old(self).dev(),
                        old(self).frame(),
                        old(self).flag(),
                        instruction,
                    )
                    &&& !(e is StepLimitExceeded)
                    &&& (e is UnrecognizedOpcode <==> !known_opcode(instruction))
                    &&& !known_opcode(instruction) ==> e == RuntimeError::UnrecognizedOpcode(
                        instruction,
                    )
                },
            },
    {
        let ghost regs1 = self.regs();
        let ghost d = self.dev();
        let ghost fr = self.frame();
        let ghost fl = self.flag();
        let ghost p = self.ip();
        match instruction {
            0x09 => {  // MOVE_LIT_MEM
                if !self.memory.ok_r16(self.get_register(register::IP) as usize) {
                    return Err(RuntimeError::AddressOutOfRange(self.get_register(register::IP)));
                }
                let value = self.fetch16();
                proof {
                    lemma_get16_set16_same(regs1, 0, wadd(p, 2));
                }
                if !self.memory.ok_r16(self.get_register(register::IP) as usize) {
                    return Err(RuntimeError::AddressOutOfRange(self.get_register(register::IP)));
                }
                let mem = self.fetch16();
                proof {
                    lemma_set16_absorb(regs1, 0, wadd(p, 2), wadd(wadd(p, 2), 2));
                }
                if !self.memory.ok_w16(mem as usize) {
                    return Err(RuntimeError::AddressOutOfRange(mem));
                }
                self.memory.set_u16(mem as usize, value);
                Ok(false)
            }
            0x10 => {  // MOVE_LIT_REG
                if !self.memory.ok_r16(self.get_register(register::IP) as usize) {
                    return Err(RuntimeError::AddressOutOfRange(self.get_register(register::IP)));
                }
                let value = self.fetch16();
                proof {
                    lemma_get16_set16_same(regs1, 0, wadd(p, 2));
                }
                if !self.memory.ok_r8(self.get_register(register::IP) as usize) {
                    return Err(RuntimeError::AddressOutOfRange(self.get_register(register::IP)));
                }
                let reg = self.fetch_register_index();
                proof {
                    lemma_set16_absorb(regs1, 0, wadd(p, 2), wadd(wadd(p, 2), 1));
                }
                if reg >= 27 {
                    return Err(RuntimeError::RegisterIndexOutOfRange(reg as u8));
                }
                self.set_register(reg, value);
                Ok(false)
            }
            0x11 | 0x14 | 0x33 | 0x35 | 0x45 | 0x47 | 0x49 => {  // reg, reg to a register
                if !self.memory.ok_r8(self.get_register(register::IP) as usize) {
                    return Err(RuntimeError::AddressOutOfRange(self.get_register(register::IP)));
                }
                let r1 = self.fetch_register_index();
                proof {
                    lemma_get16_set16_same(regs1, 0, wadd(p, 1));
                }
                if !self.memory.ok_r8(self.get_register(register::IP) as usize) {
                    return Err(RuntimeError::AddressOutOfRange(self.get_register(register::IP)));
                }
                let r2 = self.fetch_register_index();
                proof {
                    lemma_set16_absorb(regs1, 0, wadd(p, 1), wadd(wadd(p, 1), 1));
                }
                if r1 >= 27 {
                    return Err(RuntimeError::RegisterIndexOutOfRange(r1 as u8));
                }
                if r2 >= 27 {
                    return Err(RuntimeError::RegisterIndexOutOfRange(r2 as u8));
                }
                let v1 = self.get_register(r1);
                let v2 = self.get_register(r2);
                if instruction == 0x11 {
                    self.set_register(r2, v1);
                } else if instruction == 0x14 {
                    self.set_register(register::ACC, v1.wrapping_add(v2));
                } else if instruction == 0x33 {
                    self.set_register(register::ACC, v1.wrapping_sub(v2));
                } else if instruction == 0x35 {
                    self.set_register(register::ACC, v1.wrapping_mul(v2));
                } else {
                    let result = if instruction == 0x45 {
                        v1 & v2
                    } else if instruction == 0x47 {
                        v1 | v2
                    } else {
                        v1 ^ v2
                    };
                    let ghost before = self.registers;
                    self.registers.set_u16(register::ACC, result);
                    proof {
                        lemma_mem_pair_update(before, self.registers, 2, result);
                    }
                }
                Ok(false)
            }
            0x1c => {  // MOVE_REG_PTR_REG
                if !self.memory.ok_r8(self.get_register(register::IP) as usize) {
                    return Err(RuntimeError::AddressOutOfRange(self.get_register(register::IP)));
                }
                let r1 = self.fetch_register_index();
                proof {
                    lemma_get16_set16_same(regs1, 0, wadd(p, 1));
                }
                if !self.memory.ok_r8(self.get_register(register::IP) as usize) {
                    return Err(RuntimeError::AddressOutOfRange(self.get_register(register::IP)));
                }
                let r2 = self.fetch_register_index();
                proof {
                    lemma_set16_absorb(regs1, 0, wadd(p, 1), wadd(wadd(p, 1), 1));
                }
                if r1 >= 27 {
                    return Err(RuntimeError::RegisterIndexOutOfRange(r1 as u8));
                }
                if r2 >= 27 {
                    return Err(RuntimeError::RegisterIndexOutOfRange(r2 as u8));
                }
                let ptr = self.get_register(r1);
                if !self.memory.ok_r16(ptr as usize) {
                    return Err(RuntimeError::AddressOutOfRange(ptr));
                }
                let value = self.memory.get_u16(ptr as usize);
                self.set_register(r2, value);
                Ok(false)
            }
            0x1d => {  // MOVE_LIT_OFF_REG
                if !self.memory.ok_r16(self.get_register(register::IP) as usize) {
                    return Err(RuntimeError::AddressOutOfRange(self.get_register(register::IP)));
                }
                let address = self.fetch16();
                proof {
                    lemma_get16_set16_same(regs1, 0, wadd(p, 2));
                }
                if !self.memory.ok_r8(self.get_register(register::IP) as usize) {
                    return Err(RuntimeError::AddressOutOfRange(self.get_register(register::IP)));
                }
                let reg_from = self.fetch_register_index();
                proof {
                    lemma_set16_absorb(regs1, 0, wadd(p, 2), wadd(wadd(p, 2), 1));
                    lemma_get16_set16_same(regs1, 0, wadd(p, 3));
                }
                if !self.memory.ok_r8(self.get_register(register::IP) as usize) {
                    return Err(RuntimeError::AddressOutOfRange(self.get_register(register::IP)));
                }
                let reg_to = self.fetch_register_index();
                proof {
                    lemma_set16_absorb(regs1, 0, wadd(p, 3), wadd(wadd(p, 3), 1));
                }
                if reg_from >= 27 {
                    return Err(RuntimeError::RegisterIndexOutOfRange(reg_from as u8));
                }
                if reg_to >= 27 {
                    return Err(RuntimeError::RegisterIndexOutOfRange(reg_to as u8));
                }
                let offset = self.get_register(reg_from);
                let target = offset.wrapping_add(address);
                if !self.memory.ok_r16(target as usize) {
                    return Err(RuntimeError::AddressOutOfRange(target));
                }
                let value = self.memory.get_u16(target as usize);
                self.set_register(reg_to, value);
                Ok(false)
            }
            0x12 => {  // MOVE_REG_MEM
                if !self.memory.ok_r8(self.get_register(register::IP) as usize) {
                    return Err(RuntimeError::AddressOutOfRange(self.get_register(register::IP)));
                }
                let reg = self.fetch_register_index();
                proof {
                    lemma_get16_set16_same(regs1, 0, wadd(p, 1));
                }
                if !self.memory.ok_r16(self.get_register(register::IP) as usize) {
                    return Err(RuntimeError::AddressOutOfRange(self.get_register(register::IP)));
                }
                let mem = self.fetch16();
                proof {
                    lemma_set16_absorb(regs1, 0, wadd(p, 1), wadd(wadd(p, 1), 2));
                }
                if reg >= 27 {
                    return Err(RuntimeError::RegisterIndexOutOfRange(reg as u8));
                }
                if !self.memory.ok_w16(mem as usize) {
                    return Err(RuntimeError::AddressOutOfRange(mem));
                }
                let value = self.get_register(reg);
                self.memory.set_u16(mem as usize, value);
                Ok(false)
            }
            0x13 => {  // MOVE_MEM_REG
                if !self.memory.ok_r16(self.get_register(register::IP) as usize) {
                    return Err(RuntimeError::AddressOutOfRange(self.get_register(register::IP)));
                }
                let mem = self.fetch16();
                proof {
                    lemma_get16_set16_same(regs1, 0, wadd(p, 2));
                }
                if !self.memory.ok_r8(self.get_register(register::IP) as usize) {
                    return Err(RuntimeError::AddressOutOfRange(self.get_register(register::IP)));
                }
                let reg = self.fetch_register_index();
                proof {
                    lemma_set16_absorb(regs1, 0, wadd(p, 2), wadd(wadd(p, 2), 1));
                }
                if reg >= 27 {
                    return Err(RuntimeError::RegisterIndexOutOfRange(reg as u8));
                }
                if !self.memory.ok_r16(mem as usize) {
                    return Err(RuntimeError::AddressOutOfRange(mem));
                }
                let value = self.memory.get_u16(mem as usize);
                self.set_register(reg, value);
                Ok(false)
            }
            0x30 | 0x31 | 0x34 => {  // lit, reg arithmetic into ACC
                if !self.memory.ok_r16(self.get_register(register::IP) as usize) {
                    return Err(RuntimeError::AddressOutOfRange(self.get_register(register::IP)));
                }
                let value = self.fetch16();
                proof {
                    lemma_get16_set16_same(regs1, 0, wadd(p, 2));
                }
                if !self.memory.ok_r8(self.get_register(register::IP) as usize) {
                    return Err(RuntimeError::AddressOutOfRange(self.get_register(register::IP)));
                }
                let reg = self.fetch_register_index();
                proof {
                    lemma_set16_absorb(regs1, 0, wadd(p, 2), wadd(wadd(p, 2), 1));
                }
                if reg >= 27 {
                    return Err(RuntimeError::RegisterIndexOutOfRange(reg as u8));
                }
                let rv = self.get_register(reg);
                match instruction {
                    0x30 => self.set_register(register::ACC, rv.wrapping_add(value)),
                    0x31 => self.set_register(register::ACC, value.wrapping_sub(rv)),
                    _ => self.set_register(register::ACC, value.wrapping_mul(rv)),
                }
                Ok(false)
            }
            0x32 | 0x44 | 0x46 | 0x48 => {  // reg, lit into ACC
                if !self.memory.ok_r8(self.get_register(register::IP) as usize) {
                    return Err(RuntimeError::AddressOutOfRange(self.get_register(register::IP)));
                }
                let reg = self.fetch_register_index();
                proof {
                    lemma_get16_set16_same(regs1, 0, wadd(p, 1));
                }
                if !self.memory.ok_r16(self.get_register(register::IP) as usize) {
                    return Err(RuntimeError::AddressOutOfRange(self.get_register(register::IP)));
                }
                let value = self.fetch16();
                proof {
                    lemma_set16_absorb(regs1, 0, wadd(p, 1), wadd(wadd(p, 1), 2));
                }
                if reg >= 27 {
                    return Err(RuntimeError::RegisterIndexOutOfRange(reg as u8));
                }
                let rv = self.get_register(reg);
                if instruction == 0x32 {
                    self.set_register(register::ACC, rv.wrapping_sub(value));
                } else {
                    let result = if instruction == 0x44 {
                        rv & value
                    } else if instruction == 0x46 {
                        rv | value
                    } else {
                        rv ^ value
                    };
                    let ghost before = self.registers;
                    self.registers.set_u16(register::ACC, result);
                    proof {
                        lemma_mem_pair_update(before, self.registers, 2, result);
                    }
                }
                Ok(false)
            }
            0x36 | 0x37 | 0x4a => {  // in-place inc/dec and NOT
                if !self.memory.ok_r8(self.get_register(register::IP) as usize) {
                    return Err(RuntimeError::AddressOutOfRange(self.get_register(register::IP)));
                }
                let reg = self.fetch_register_index();
                if reg >= 27 {
                    return Err(RuntimeError::RegisterIndexOutOfRange(reg as u8));
                }
                let rv = self.get_register(reg);
                let target: usize = if instruction == 0x4a {
                    register::ACC
                } else {
                    reg
                };
                let result = if instruction == 0x36 {
                    rv.wrapping_add(1)
                } else if instruction == 0x37 {
                    rv.wrapping_sub(1)
                } else {
                    !rv
                };
                let ghost before = self.registers;
                self.registers.set_u16(target, result);
                proof {
                    lemma_mem_pair_update(before, self.registers, target as int, result);
                }
                Ok(false)
            }
            0x40 | 0x42 => {  // shift by a fetched literal, in place
                if !self.memory.ok_r8(self.get_register(register::IP) as usize) {
                    return Err(RuntimeError::AddressOutOfRange(self.get_register(register::IP)));
                }
                let reg = self.fetch_register_index();
                proof {
                    lemma_get16_set16_same(regs1, 0, wadd(p, 1));
                }
                if !self.memory.ok_r16(self.get_register(register::IP) as usize) {
                    return Err(RuntimeError::AddressOutOfRange(self.get_register(register::IP)));
                }
                let value = self.fetch16();
                proof {
                    lemma_set16_absorb(regs1, 0, wadd(p, 1), wadd(wadd(p, 1), 2));
                }
                if reg >= 27 {
                    return Err(RuntimeError::RegisterIndexOutOfRange(reg as u8));
                }
                let rv = self.get_register(reg);
                let shifted = if instruction == 0x40 {
                    rv.wrapping_shl(value as u32)
                } else {
                    rv.wrapping_shr(value as u32)
                };
                let ghost before = self.registers;
                self.registers.set_u16(reg, shifted);
                proof {
                    lemma_mem_pair_update(before, self.registers, reg as int, shifted);
                }
                Ok(false)
            }
            0x41 | 0x43 => {  // shift by a register, in place
                if !self.memory.ok_r8(self.get_register(register::IP) as usize) {
                    return Err(RuntimeError::AddressOutOfRange(self.get_register(register::IP)));
                }
                let r1 = self.fetch_register_index();
                proof {
                    lemma_get16_set16_same(regs1, 0, wadd(p, 1));
                }
                if !self.memory.ok_r8(self.get_register(register::IP) as usize) {
                    return Err(RuntimeError::AddressOutOfRange(self.get_register(register::IP)));
                }
                let r2 = self.fetch_register_index();
                proof {
                    lemma_set16_absorb(regs1, 0, wadd(p, 1), wadd(wadd(p, 1), 1));
                }
                if r1 >= 27 {
                    return Err(RuntimeError::RegisterIndexOutOfRange(r1 as u8));
                }
                if r2 >= 27 {
                    return Err(RuntimeError::RegisterIndexOutOfRange(r2 as u8));
                }
                let v1 = self.get_register(r1);
                let v2 = self.get_register(r2);
                let shifted = if instruction == 0x41 {
                    v1.wrapping_shl(v2 as u32)
                } else {
                    v1.wrapping_shr(v2 as u32)
                };
                let ghost before = self.registers;
                self.registers.set_u16(r1, shifted);
                proof {
                    lemma_mem_pair_update(before, self.registers, r1 as int, shifted);
                }
                Ok(false)
            }
            0x50 | 0x52 | 0x54 | 0x56 | 0x58 | 0x5a => {  // jump, literal form
                if !self.memory.ok_r16(self.get_register(register::IP) as usize) {
                    return Err(RuntimeError::AddressOutOfRange(self.get_register(register::IP)));
                }
                let lit = self.fetch16();
                proof {
                    lemma_get16_set16_same(regs1, 0, wadd(p, 2));
                }
                if !self.memory.ok_r16(self.get_register(register::IP) as usize) {
                    return Err(RuntimeError::AddressOutOfRange(self.get_register(register::IP)));
                }
                let address = self.fetch16();
                proof {
                    lemma_set16_absorb(regs1, 0, wadd(p, 2), wadd(wadd(p, 2), 2));
                    lemma_get16_set16_ne(regs1, 0, wadd(p, 4), 2);
                }
                let acc = self.get_register(register::ACC);
                let taken = match instruction {
                    0x50 => acc != lit,
                    0x52 => acc == lit,
                    0x54 => acc > lit,
                    0x56 => acc < lit,
                    0x58 => acc >= lit,
                    _ => acc <= lit,
                };
                if taken {
                    self.set_register(register::IP, address);
                }
                Ok(false)
            }
            0x51 | 0x53 | 0x55 | 0x57 | 0x59 | 0x5b => {  // jump, register form
                if !self.memory.ok_r8(self.get_register(register::IP) as usize) {
                    return Err(RuntimeError::AddressOutOfRange(self.get_register(register::IP)));
                }
                let reg = self.fetch_register_index();
                proof {
                    lemma_get16_set16_same(regs1, 0, wadd(p, 1));
                }
                if !self.memory.ok_r16(self.get_register(register::IP) as usize) {
                    return Err(RuntimeError::AddressOutOfRange(self.get_register(register::IP)));
                }
                let address = self.fetch16();
                proof {
                    lemma_set16_absorb(regs1, 0, wadd(p, 1), wadd(wadd(p, 1), 2));
                    lemma_get16_set16_ne(regs1, 0, wadd(p, 3), 2);
                }
                if reg >= 27 {
                    return Err(RuntimeError::RegisterIndexOutOfRange(reg as u8));
                }
                let rv = self.get_register(reg);
                let acc = self.get_register(register::ACC);
                let taken = match instruction {
                    0x51 => acc != rv,
                    0x53 => acc == rv,
                    0x55 => acc > rv,
                    0x57 => acc < rv,
                    0x59 => acc >= rv,
                    _ => acc <= rv,
                };
                if taken {
                    self.set_register(register::IP, address);
                }
                Ok(false)
            }
            0x16 => {  // PSH_LIT
                if !self.memory.ok_r16(self.get_register(register::IP) as usize) {
                    return Err(RuntimeError::AddressOutOfRange(self.get_register(register::IP)));
                }
                let lit = self.fetch16();
                proof {
                    lemma_get16_set16_ne(regs1, 0, wadd(p, 2), 20);
                }
                let sp = self.get_register(register::SP);
                if !self.memory.ok_w16(sp as usize) {
                    return Err(RuntimeError::AddressOutOfRange(sp));
                }
                self.push_to_stack(lit);
                Ok(false)
            }
            0x17 => {  // PSH_REG
                if !self.memory.ok_r8(self.get_register(register::IP) as usize) {
                    return Err(RuntimeError::AddressOutOfRange(self.get_register(register::IP)));
                }
                let reg = self.fetch_register_index();
                proof {
                    lemma_get16_set16_ne(regs1, 0, wadd(p, 1), 20);
                }
                if reg >= 27 {
                    return Err(RuntimeError::RegisterIndexOutOfRange(reg as u8));
                }
                let sp = self.get_register(register::SP);
                if !self.memory.ok_w16(sp as usize) {
                    return Err(RuntimeError::AddressOutOfRange(sp));
                }
                let value = self.get_register(reg);
                self.push_to_stack(value);
                Ok(false)
            }
            0x18 => {  // POP_REG
                if !self.memory.ok_r8(self.get_register(register::IP) as usize) {
                    return Err(RuntimeError::AddressOutOfRange(self.get_register(register::IP)));
                }
                let reg = self.fetch_register_index();
                proof {
                    lemma_get16_set16_ne(regs1, 0, wadd(p, 1), 20);
                }
                if reg >= 27 {
                    return Err(RuntimeError::RegisterIndexOutOfRange(reg as u8));
                }
                let sp = self.get_register(register::SP);
                if !self.memory.ok_r16(sp.wrapping_add(2) as usize) {
                    return Err(RuntimeError::AddressOutOfRange(sp.wrapping_add(2)));
                }
                let value = self.pop_from_stack();
                self.set_register(reg, value);
                Ok(false)
            }
            0x19 => {  // CAL_LIT
                if !self.memory.ok_r16(self.get_register(register::IP) as usize) {
                    return Err(RuntimeError::AddressOutOfRange(self.get_register(register::IP)));
                }
                let address = self.fetch16();
                proof {
                    lemma_get16_set16_ne(regs1, 0, wadd(p, 2), 20);
                }
                if !self.check_push_state() {
                    return Err(RuntimeError::AddressOutOfRange(self.get_register(register::SP)));
                }
                self.push_state();
                let ghost mid = *self;
                self.set_register(register::IP, address);
                proof {
                    lemma_word_slots_unknown(mid, *self, address);
                }
                Ok(false)
            }
            0x1a => {  // CAL_REG
                if !self.memory.ok_r8(self.get_register(register::IP) as usize) {
                    return Err(RuntimeError::AddressOutOfRange(self.get_register(register::IP)));
                }
                let reg = self.fetch_register_index();
                proof {
                    lemma_get16_set16_ne(regs1, 0, wadd(p, 1), 20);
                }
                if reg >= 27 {
                    return Err(RuntimeError::RegisterIndexOutOfRange(reg as u8));
                }
                let address = self.get_register(reg);
                if !self.check_push_state() {
                    return Err(RuntimeError::AddressOutOfRange(self.get_register(register::SP)));
                }
                self.push_state();
                let ghost mid = *self;
                self.set_register(register::IP, address);
                proof {
                    lemma_word_slots_unknown(mid, *self, address);
                }
                Ok(false)
            }
            0x1b => {  // RET
                if !self.check_pop_state() {
                    return Err(RuntimeError::AddressOutOfRange(self.get_register(register::FP)));
                }
                self.pop_state();
                Ok(false)
            }
            0xfd => {  // INT
                if !self.memory.ok_r16(self.get_register(register::IP) as usize) {
                    return Err(RuntimeError::AddressOutOfRange(self.get_register(register::IP)));
                }
                let value = self.fetch16();
                proof {
                    lemma_get16_set16_ne(regs1, 0, wadd(p, 2), 26);
                    lemma_get16_set16_ne(regs1, 0, wadd(p, 2), 20);
                }
                self.handle_interrupt(value)
            }
            0xfc => {  // RET_INT
                let sp = self.get_register(register::SP);
                if !self.memory.ok_r16(sp.wrapping_add(2) as usize) {
                    return Err(RuntimeError::AddressOutOfRange(sp.wrapping_add(2)));
                }
                self.is_in_interrupt_handler = false;
                let _ = self.pop_from_stack();
                Ok(false)
            }
            0xff => Ok(true),  // HLT
            _ => Err(RuntimeError::UnrecognizedOpcode(instruction)),
        }
    }

    /// Whether the saved-context store that push_state performs can go
    /// ahead: the stack has room and every touched address stores bytes.
    fn check_push_state(&self) -> (r: bool)
        requires
            self.wf(),
        ensures
            r == push_state_ok(self.regs(), self.dev()),
    {
        let sp = self.get_register(register::SP);
        if sp < 18 {
            return false;
        }
        let mut a: usize = (sp - 18) as usize;
        while a <= sp as usize
            invariant
                self.wf(),
                sp == get16(self.regs(), 20),
                sp >= 18,
                sp - 18 <= a <= sp + 1,
                forall|x: int| sp - 18 <= x < a ==> #[trigger] self.dev().can_w16(x),
                forall|x: int| sp - 18 <= x < a ==> #[trigger] self.dev().stores(x),
            decreases sp + 1 - a,
        {
            if !self.memory.ok_w16(a) || !self.memory.is_store(a) {
                return false;
            }
            a = a + 1;
        }
        true
    }

    /// Whether the saved context at `FP` can be read back in full.
    fn check_pop_state(&self) -> (r: bool)
        requires
            self.wf(),
        ensures
            r == pop_state_ok(self.regs(), self.dev()),
    {
        let fp = self.get_register(register::FP);
        if fp > 0xffff - 21 {
            return false;
        }
        let mut a: usize = fp as usize + 2;
        while a <= fp as usize + 20
            invariant
                self.wf(),
                fp == get16(self.regs(), 22),
                fp + 21 <= 0xffff,
                fp + 2 <= a <= fp + 21,
                forall|x: int| fp + 2 <= x < a ==> #[trigger] self.dev().can_r16(x),
            decreases fp + 21 - a,
        {
            if !self.memory.ok_r16(a) {
                return false;
            }
            a = a + 1;
        }
        true
    }

    /// Raises software interrupt `value`: masked interrupts are ignored;
    /// otherwise the handler address is read from the vector, the context
    /// is saved unless a handler is already running, and IP jumps there.
    fn handle_interrupt(&mut self, value: u16) -> (r: Result<bool, RuntimeError>)
        requires
            old(self).wf(),
        ensures
            final(self).wf(),
            match r {
                Ok(halt) => {
                    &&& !halt
                    &&& int_ok(old(self).regs(), old(self).dev(), old(self).flag(), value)
                    &&& int_rel(
                        old(self).regs(),
                        old(self).dev(),
                        old(self).frame(),
                        old(self).flag(),
                        value,
                        *final(self),
                    )
                },
                Err(e) => {
                    &&& !int_ok(old(self).regs(), old(self).dev(), old(self).flag(), value)
                    &&& !(e is StepLimitExceeded)
                    &&& !(e is UnrecognizedOpcode)
                },
            },
    {
        let im = self.get_register(register::IM);
        if !(value < 16 && (im >> value) & 1 == 1) {
            return Ok(false);
        }
        let address_pointer = INTERRUPT_VECTOR_ADDRESS + (value as usize) * 2;
        if !self.memory.ok_r16(address_pointer) {
            return Err(RuntimeError::AddressOutOfRange(address_pointer as u16));
        }
        let address = self.memory.get_u16(address_pointer);
        if !self.is_in_interrupt_handler {
            if !self.check_push_state() {
                return Err(RuntimeError::AddressOutOfRange(self.get_register(register::SP)));
            }
            self.push_state();
        }
        let ghost mid = *self;
        self.is_in_interrupt_handler = true;
        let ghost mid2 = *self;
        self.set_register(register::IP, address);
        proof {
            assert(mid2.regs() == mid.regs());
            if !old(self).flag() {
                lemma_word_slots_unknown(mid2, *self, address);
                assert(final(self).reg16(20) == mid2.reg16(20));
                assert(mid2.reg16(20) == mid.reg16(20));
                assert(final(self).reg16(22) == mid2.reg16(22));
                assert(mid2.reg16(22) == mid.reg16(22));
                assert forall|s: int| 2 <= s <= 26 && s % 2 == 0 && s != 20 && s != 22 implies
                    #[trigger] final(self).reg16(s) == get16(old(self).regs(), s) by {
                    assert(final(self).reg16(s) == mid2.reg16(s));
                    assert(mid2.reg16(s) == mid.reg16(s));
                    assert(mid.reg16(s) == old(self).reg16(s));
                }
            }
        }
        Ok(false)
    }


    /// Fetches the opcode at `IP` and executes it; `Ok(true)` means the
    /// machine has halted.
    pub fn step(&mut self) -> (r: Result<bool, RuntimeError>)
        requires
            old(self).wf(),
        ensures
            final(self).wf(),
            match r {
                Ok(halt) => step_ok(*old(self)) && step_rel(*old(self), *final(self), halt),
                Err(e) => {
                    &&& !step_ok(*old(self))
                    &&& !(e is StepLimitExceeded)
                    &&& (e is UnrecognizedOpcode <==> old(self).dev().can_r8(old(self).ip() as int)
                        && !known_opcode(rd8(old(self).dev(), old(self).ip())))
                },
            },
    {
        let ip = self.get_register(register::IP);
        if !self.memory.ok_r8(ip as usize) {
            return Err(RuntimeError::AddressOutOfRange(ip));
        }
        let instruction = self.fetch8();
        self.execute(instruction)
    }

    /// Runs the fetch-and-execute loop until the machine halts: on success
    /// a halting step-trace from the old state to the final one exists; on
    /// a fault, a non-halting step-trace leads from the old state to one
    /// whose next instruction cannot execute, and the fault is reported;
    /// a program that spends the whole step budget without halting is
    /// reported as stalled.
    pub fn run(&mut self) -> (r: Result<(), RuntimeError>)
        requires
            old(self).wf(),
        ensures
            final(self).wf(),
            match r {
                Result::Ok(()) => exists|tr: Seq<CPU<M>>| run_trace(*old(self), *final(self), tr),
                Result::Err(e) => {
                    if e is StepLimitExceeded {
                        exists|tr: Seq<CPU<M>>| stalled_trace(*old(self), *final(self), tr)
                    } else {
                        exists|tr: Seq<CPU<M>>| faulted_trace(*old(self), tr)
                    }
                },
            },
    {
        let ghost pre = *old(self);
        let ghost mut tr: Seq<CPU<M>> = seq![pre];
        let mut steps: u64 = 0;
        while steps < u64::MAX
            invariant
                self.wf(),
                pre == *old(self),
                tr.len() == steps + 1,
                tr[0] == pre,
                tr[tr.len() - 1] == *self,
                forall|i: int| 0 <= i < tr.len() - 1 ==> #[trigger] step_rel(tr[i], tr[i + 1], false),
            decreases u64::MAX - steps,
        {
            match self.step() {
                Ok(true) => {
                    proof {
                        let tr2 = tr.push(*self);
                        assert(tr2[tr2.len() - 2] == tr[tr.len() - 1]);
                        assert forall|i: int| 0 <= i < tr2.len() - 2 implies #[trigger] step_rel(
                            tr2[i],
                            tr2[i + 1],
                            false,
                        ) by {
                            assert(tr2[i] == tr[i]);
                            assert(tr2[i + 1] == tr[i + 1]);
                        }
                        assert(run_trace(pre, *self, tr2));
                        assert(exists|t: Seq<CPU<M>>| run_trace(pre, *self, t));
                    }
                    return Ok(());
                }
                Ok(false) => {
                    proof {
                        let tr2 = tr.push(*self);
                        assert(tr2[tr2.len() - 2] == tr[tr.len() - 1]);
                        assert forall|i: int| 0 <= i < tr2.len() - 1 implies #[trigger] step_rel(
                            tr2[i],
                            tr2[i + 1],
                            false,
                        ) by {
                            if i < tr.len() - 1 {
                                assert(tr2[i] == tr[i]);
                                assert(tr2[i + 1] == tr[i + 1]);
                            } else {
                                assert(tr2[i] == tr[tr.len() - 1]);
                            }
                        }
                        tr = tr2;
                    }
                }
                Err(e) => {
                    proof {
                        assert(faulted_trace(pre, tr));
                        assert(exists|t: Seq<CPU<M>>| faulted_trace(pre, t));
                    }
                    return Err(e);
                }
            }
            steps = steps + 1;
        }
        proof {
            assert(stalled_trace(pre, *self, tr));
            assert(exists|t: Seq<CPU<M>>| stalled_trace(pre, *self, t));
        }
        Err(RuntimeError::StepLimitExceeded)
    }


    /// The machine's frame-size counter.
    pub fn frame_size(&self) -> (r: u16)
        ensures
            r == self.frame(),
    {
        self.stack_frame_size
    }

    /// Reads one byte of the register file.
    pub fn register_byte(&self, i: usize) -> (r: u8)
        requires
            self.wf(),
            i < 28,
        ensures
            r == self.regs()[i as int],
    {
        self.registers.get_u8(i)
    }

    /// Reads a word from the memory device.
    pub fn memory_u16(&self, address: usize) -> (r: u16)
        requires
            self.dev().can_r16(address as int),
        ensures
            r == mem16(self.dev(), address as int),
    {
        self.memory.get_u16(address)
    }

    /// Reads a byte from the memory device.
    pub fn memory_u8(&self, address: usize) -> (r: u8)
        requires
            self.dev().can_r8(address as int),
        ensures
            r == self.dev().byte_at(address as int),
    {
        self.memory.get_u8(address)
    }

    /// Writes a byte to the memory device.
    pub fn memory_set_u8(&mut self, address: usize, value: u8)
        requires
            old(self).dev().can_w8(address as int),
        ensures
            final(self).wf() == old(self).wf(),
            final(self).regs() == old(self).regs(),
            final(self).frame() == old(self).frame(),
            final(self).flag() == old(self).flag(),
            forall|a: int| #[trigger] final(self).dev().byte_at(a) == if a == address as int {
                value
            } else {
                old(self).dev().byte_at(a)
            },
    {
        self.memory.set_u8(address, value);
    }

    /// Hands the memory device back when the machine is done.
    pub fn into_memory(self) -> (r: Box<M>)
        ensures
            *r == self.dev(),
    {
        self.memory
    }

    /// The fourteen registers, each with its byte offset.
    pub fn debug_registers(&self) -> (r: Vec<(usize, u16)>)
        requires
            self.wf(),
        ensures
            r@.len() == 14,
            forall|k: int| 0 <= k < 14 ==> #[trigger] r@[k] == ((2 * k) as usize, self.reg16(2 * k)),
    {
        let mut res: Vec<(usize, u16)> = Vec::new();
        let mut k: usize = 0;
        while k < 14
            invariant
                self.wf(),
                k <= 14,
                res@.len() == k,
                forall|j: int| 0 <= j < k ==> #[trigger] res@[j] == (
                    (2 * j) as usize,
                    self.reg16(2 * j),
                ),
            decreases 14 - k,
        {
            res.push((2 * k, self.get_register(2 * k)));
            k = k + 1;
        }
        res
    }
}

/// The declared encoded size of each instruction, opcode byte included.
pub open spec fn instr_size(op: u8) -> u16 {
    if op == 0x1b || op == 0xff || op == 0xfc {
        1
    } else if op == 0x17 || op == 0x18 || op == 0x1a || op == 0x36 || op == 0x37 || op == 0x4a {
        2
    } else if op == 0x16 || op == 0x19 || op == 0xfd || op == 0x11 || op == 0x14 || op == 0x33
        || op == 0x35 || op == 0x41 || op == 0x43 || op == 0x45 || op == 0x47 || op == 0x49
        || op == 0x1c || op == 0x40 || op == 0x42 {
        3
    } else if op == 0x09 || op == 0x1d || op == 0x50 || op == 0x52 || op == 0x54 || op == 0x56
        || op == 0x58 || op == 0x5a {
        5
    } else {
        4
    }
}

/// The step about to execute is straight-line: not a call, return,
/// interrupt, or taken branch; it does not write a register slot that
/// overlaps `IP`; and it is not one of the two shift-by-literal forms,
/// whose operand fetch is wider than their declared size.
pub open spec fn straight_line_step<M: Device>(pre: CPU<M>) -> bool {
    let d = pre.dev();
    let op = rd8(d, pre.ip());
    let p = wadd(pre.ip(), 1);
    let regs1 = after_fetch(pre.regs(), 1);
    &&& !(op == 0x19 || op == 0x1a || op == 0x1b || op == 0xfd || op == 0xfc)
    &&& !(op == 0x40 || op == 0x42)
    &&& (op == 0x10 || op == 0x13 ==> rd8(d, wadd(p, 2)) >= 2)
    &&& (op == 0x11 || op == 0x1c ==> rd8(d, wadd(p, 1)) >= 2)
    &&& (op == 0x1d ==> rd8(d, wadd(p, 3)) >= 2)
    &&& (op == 0x18 || op == 0x36 || op == 0x37 || op == 0x41 || op == 0x43 ==> rd8(d, p) >= 2)
    &&& (op == 0x50 || op == 0x52 || op == 0x54 || op == 0x56 || op == 0x58 || op == 0x5a
        ==> !jump_taken(op, get16(regs1, 2), rd16(d, p)))
    &&& (op == 0x51 || op == 0x53 || op == 0x55 || op == 0x57 || op == 0x59 || op == 0x5b
        ==> !jump_taken(op, get16(regs1, 2), get16(after_fetch(regs1, 3), rd8(d, p) as int)))
}

/// Fetching and executing a straight-line instruction advances `IP` by
/// exactly the instruction's declared size.
pub proof fn lemma_step_advances_ip<M: Device>(pre: CPU<M>, post: CPU<M>, halt: bool)
    requires
        pre.wf(),
        step_ok(pre),
        step_rel(pre, post, halt),
        straight_line_step(pre),
    ensures
        post.ip() == wadd(pre.ip(), instr_size(rd8(pre.dev(), pre.ip()))),
{
    let d = pre.dev();
    let op = rd8(d, pre.ip());
    let p = wadd(pre.ip(), 1);
    let regs1 = after_fetch(pre.regs(), 1);
    lemma_word_slots(pre.regs(), 0, p);
    assert(get16(regs1, 0) == p);
    if op == 0xff {
        assert(post.ip() == p);
    } else if op == 0x09 || op == 0x12 {
        let n: u16 = if op == 0x09 {
            4
        } else {
            3
        };
        lemma_word_slots(regs1, 0, wadd(p, n));
        assert(post.ip() == wadd(p, n));
    } else if op == 0x10 || op == 0x11 || op == 0x1c || op == 0x1d || op == 0x13 || op == 0x18 {
        let n: u16 = if op == 0x11 || op == 0x1c {
            2
        } else if op == 0x1d {
            4
        } else if op == 0x18 {
            1
        } else {
            3
        };
        let base = after_fetch(regs1, n);
        lemma_word_slots(regs1, 0, wadd(p, n));
        let t: int = if op == 0x10 || op == 0x13 {
            rd8(d, wadd(p, 2)) as int
        } else if op == 0x11 || op == 0x1c {
            rd8(d, wadd(p, 1)) as int
        } else if op == 0x1d {
            rd8(d, wadd(p, 3)) as int
        } else {
            rd8(d, p) as int
        };
        if op == 0x18 {
            let mid = set16(base, 20, wadd(get16(regs1, 20), 2));
            lemma_get16_set16_ne(base, 20, wadd(get16(regs1, 20), 2), 0);
            assert(post.regs() == set16(mid, t, rd16(d, wadd(get16(regs1, 20), 2))));
            lemma_get16_set16_ne(mid, t, rd16(d, wadd(get16(regs1, 20), 2)), 0);
        } else {
            assert(exec_rel_core(regs1, d, pre.frame(), pre.flag(), op, post, halt));
            lemma_get16_set16_ne(base, t, get16(post.regs(), t), 0);
        }
        assert(get16(base, 0) == wadd(p, n));
    } else if op == 0x14 || op == 0x30 || op == 0x31 || op == 0x32 || op == 0x33 || op == 0x34
        || op == 0x35 || op == 0x44 || op == 0x45 || op == 0x46 || op == 0x47 || op == 0x48
        || op == 0x49 || op == 0x4a || op == 0x36 || op == 0x37 || op == 0x41 || op == 0x43 {
        let n: u16 = if op == 0x14 || op == 0x33 || op == 0x35 || op == 0x45 || op == 0x47
            || op == 0x49 || op == 0x41 || op == 0x43 {
            2
        } else if op == 0x4a || op == 0x36 || op == 0x37 {
            1
        } else {
            3
        };
        let base = after_fetch(regs1, n);
        lemma_word_slots(regs1, 0, wadd(p, n));
        let t: int = if op == 0x36 || op == 0x37 || op == 0x41 || op == 0x43 {
            rd8(d, p) as int
        } else {
            2
        };
        lemma_get16_set16_ne(base, t, get16(post.regs(), t), 0);
        assert(get16(base, 0) == wadd(p, n));
    } else if op == 0x50 || op == 0x52 || op == 0x54 || op == 0x56 || op == 0x58 || op == 0x5a {
        lemma_word_slots(regs1, 0, wadd(p, 4));
        assert(post.regs() == after_fetch(regs1, 4));
    } else if op == 0x51 || op == 0x53 || op == 0x55 || op == 0x57 || op == 0x59 || op == 0x5b {
        lemma_word_slots(regs1, 0, wadd(p, 3));
        assert(post.regs() == after_fetch(regs1, 3));
    } else if op == 0x16 || op == 0x17 {
        let n: u16 = if op == 0x16 {
            2
        } else {
            1
        };
        let base = after_fetch(regs1, n);
        lemma_word_slots(regs1, 0, wadd(p, n));
        lemma_get16_set16_ne(base, 20, wsub(get16(regs1, 20), 2), 0);
        assert(get16(base, 0) == wadd(p, n));
    } else {
        assert(!step_rel(pre, post, halt));
    }
}

/// For every balanced push/pop pair, `SP`, `FP`, and the frame-size
/// counter return to their pre-push values, and the pop reads back the
/// word the push stored.
pub proof fn lemma_push_pop_balanced<M: Device>(s0: CPU<M>, s1: CPU<M>, s2: CPU<M>, value: u16)
    requires
        s0.wf(),
        s1.wf(),
        s0.dev().stores(s0.sp() as int),
        s1.regs() == set16(s0.regs(), 20, wsub(s0.sp(), 2)),
        wrote16(s0.dev(), s1.dev(), s0.sp() as int, value),
        s1.frame() == wadd(s0.frame(), 2),
        s2.regs() == set16(s1.regs(), 20, wadd(s1.sp(), 2)),
        s2.dev() == s1.dev(),
        s2.frame() == wsub(s1.frame(), 2),
    ensures
        s2.sp() == s0.sp(),
        s2.fp() == s0.fp(),
        s2.frame() == s0.frame(),
        mem16(s1.dev(), wadd(s1.sp(), 2) as int) == value,
{
    lemma_word_slots(s0.regs(), 20, wsub(s0.sp(), 2));
    assert(s1.sp() == wsub(s0.sp(), 2));
    lemma_word_slots(s1.regs(), 20, wadd(s1.sp(), 2));
    assert(wadd(s1.sp(), 2) == s0.sp());
    crate::device::lemma_word16_split(value);
    assert(s1.dev().byte_at(s0.sp() as int) == hi8(value));
    assert(s1.dev().byte_at(s0.sp() as int + 1) == lo8(value));
}

/// One pop_state after one push_state restores R1..R8, IP, and SP; `FP`
/// comes back to the sum of the old stack pointer and frame size, which
/// is the old `FP` whenever the frame accounting was consistent; and the
/// frame-size counter lands two bytes above its pre-push value.
pub proof fn lemma_pop_state_undoes_push_state<M: Device>(s0: CPU<M>, s1: CPU<M>, s2: CPU<M>)
    requires
        s0.wf(),
        s1.wf(),
        s2.wf(),
        20 <= s0.sp() <= 0xfffe,
        s1.reg16(20) == wsub(s0.sp(), 20),
        s1.reg16(22) == wsub(s0.sp(), 20),
        forall|s: int| 0 <= s <= 26 && s % 2 == 0 && s != 20 && s != 22 ==> #[trigger] s1.reg16(s)
            == s0.reg16(s),
        s1.frame() == 0,
        saved_frame_dev(s0.regs(), s0.dev(), s1.dev(), s0.ip(), s0.frame()),
        s2.dev() == s1.dev(),
        s2.reg16(20) == wadd(s1.fp(), 20),
        s2.reg16(0) == mem16(s1.dev(), s1.fp() + 4),
        s2.reg16(4) == mem16(s1.dev(), s1.fp() + 20),
        s2.reg16(6) == mem16(s1.dev(), s1.fp() + 18),
        s2.reg16(8) == mem16(s1.dev(), s1.fp() + 16),
        s2.reg16(10) == mem16(s1.dev(), s1.fp() + 14),
        s2.reg16(12) == mem16(s1.dev(), s1.fp() + 12),
        s2.reg16(14) == mem16(s1.dev(), s1.fp() + 10),
        s2.reg16(16) == mem16(s1.dev(), s1.fp() + 8),
        s2.reg16(18) == mem16(s1.dev(), s1.fp() + 6),
        s2.reg16(22) == wadd(s1.fp(), mem16(s1.dev(), s1.fp() + 2)),
        s2.frame() == wsub(mem16(s1.dev(), s1.fp() + 2), 18),
    ensures
        s2.ip() == s0.ip(),
        s2.reg16(4) == s0.reg16(4),
        s2.reg16(6) == s0.reg16(6),
        s2.reg16(8) == s0.reg16(8),
        s2.reg16(10) == s0.reg16(10),
        s2.reg16(12) == s0.reg16(12),
        s2.reg16(14) == s0.reg16(14),
        s2.reg16(16) == s0.reg16(16),
        s2.reg16(18) == s0.reg16(18),
        s2.sp() == s0.sp(),
        s2.fp() == wadd(s0.sp(), s0.frame()),
        s0.fp() == wadd(s0.sp(), s0.frame()) ==> s2.fp() == s0.fp(),
        s2.frame() == wadd(s0.frame(), 2),
{
    let sp0 = s0.sp() as int;
    assert(s1.fp() == wsub(s0.sp(), 20));
    assert(s1.fp() as int == sp0 - 20);
    assert(mem16(s1.dev(), sp0 - 18) == wadd(s0.frame(), 20));
    assert(mem16(s1.dev(), sp0 - 16) == s0.ip());
    assert(s2.sp() == wadd(s1.fp(), 20));
}


/// Pulls one push edge out of the quantified chain description.
proof fn lemma_take_push_edge<M: Device>(tr: Seq<CPU<M>>, n: int, i: int)
    requires
        0 <= i < n,
        forall|j: int| 0 <= j < n ==> #[trigger] push_state_edge(tr[j], tr[j + 1]),
    ensures
        push_state_edge(tr[i], tr[i + 1]),
{
}

/// Pulls one pop edge out of the quantified chain description.
proof fn lemma_take_pop_edge<M: Device>(tr: Seq<CPU<M>>, n: int, i: int)
    requires
        0 <= i < n,
        forall|j: int| 0 <= j < n ==> #[trigger] pop_state_edge(tr[n + j], tr[n + j + 1]),
    ensures
        pop_state_edge(tr[n + i], tr[n + i + 1]),
{
}

/// What one push_state call did: the relation its contract establishes
/// between the machine before and after.
pub open spec fn push_state_edge<M: Device>(pre: CPU<M>, post: CPU<M>) -> bool {
    &&& pre.wf()
    &&& post.wf()
    &&& post.reg16(20) == wsub(pre.sp(), 20)
    &&& post.reg16(22) == wsub(pre.sp(), 20)
    &&& forall|s: int| 0 <= s <= 26 && s % 2 == 0 && s != 20 && s != 22 ==> #[trigger] post.reg16(
        s,
    ) == pre.reg16(s)
    &&& post.frame() == 0
    &&& post.flag() == pre.flag()
    &&& dev_shape_eq(pre.dev(), post.dev())
    &&& forall|a: int| !(pre.sp() - 18 <= a <= pre.sp() + 1) ==> #[trigger] post.dev().byte_at(a)
        == pre.dev().byte_at(a)
    &&& saved_frame_dev(pre.regs(), pre.dev(), post.dev(), pre.ip(), pre.frame())
}

/// What one pop_state call did: the relation its contract establishes.
pub open spec fn pop_state_edge<M: Device>(pre: CPU<M>, post: CPU<M>) -> bool {
    &&& pre.wf()
    &&& post.wf()
    &&& post.dev() == pre.dev()
    &&& post.flag() == pre.flag()
    &&& post.reg16(20) == wadd(pre.fp(), 20)
    &&& post.reg16(0) == mem16(pre.dev(), pre.fp() + 4)
    &&& post.reg16(4) == mem16(pre.dev(), pre.fp() + 20)
    &&& post.reg16(6) == mem16(pre.dev(), pre.fp() + 18)
    &&& post.reg16(8) == mem16(pre.dev(), pre.fp() + 16)
    &&& post.reg16(10) == mem16(pre.dev(), pre.fp() + 14)
    &&& post.reg16(12) == mem16(pre.dev(), pre.fp() + 12)
    &&& post.reg16(14) == mem16(pre.dev(), pre.fp() + 10)
    &&& post.reg16(16) == mem16(pre.dev(), pre.fp() + 8)
    &&& post.reg16(18) == mem16(pre.dev(), pre.fp() + 6)
    &&& post.reg16(22) == wadd(pre.fp(), mem16(pre.dev(), pre.fp() + 2))
    &&& post.reg16(2) == pre.reg16(2)
    &&& post.reg16(24) == pre.reg16(24)
    &&& post.reg16(26) == pre.reg16(26)
    &&& post.frame() == wsub(mem16(pre.dev(), pre.fp() + 2), 18)
}

/// N calls of push_state followed by N calls of pop_state restore R1..R8,
/// IP, and SP exactly; FP comes back to the old stack pointer plus the
/// old frame size, which is the old FP whenever the frame accounting was
/// consistent; and the frame-size counter lands two bytes above its
/// pre-call value. Memory below the outermost frame is scratch.
pub proof fn lemma_push_pop_state_n<M: Device>(tr: Seq<CPU<M>>, n: int)
    requires
        n >= 0,
        tr.len() == 2 * n + 1,
        tr[0].wf(),
        tr[0].sp() >= 20 * n,
        tr[0].sp() <= 0xfffe,
        forall|i: int| 0 <= i < n ==> #[trigger] push_state_edge(tr[i], tr[i + 1]),
        forall|i: int| 0 <= i < n ==> #[trigger] pop_state_edge(tr[n + i], tr[n + i + 1]),
    ensures
        tr[2 * n].ip() == tr[0].ip(),
        tr[2 * n].reg16(4) == tr[0].reg16(4),
        tr[2 * n].reg16(6) == tr[0].reg16(6),
        tr[2 * n].reg16(8) == tr[0].reg16(8),
        tr[2 * n].reg16(10) == tr[0].reg16(10),
        tr[2 * n].reg16(12) == tr[0].reg16(12),
        tr[2 * n].reg16(14) == tr[0].reg16(14),
        tr[2 * n].reg16(16) == tr[0].reg16(16),
        tr[2 * n].reg16(18) == tr[0].reg16(18),
        tr[2 * n].sp() == tr[0].sp(),
        n >= 1 ==> tr[2 * n].fp() == wadd(tr[0].sp(), tr[0].frame()),
        n >= 1 && tr[0].fp() == wadd(tr[0].sp(), tr[0].frame()) ==> tr[2 * n].fp() == tr[0].fp(),
        n >= 1 ==> tr[2 * n].frame() == wadd(tr[0].frame(), 2),
        n == 0 ==> tr[2 * n] == tr[0],
        forall|a: int| !(tr[0].sp() - 20 * n + 2 <= a <= tr[0].sp() + 1) ==> #[trigger] tr[2
            * n].dev().byte_at(a) == tr[0].dev().byte_at(a),
    decreases n,
{
    if n == 0 {
        assert(tr[0] == tr[2 * n]);
    } else {
        let s0 = tr[0];
        let s1 = tr[1];
        let sp0 = s0.sp() as int;
        lemma_take_push_edge(tr, n, 0);
        assert(push_state_edge(tr[0], tr[0int + 1]));
        let inner = tr.subrange(1, 2 * n);
        assert(inner.len() == 2 * (n - 1) + 1);
        assert(inner[0] == s1);
        assert(s1.sp() == wsub(s0.sp(), 20));
        assert(s1.sp() as int == sp0 - 20);
        assert forall|i: int| 0 <= i < n - 1 implies #[trigger] push_state_edge(
            inner[i],
            inner[i + 1],
        ) by {
            assert(inner[i] == tr[i + 1]);
            assert(inner[i + 1] == tr[i + 2]);
            lemma_take_push_edge(tr, n, i + 1);
        }
        assert forall|i: int| 0 <= i < n - 1 implies #[trigger] pop_state_edge(
            inner[n - 1 + i],
            inner[n - 1 + i + 1],
        ) by {
            assert(inner[n - 1 + i] == tr[n + i]);
            assert(inner[n + i] == tr[n + i + 1]);
            lemma_take_pop_edge(tr, n, i);
        }
        lemma_push_pop_state_n(inner, n - 1);
        let sm = tr[2 * n - 1];
        assert(sm == inner[2 * (n - 1)]);
        let fpm = sm.fp() as int;
        if n == 1 {
            assert(sm == s1);
        } else {
            assert(sm.fp() == wadd(s1.sp(), s1.frame()));
        }
        assert(fpm == sp0 - 20);
        lemma_take_pop_edge(tr, n, n - 1);
        assert(pop_state_edge(tr[n + (n - 1)], tr[n + (n - 1) + 1]));
        assert(pop_state_edge(tr[2 * n - 1], tr[2 * n]));
        assert forall|a: int| fpm + 2 <= a <= fpm + 21 implies #[trigger] sm.dev().byte_at(a)
            == s1.dev().byte_at(a) by {
            assert(!(s1.sp() - 20 * (n - 1) + 2 <= a <= s1.sp() + 1));
        }
        assert(mem16(sm.dev(), fpm + 2) == mem16(s1.dev(), sp0 - 18));
        assert(mem16(sm.dev(), fpm + 4) == mem16(s1.dev(), sp0 - 16));
        assert(mem16(sm.dev(), fpm + 6) == mem16(s1.dev(), sp0 - 14));
        assert(mem16(sm.dev(), fpm + 8) == mem16(s1.dev(), sp0 - 12));
        assert(mem16(sm.dev(), fpm + 10) == mem16(s1.dev(), sp0 - 10));
        assert(mem16(sm.dev(), fpm + 12) == mem16(s1.dev(), sp0 - 8));
        assert(mem16(sm.dev(), fpm + 14) == mem16(s1.dev(), sp0 - 6));
        assert(mem16(sm.dev(), fpm + 16) == mem16(s1.dev(), sp0 - 4));
        assert(mem16(sm.dev(), fpm + 18) == mem16(s1.dev(), sp0 - 2));
        assert(mem16(sm.dev(), fpm + 20) == mem16(s1.dev(), sp0));
        assert(mem16(s1.dev(), sp0 - 18) == wadd(s0.frame(), 20));
        assert(mem16(s1.dev(), sp0 - 16) == s0.ip());
        assert(tr[2 * n].reg16(0) == s0.ip());
        assert(tr[2 * n].reg16(20) == wadd(sm.fp(), 20));
        assert(wadd(sm.fp(), 20) == s0.sp());
        assert(tr[2 * n].reg16(22) == wadd(sm.fp(), mem16(sm.dev(), fpm + 2)));
        assert(wadd(sm.fp(), wadd(s0.frame(), 20)) == wadd(s0.sp(), s0.frame()));
        assert(tr[2 * n].frame() == wsub(wadd(s0.frame(), 20), 18));
        assert(wsub(wadd(s0.frame(), 20), 18) == wadd(s0.frame(), 2));
        assert forall|a: int| !(s0.sp() - 20 * n + 2 <= a <= s0.sp() + 1) implies #[trigger] tr[2
            * n].dev().byte_at(a) == s0.dev().byte_at(a) by {
            assert(!(s1.sp() - 20 * (n - 1) + 2 <= a <= s1.sp() + 1));
            assert(sm.dev().byte_at(a) == s1.dev().byte_at(a));
            assert(!(s0.sp() - 18 <= a <= s0.sp() + 1));
            assert(s1.dev().byte_at(a) == s0.dev().byte_at(a));
        }
    }
}

} // verus!
