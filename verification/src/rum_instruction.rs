//! Instruction words: bit-field extraction, opcode decoding, and the exact
//! semantics of each instruction as a transition of the machine state.

use vstd::prelude::*;

use crate::emulation_unit::FaultKind;
use crate::emulation_unit::UniversalMachine;

verus! {

/// A contiguous bit range within a 32-bit word: `width` bits whose lowest is
/// bit `lsb` (bit 0 is the least significant).
pub struct Field {
    pub width: u32,
    pub lsb: u32,
}

/// The `width`-bit unsigned value found at bit offset `lsb` of `word`.
pub open spec fn spec_extract(word: u32, width: u32, lsb: u32) -> u32
    recommends
        width < 32,
        lsb < 32,
{
    (word >> lsb) & (((1u32 << width) - 1) as u32)
}

/// A mask of `bits` ones in the low positions.
fn mask(bits: u32) -> (r: u32)
    requires
        bits < 32,
    ensures
        r == ((1u32 << bits) - 1) as u32,
{
    proof {
        assert(1u32 << bits >= 1) by (bit_vector)
            requires
                bits < 32,
        ;
    }
    (1u32 << bits) - 1
}

/// The value of `field` within the instruction word.
pub fn get(field: &Field, instruction: u32) -> (r: u32)
    requires
        field.width < 32,
        field.lsb < 32,
    ensures
        r == spec_extract(instruction, field.width, field.lsb),
{
    (instruction >> field.lsb) & mask(field.width)
}

/// The segment table, the free identifier list and the identifier counter
/// are unchanged from `pre` to `post`.
pub open spec fn same_memory(pre: UniversalMachine, post: UniversalMachine) -> bool {
    &&& post.segments@ == pre.segments@
    &&& post.id_pool@ == pre.id_pool@
    &&& post.segment_ids == pre.segment_ids
}

/// The effect of the conditional move: when register C is non-zero,
/// register A receives register B; either way only the program counter
/// moves otherwise.
pub open spec fn cmov_post(pre: UniversalMachine, post: UniversalMachine, a: u32, b: u32, c: u32) -> bool {
    &&& same_memory(pre, post)
    &&& post.program_counter == pre.program_counter + 1
    &&& post.registers@ == (if pre.registers@[c as int] != 0 {
        pre.registers@.update(a as int, pre.registers@[b as int])
    } else {
        pre.registers@
    })
}

/// The effect of addition: register A receives the sum of registers B and C
/// reduced modulo 2^32.
pub open spec fn add_post(pre: UniversalMachine, post: UniversalMachine, a: u32, b: u32, c: u32) -> bool {
    &&& same_memory(pre, post)
    &&& post.program_counter == pre.program_counter + 1
    &&& post.registers@ == pre.registers@.update(
        a as int,
        ((pre.registers@[b as int] + pre.registers@[c as int]) % 0x1_0000_0000) as u32,
    )
}

/// The effect of multiplication: register A receives the product of
/// registers B and C reduced modulo 2^32.
pub open spec fn mul_post(pre: UniversalMachine, post: UniversalMachine, a: u32, b: u32, c: u32) -> bool {
    &&& same_memory(pre, post)
    &&& post.program_counter == pre.program_counter + 1
    &&& post.registers@ == pre.registers@.update(
        a as int,
        ((pre.registers@[b as int] * pre.registers@[c as int]) % 0x1_0000_0000) as u32,
    )
}

/// The effect of a division that did not fault: register A receives the
/// unsigned quotient of registers B and C, truncated toward zero.
pub open spec fn div_post(pre: UniversalMachine, post: UniversalMachine, a: u32, b: u32, c: u32) -> bool {
    &&& same_memory(pre, post)
    &&& post.program_counter == pre.program_counter + 1
    &&& post.registers@ == pre.registers@.update(
        a as int,
        pre.registers@[b as int] / pre.registers@[c as int],
    )
}

/// The effect of bitwise NAND over all 32 bits.
pub open spec fn nand_post(pre: UniversalMachine, post: UniversalMachine, a: u32, b: u32, c: u32) -> bool {
    &&& same_memory(pre, post)
    &&& post.program_counter == pre.program_counter + 1
    &&& post.registers@ == pre.registers@.update(
        a as int,
        !(pre.registers@[b as int] & pre.registers@[c as int]),
    )
}

/// The effect of load immediate: the destination register receives the
/// 25-bit immediate, zero-extended.
pub open spec fn load_value_post(pre: UniversalMachine, post: UniversalMachine, l: u32, value: u32) -> bool {
    &&& same_memory(pre, post)
    &&& post.program_counter == pre.program_counter + 1
    &&& post.registers@ == pre.registers@.update(l as int, value)
}

/// The effect of an input instruction once a byte (or end-of-stream) is at
/// hand: register C receives the byte zero-extended, or the all-ones word at
/// end-of-stream.
pub open spec fn input_post(pre: UniversalMachine, post: UniversalMachine, c: u32, byte: Option<u8>) -> bool {
    &&& same_memory(pre, post)
    &&& post.program_counter == pre.program_counter + 1
    &&& post.registers@ == pre.registers@.update(
        c as int,
        match byte {
            Some(b) => b as u32,
            None => 0xFFFF_FFFFu32,
        },
    )
}

/// Conditional move: when register C is non-zero, register A receives
/// register B; the program counter advances either way.
pub fn cmov(um: &mut UniversalMachine, reg_a: u32, reg_b: u32, reg_c: u32)
    requires
        old(um).wf(),
        reg_a < 8,
        reg_b < 8,
        reg_c < 8,
        old(um).program_counter < usize::MAX,
    ensures
        final(um).wf(),
        cmov_post(*old(um), *final(um), reg_a, reg_b, reg_c),
{
    if um.registers[reg_c as usize] != 0 {
        let v = um.registers[reg_b as usize];
        um.registers[reg_a as usize] = v;
    }
    um.program_counter = um.program_counter + 1;
}

/// Addition: register A receives (register B + register C) mod 2^32.
pub fn add(um: &mut UniversalMachine, reg_a: u32, reg_b: u32, reg_c: u32)
    requires
        old(um).wf(),
        reg_a < 8,
        reg_b < 8,
        reg_c < 8,
        old(um).program_counter < usize::MAX,
    ensures
        final(um).wf(),
        add_post(*old(um), *final(um), reg_a, reg_b, reg_c),
{
    let sum: u64 = um.registers[reg_b as usize] as u64 + um.registers[reg_c as usize] as u64;
    let v: u32 = (sum % 0x1_0000_0000u64) as u32;
    um.registers[reg_a as usize] = v;
    um.program_counter = um.program_counter + 1;
}

/// Multiplication: register A receives (register B * register C) mod 2^32.
pub fn multiply(um: &mut UniversalMachine, reg_a: u32, reg_b: u32, reg_c: u32)
    requires
        old(um).wf(),
        reg_a < 8,
        reg_b < 8,
        reg_c < 8,
        old(um).program_counter < usize::MAX,
    ensures
        final(um).wf(),
        mul_post(*old(um), *final(um), reg_a, reg_b, reg_c),
{
    let x = um.registers[reg_b as usize];
    let y = um.registers[reg_c as usize];
    proof {
        assert(x as u64 * y as u64 <= 0xFFFF_FFFFu64 * 0xFFFF_FFFFu64) by (nonlinear_arith)
            requires
                x <= 0xFFFF_FFFFu32,
                y <= 0xFFFF_FFFFu32,
        ;
    }
    let product: u64 = x as u64 * y as u64;
    let v: u32 = (product % 0x1_0000_0000u64) as u32;
    um.registers[reg_a as usize] = v;
    um.program_counter = um.program_counter + 1;
}

/// Division: register A receives register B / register C, unsigned and
/// truncated toward zero; a zero divisor is an arithmetic fault and leaves
/// the machine unchanged.
pub fn divide(um: &mut UniversalMachine, reg_a: u32, reg_b: u32, reg_c: u32) -> (r: Result<(), FaultKind>)
    requires
        old(um).wf(),
        reg_a < 8,
        reg_b < 8,
        reg_c < 8,
        old(um).program_counter < usize::MAX,
    ensures
        final(um).wf(),
        old(um).registers@[reg_c as int] == 0 ==> r == Err::<(), FaultKind>(FaultKind::Arithmetic)
            && *final(um) == *old(um),
        old(um).registers@[reg_c as int] != 0 ==> r == Ok::<(), FaultKind>(())
            && div_post(*old(um), *final(um), reg_a, reg_b, reg_c),
{
    let d = um.registers[reg_c as usize];
    if d == 0 {
        Err(FaultKind::Arithmetic)
    } else {
        let v = um.registers[reg_b as usize] / d;
        um.registers[reg_a as usize] = v;
        um.program_counter = um.program_counter + 1;
        Ok(())
    }
}

/// Bitwise NAND: register A receives the complement of (register B AND
/// register C).
pub fn nand(um: &mut UniversalMachine, reg_a: u32, reg_b: u32, reg_c: u32)
    requires
        old(um).wf(),
        reg_a < 8,
        reg_b < 8,
        reg_c < 8,
        old(um).program_counter < usize::MAX,
    ensures
        final(um).wf(),
        nand_post(*old(um), *final(um), reg_a, reg_b, reg_c),
{
    let v = !(um.registers[reg_b as usize] & um.registers[reg_c as usize]);
    um.registers[reg_a as usize] = v;
    um.program_counter = um.program_counter + 1;
}

/// Load immediate: the destination register receives the zero-extended
/// 25-bit value.
pub fn load_value(um: &mut UniversalMachine, reg_l: u32, value: u32)
    requires
        old(um).wf(),
        reg_l < 8,
        old(um).program_counter < usize::MAX,
    ensures
        final(um).wf(),
        load_value_post(*old(um), *final(um), reg_l, value),
{
    um.registers[reg_l as usize] = value;
    um.program_counter = um.program_counter + 1;
}

/// Output: when register C fits in one byte the byte is handed back and the
/// program counter advances; otherwise the instruction is an I/O fault and
/// the machine is unchanged.
pub fn output(um: &mut UniversalMachine, reg_c: u32) -> (r: Option<u8>)
    requires
        old(um).wf(),
        reg_c < 8,
        old(um).program_counter < usize::MAX,
    ensures
        final(um).wf(),
        old(um).registers@[reg_c as int] <= 255 ==> r == Some(old(um).registers@[reg_c as int] as u8)
            && same_memory(*old(um), *final(um))
            && final(um).registers@ == old(um).registers@
            && final(um).program_counter == old(um).program_counter + 1,
        old(um).registers@[reg_c as int] > 255 ==> r is None && *final(um) == *old(um),
{
    let v = um.registers[reg_c as usize];
    if v <= 255 {
        um.program_counter = um.program_counter + 1;
        Some(v as u8)
    } else {
        None
    }
}

/// Input: register C receives the byte zero-extended, or 0xFFFFFFFF at
/// end-of-stream; the program counter advances either way.
pub fn input(um: &mut UniversalMachine, reg_c: u32, byte: Option<u8>)
    requires
        old(um).wf(),
        reg_c < 8,
        old(um).program_counter < usize::MAX,
    ensures
        final(um).wf(),
        input_post(*old(um), *final(um), reg_c, byte),
{
    match byte {
        Some(b) => {
            um.registers[reg_c as usize] = b as u32;
        },
        None => {
            um.registers[reg_c as usize] = 0xFFFF_FFFFu32;
        },
    }
    um.program_counter = um.program_counter + 1;
}

/// A sequence of `n` zero words: the contents of a freshly mapped segment.
pub open spec fn zero_words(n: u32) -> Seq<u32> {
    Seq::new(n as nat, |i: int| 0u32)
}

/// The identifier that the next map operation issues: the most recently
/// freed one when any waits in the pool, else the next fresh one.
pub open spec fn issued_id(pool: Seq<u32>, next_fresh: u32) -> u32 {
    if pool.len() > 0 {
        pool.last()
    } else {
        next_fresh
    }
}

/// Whether the words of the segment named `id` can be addressed at `off`.
pub open spec fn seg_addr_ok(m: UniversalMachine, id: u32, off: u32) -> bool {
    m.is_mapped(id) && off < m.seg(id).len()
}

/// The effect of a segmented load that did not fault: register A receives
/// the word of segment register-B at offset register-C.
pub open spec fn load_post(pre: UniversalMachine, post: UniversalMachine, a: u32, b: u32, c: u32) -> bool {
    &&& same_memory(pre, post)
    &&& post.program_counter == pre.program_counter + 1
    &&& post.registers@ == pre.registers@.update(
        a as int,
        pre.seg(pre.registers@[b as int])[pre.registers@[c as int] as int],
    )
}

/// The effect of a segmented store that did not fault: the word of segment
/// register-A at offset register-B receives register C; no other slot and no
/// register changes.
pub open spec fn store_post(pre: UniversalMachine, post: UniversalMachine, a: u32, b: u32, c: u32) -> bool {
    let id = pre.registers@[a as int];
    &&& post.registers@ == pre.registers@
    &&& post.id_pool@ == pre.id_pool@
    &&& post.segment_ids == pre.segment_ids
    &&& post.program_counter == pre.program_counter + 1
    &&& post.segments@.len() == pre.segments@.len()
    &&& post.is_mapped(id)
    &&& post.seg(id) == pre.seg(id).update(
        pre.registers@[b as int] as int,
        pre.registers@[c as int],
    )
    &&& forall|j: int|
        0 <= j < pre.segments@.len() && j != id as int
            ==> post.segments@[j] == pre.segments@[j]
}

/// The effect of a map that did not fault: a zero-filled segment of
/// register-C words is placed under the issued identifier, register B
/// receives that identifier, and the identifier lifecycle advances (pool
/// popped, or counter incremented).
pub open spec fn map_post(pre: UniversalMachine, post: UniversalMachine, b: u32, c: u32) -> bool {
    let id = issued_id(pre.id_pool@, pre.segment_ids);
    &&& post.registers@ == pre.registers@.update(b as int, id)
    &&& post.program_counter == pre.program_counter + 1
    &&& post.is_mapped(id)
    &&& post.seg(id) == zero_words(pre.registers@[c as int])
    &&& forall|j: int|
        0 <= j < pre.segments@.len() && j != id as int
            ==> post.segments@[j] == pre.segments@[j]
    &&& if pre.id_pool@.len() > 0 {
        &&& post.id_pool@ == pre.id_pool@.drop_last()
        &&& post.segment_ids == pre.segment_ids
        &&& post.segments@.len() == pre.segments@.len()
    } else {
        &&& post.id_pool@ == pre.id_pool@
        &&& post.segment_ids == pre.segment_ids + 1
        &&& post.segments@.len() == pre.segments@.len() + 1
    }
}

/// The effect of an unmap that did not fault: the slot of the freed
/// identifier becomes unmapped and the identifier joins the pool, newest
/// last; nothing else changes.
pub open spec fn unmap_post(pre: UniversalMachine, post: UniversalMachine, c: u32) -> bool {
    let id = pre.registers@[c as int];
    &&& post.registers@ == pre.registers@
    &&& post.segment_ids == pre.segment_ids
    &&& post.program_counter == pre.program_counter + 1
    &&& post.segments@.len() == pre.segments@.len()
    &&& !post.is_mapped(id)
    &&& post.id_pool@ == pre.id_pool@.push(id)
    &&& forall|j: int|
        0 <= j < pre.segments@.len() && j != id as int
            ==> post.segments@[j] == pre.segments@[j]
}

/// The effect of a load-program that did not fault with a non-zero operand:
/// segment 0 becomes a copy of the segment named by register B and the
/// program counter becomes register C.
pub open spec fn load_program_post(pre: UniversalMachine, post: UniversalMachine, b: u32, c: u32) -> bool {
    let id = pre.registers@[b as int];
    &&& post.registers@ == pre.registers@
    &&& post.id_pool@ == pre.id_pool@
    &&& post.segment_ids == pre.segment_ids
    &&& post.program_counter == pre.registers@[c as int] as int
    &&& post.segments@.len() == pre.segments@.len()
    &&& post.is_mapped(0)
    &&& post.seg(0) == pre.seg(id)
    &&& forall|j: int|
        0 < j < pre.segments@.len() ==> post.segments@[j] == pre.segments@[j]
}

/// A vector of `n` zero words.
fn zero_segment(n: u32) -> (v: Vec<u32>)
    ensures
        v@ == zero_words(n),
{
    let mut v: Vec<u32> = Vec::new();
    let mut i: u32 = 0;
    while i < n
        invariant
            i <= n,
            v@.len() == i as int,
            forall|j: int| 0 <= j < i ==> v@[j] == 0u32,
        decreases n - i,
    {
        v.push(0);
        i = i + 1;
    }
    proof {
        assert(v@ =~= zero_words(n));
    }
    v
}

/// A copy of the given word vector.
fn copy_words(src: &Vec<u32>) -> (v: Vec<u32>)
    ensures
        v@ == src@,
{
    let mut v: Vec<u32> = Vec::new();
    let mut i: usize = 0;
    while i < src.len()
        invariant
            i <= src@.len(),
            v@.len() == i as int,
            forall|j: int| 0 <= j < i ==> v@[j] == src@[j],
        decreases src@.len() - i,
    {
        v.push(src[i]);
        i = i + 1;
    }
    proof {
        assert(v@ =~= src@);
    }
    v
}

/// Segmented load: register A receives segment[register B][register C]; an
/// unmapped identifier or an offset past the segment's end is a bounds
/// fault that leaves the machine unchanged.
pub fn load(um: &mut UniversalMachine, reg_a: u32, reg_b: u32, reg_c: u32) -> (r: Result<(), FaultKind>)
    requires
        old(um).wf(),
        reg_a < 8,
        reg_b < 8,
        reg_c < 8,
        old(um).program_counter < usize::MAX,
    ensures
        final(um).wf(),
        seg_addr_ok(*old(um), old(um).registers@[reg_b as int], old(um).registers@[reg_c as int])
            ==> r == Ok::<(), FaultKind>(()) && load_post(*old(um), *final(um), reg_a, reg_b, reg_c),
        !seg_addr_ok(*old(um), old(um).registers@[reg_b as int], old(um).registers@[reg_c as int])
            ==> r == Err::<(), FaultKind>(FaultKind::Bounds) && *final(um) == *old(um),
{
    let id = um.registers[reg_b as usize];
    let off = um.registers[reg_c as usize];
    let idx = id as usize;
    if idx < um.segments.len() {
        match &um.segments[idx] {
            Some(seg) => {
                if (off as usize) < seg.len() {
                    let v = seg[off as usize];
                    um.registers[reg_a as usize] = v;
                    um.program_counter = um.program_counter + 1;
                    Ok(())
                } else {
                    Err(FaultKind::Bounds)
                }
            },
            None => Err(FaultKind::Bounds),
        }
    } else {
        Err(FaultKind::Bounds)
    }
}

/// Segmented store: segment[register A][register B] receives register C;
/// an unmapped identifier or an offset past the segment's end is a bounds
/// fault that leaves the machine unchanged.
pub fn store(um: &mut UniversalMachine, reg_a: u32, reg_b: u32, reg_c: u32) -> (r: Result<(), FaultKind>)
    requires
        old(um).wf(),
        reg_a < 8,
        reg_b < 8,
        reg_c < 8,
        old(um).program_counter < usize::MAX,
    ensures
        final(um).wf(),
        seg_addr_ok(*old(um), old(um).registers@[reg_a as int], old(um).registers@[reg_b as int])
            ==> r == Ok::<(), FaultKind>(()) && store_post(*old(um), *final(um), reg_a, reg_b, reg_c),
        !seg_addr_ok(*old(um), old(um).registers@[reg_a as int], old(um).registers@[reg_b as int])
            ==> r == Err::<(), FaultKind>(FaultKind::Bounds) && *final(um) == *old(um),
{
    let id = um.registers[reg_a as usize];
    let off = um.registers[reg_b as usize];
    let val = um.registers[reg_c as usize];
    let idx = id as usize;
    if idx < um.segments.len() {
        let fits = match &um.segments[idx] {
            Some(seg) => (off as usize) < seg.len(),
            None => false,
        };
        if fits {
            let taken: Option<Vec<u32>> = um.segments[idx].take();
            match taken {
                Some(mut seg) => {
                    seg[off as usize] = val;
                    um.segments[idx] = Some(seg);
                    um.program_counter = um.program_counter + 1;
                    proof {
                        assert(forall|j: int|
                            0 <= j < old(um).segments@.len() && j != id as int
                                ==> um.segments@[j] == old(um).segments@[j]);
                    }
                    Ok(())
                },
                None => Err(FaultKind::Bounds),
            }
        } else {
            Err(FaultKind::Bounds)
        }
    } else {
        Err(FaultKind::Bounds)
    }
}

/// Map segment: a zero-filled segment of register-C words appears under a
/// recycled identifier when one waits in the pool, else under the next
/// fresh identifier; register B receives the identifier. The one machine
/// limit is an exhausted identifier counter, a bounds fault.
pub fn map_segment(um: &mut UniversalMachine, reg_b: u32, reg_c: u32) -> (r: Result<(), FaultKind>)
    requires
        old(um).wf(),
        reg_b < 8,
        reg_c < 8,
        old(um).program_counter < usize::MAX,
    ensures
        final(um).wf(),
        old(um).id_pool@.len() > 0 || old(um).segment_ids < u32::MAX ==> r == Ok::<(), FaultKind>(())
            && map_post(*old(um), *final(um), reg_b, reg_c)
            && final(um).registers@[reg_b as int] == issued_id(old(um).id_pool@, old(um).segment_ids),
        old(um).id_pool@.len() == 0 && old(um).segment_ids == u32::MAX
            ==> r == Err::<(), FaultKind>(FaultKind::Bounds) && *final(um) == *old(um),
{
    let n = um.registers[reg_c as usize];
    if um.id_pool.len() > 0 {
        let id = match um.id_pool.pop() {
            Some(id) => id,
            None => 0,
        };
        let seg = zero_segment(n);
        um.segments[id as usize] = Some(seg);
        um.registers[reg_b as usize] = id;
        um.program_counter = um.program_counter + 1;
        proof {
            assert(um.id_pool@ == old(um).id_pool@.drop_last());
            assert(forall|i: int|
                0 <= i < um.id_pool@.len() ==> um.id_pool@[i] == old(um).id_pool@[i]);
        }
        Ok(())
    } else if um.segment_ids < u32::MAX {
        let id = um.segment_ids;
        let seg = zero_segment(n);
        um.segments.push(Some(seg));
        um.registers[reg_b as usize] = id;
        um.segment_ids = id + 1;
        um.program_counter = um.program_counter + 1;
        Ok(())
    } else {
        Err(FaultKind::Bounds)
    }
}

/// Unmap segment: the identifier in register C is released to the pool and
/// its slot becomes unmapped; an unmapped identifier, or identifier 0, is a
/// bounds fault that leaves the machine unchanged.
pub fn unmap_segment(um: &mut UniversalMachine, reg_c: u32) -> (r: Result<(), FaultKind>)
    requires
        old(um).wf(),
        reg_c < 8,
        old(um).program_counter < usize::MAX,
    ensures
        final(um).wf(),
        old(um).registers@[reg_c as int] != 0 && old(um).is_mapped(old(um).registers@[reg_c as int])
            ==> r == Ok::<(), FaultKind>(()) && unmap_post(*old(um), *final(um), reg_c),
        old(um).registers@[reg_c as int] == 0 || !old(um).is_mapped(old(um).registers@[reg_c as int])
            ==> r == Err::<(), FaultKind>(FaultKind::Bounds) && *final(um) == *old(um),
{
    let id = um.registers[reg_c as usize];
    let idx = id as usize;
    if id != 0 && idx < um.segments.len() && um.segments[idx].is_some() {
        um.segments[idx] = None;
        um.id_pool.push(id);
        um.program_counter = um.program_counter + 1;
        Ok(())
    } else {
        Err(FaultKind::Bounds)
    }
}

/// Load program: with register B zero only the program counter moves, to
/// register C; with a non-zero mapped identifier, segment 0 becomes a copy
/// of that segment and the program counter becomes register C; a non-zero
/// unmapped identifier is a bounds fault that leaves the machine unchanged.
pub fn load_program(um: &mut UniversalMachine, reg_b: u32, reg_c: u32) -> (r: Result<(), FaultKind>)
    requires
        old(um).wf(),
        reg_b < 8,
        reg_c < 8,
    ensures
        final(um).wf(),
        old(um).registers@[reg_b as int] == 0 ==> r == Ok::<(), FaultKind>(())
            && same_memory(*old(um), *final(um))
            && final(um).registers@ == old(um).registers@
            && final(um).program_counter == old(um).registers@[reg_c as int] as int,
        old(um).registers@[reg_b as int] != 0 && old(um).is_mapped(old(um).registers@[reg_b as int])
            ==> r == Ok::<(), FaultKind>(()) && load_program_post(*old(um), *final(um), reg_b, reg_c),
        old(um).registers@[reg_b as int] != 0 && !old(um).is_mapped(old(um).registers@[reg_b as int])
            ==> r == Err::<(), FaultKind>(FaultKind::Bounds) && *final(um) == *old(um),
{
    let rb = um.registers[reg_b as usize];
    let rc = um.registers[reg_c as usize];
    if rb == 0 {
        um.program_counter = rc as usize;
        Ok(())
    } else {
        let idx = rb as usize;
        if idx < um.segments.len() {
            let copied = match &um.segments[idx] {
                Some(seg) => Some(copy_words(seg)),
                None => None,
            };
            match copied {
                Some(v) => {
                    um.segments[0] = Some(v);
                    um.program_counter = rc as usize;
                    Ok(())
                },
                None => Err(FaultKind::Bounds),
            }
        } else {
            Err(FaultKind::Bounds)
        }
    }
}

/// The fourteen instructions, in the order of their opcode numbers 0 to 13.
#[derive(Clone, Copy, PartialEq, Eq, Structural, Debug)]
pub enum Opcode {
    CMov,
    Load,
    Store,
    Add,
    Mul,
    Div,
    Nand,
    Halt,
    MapSegment,
    UnmapSegment,
    Output,
    Input,
    LoadProgram,
    LoadValue,
}

/// The instruction selected by an opcode field value; values outside 0 to 13
/// name no instruction.
pub open spec fn spec_opcode(value: u32) -> Option<Opcode> {
    if value == 0 {
        Some(Opcode::CMov)
    } else if value == 1 {
        Some(Opcode::Load)
    } else if value == 2 {
        Some(Opcode::Store)
    } else if value == 3 {
        Some(Opcode::Add)
    } else if value == 4 {
        Some(Opcode::Mul)
    } else if value == 5 {
        Some(Opcode::Div)
    } else if value == 6 {
        Some(Opcode::Nand)
    } else if value == 7 {
        Some(Opcode::Halt)
    } else if value == 8 {
        Some(Opcode::MapSegment)
    } else if value == 9 {
        Some(Opcode::UnmapSegment)
    } else if value == 10 {
        Some(Opcode::Output)
    } else if value == 11 {
        Some(Opcode::Input)
    } else if value == 12 {
        Some(Opcode::LoadProgram)
    } else if value == 13 {
        Some(Opcode::LoadValue)
    } else {
        None
    }
}

/// The fallible conversion from a decoded opcode field to an instruction.
pub fn decode(value: u32) -> (r: Option<Opcode>)
    ensures
        r == spec_opcode(value),
{
    match value {
        0 => Some(Opcode::CMov),
        1 => Some(Opcode::Load),
        2 => Some(Opcode::Store),
        3 => Some(Opcode::Add),
        4 => Some(Opcode::Mul),
        5 => Some(Opcode::Div),
        6 => Some(Opcode::Nand),
        7 => Some(Opcode::Halt),
        8 => Some(Opcode::MapSegment),
        9 => Some(Opcode::UnmapSegment),
        10 => Some(Opcode::Output),
        11 => Some(Opcode::Input),
        12 => Some(Opcode::LoadProgram),
        13 => Some(Opcode::LoadValue),
        _ => None,
    }
}

/// What one dispatched instruction asks of the surrounding run loop.
#[derive(Clone, Copy, PartialEq, Eq, Structural, Debug)]
pub enum StepOutcome {
    /// The instruction was applied; the run goes on.
    Continue,
    /// The instruction was applied and produced one output byte.
    Output(u8),
    /// An input instruction: the machine is unchanged and awaits a byte
    /// (or end-of-stream) for this register, to be handed to `input`.
    NeedInput(u32),
    /// The halt instruction: the run ends in the controlled state.
    Halt,
    /// A fatal condition: the machine is unchanged and the run ends.
    Fault(FaultKind),
}

/// Decodes and applies one instruction word, leaving any byte-stream I/O to
/// the caller: an output byte is handed back, and an input instruction is
/// reported with its target register so the caller can fetch a byte and
/// complete it through `input`.
pub fn do_instruction(inst: u32, um: &mut UniversalMachine) -> (r: StepOutcome)
    requires
        old(um).wf(),
        old(um).program_counter < usize::MAX,
    ensures
        final(um).wf(),
        ({
            let a = spec_extract(inst, 3, 6);
            let b = spec_extract(inst, 3, 3);
            let c = spec_extract(inst, 3, 0);
            let l = spec_extract(inst, 3, 25);
            let value = spec_extract(inst, 25, 0);
            let pre = *old(um);
            let post = *final(um);
            match spec_opcode(spec_extract(inst, 4, 28)) {
                Some(Opcode::CMov) => r == StepOutcome::Continue && cmov_post(pre, post, a, b, c),
                Some(Opcode::Load) => if seg_addr_ok(pre, pre.registers@[b as int], pre.registers@[c as int]) {
                    r == StepOutcome::Continue && load_post(pre, post, a, b, c)
                } else {
                    r == StepOutcome::Fault(FaultKind::Bounds) && post == pre
                },
                Some(Opcode::Store) => if seg_addr_ok(pre, pre.registers@[a as int], pre.registers@[b as int]) {
                    r == StepOutcome::Continue && store_post(pre, post, a, b, c)
                } else {
                    r == StepOutcome::Fault(FaultKind::Bounds) && post == pre
                },
                Some(Opcode::Add) => r == StepOutcome::Continue && add_post(pre, post, a, b, c),
                Some(Opcode::Mul) => r == StepOutcome::Continue && mul_post(pre, post, a, b, c),
                Some(Opcode::Div) => if pre.registers@[c as int] != 0 {
                    r == StepOutcome::Continue && div_post(pre, post, a, b, c)
                } else {
                    r == StepOutcome::Fault(FaultKind::Arithmetic) && post == pre
                },
                Some(Opcode::Nand) => r == StepOutcome::Continue && nand_post(pre, post, a, b, c),
                Some(Opcode::Halt) => r == StepOutcome::Halt && post == pre,
                Some(Opcode::MapSegment) => if pre.id_pool@.len() > 0 || pre.segment_ids < u32::MAX {
                    r == StepOutcome::Continue && map_post(pre, post, b, c)
                } else {
                    r == StepOutcome::Fault(FaultKind::Bounds) && post == pre
                },
                Some(Opcode::UnmapSegment) => if pre.registers@[c as int] != 0
                    && pre.is_mapped(pre.registers@[c as int]) {
                    r == StepOutcome::Continue && unmap_post(pre, post, c)
                } else {
                    r == StepOutcome::Fault(FaultKind::Bounds) && post == pre
                },
                Some(Opcode::Output) => if pre.registers@[c as int] <= 255 {
                    r == StepOutcome::Output(pre.registers@[c as int] as u8)
                        && same_memory(pre, post)
                        && post.registers@ == pre.registers@
                        && post.program_counter == pre.program_counter + 1
                } else {
                    r == StepOutcome::Fault(FaultKind::Io) && post == pre
                },
                Some(Opcode::Input) => r == StepOutcome::NeedInput(c) && c < 8 && post == pre,
                Some(Opcode::LoadProgram) => if pre.registers@[b as int] == 0 {
                    r == StepOutcome::Continue
                        && same_memory(pre, post)
                        && post.registers@ == pre.registers@
                        && post.program_counter == pre.registers@[c as int] as int
                } else if pre.is_mapped(pre.registers@[b as int]) {
                    r == StepOutcome::Continue && load_program_post(pre, post, b, c)
                } else {
                    r == StepOutcome::Fault(FaultKind::Bounds) && post == pre
                },
                Some(Opcode::LoadValue) => r == StepOutcome::Continue && load_value_post(pre, post, l, value),
                None => r == StepOutcome::Fault(FaultKind::Decode) && post == pre,
            }
        }),
{
    proof {
        assert(spec_extract(inst, 3, 6) < 8 && spec_extract(inst, 3, 3) < 8
            && spec_extract(inst, 3, 0) < 8 && spec_extract(inst, 3, 25) < 8) by (bit_vector);
    }
    let op = get(&(Field { width: 4, lsb: 28 }), inst);
    let a = get(&(Field { width: 3, lsb: 6 }), inst);
    let b = get(&(Field { width: 3, lsb: 3 }), inst);
    let c = get(&(Field { width: 3, lsb: 0 }), inst);
    match decode(op) {
        Some(Opcode::CMov) => {
            cmov(um, a, b, c);
            StepOutcome::Continue
        },
        Some(Opcode::Load) => match load(um, a, b, c) {
            Ok(()) => StepOutcome::Continue,
            Err(k) => StepOutcome::Fault(k),
        },
        Some(Opcode::Store) => match store(um, a, b, c) {
            Ok(()) => StepOutcome::Continue,
            Err(k) => StepOutcome::Fault(k),
        },
        Some(Opcode::Add) => {
            crate::rum_instruction::add(um, a, b, c);
            StepOutcome::Continue
        },
        Some(Opcode::Mul) => {
            multiply(um, a, b, c);
            StepOutcome::Continue
        },
        Some(Opcode::Div) => match divide(um, a, b, c) {
            Ok(()) => StepOutcome::Continue,
            Err(k) => StepOutcome::Fault(k),
        },
        Some(Opcode::Nand) => {
            nand(um, a, b, c);
            StepOutcome::Continue
        },
        Some(Opcode::Halt) => StepOutcome::Halt,
        Some(Opcode::MapSegment) => match map_segment(um, b, c) {
            Ok(()) => StepOutcome::Continue,
            Err(k) => StepOutcome::Fault(k),
        },
        Some(Opcode::UnmapSegment) => match unmap_segment(um, c) {
            Ok(()) => StepOutcome::Continue,
            Err(k) => StepOutcome::Fault(k),
        },
        Some(Opcode::Output) => match output(um, c) {
            Some(byte) => StepOutcome::Output(byte),
            None => StepOutcome::Fault(FaultKind::Io),
        },
        Some(Opcode::Input) => StepOutcome::NeedInput(c),
        Some(Opcode::LoadProgram) => match load_program(um, b, c) {
            Ok(()) => StepOutcome::Continue,
            Err(k) => StepOutcome::Fault(k),
        },
        Some(Opcode::LoadValue) => {
            let l = get(&(Field { width: 3, lsb: 25 }), inst);
            let value = get(&(Field { width: 25, lsb: 0 }), inst);
            load_value(um, l, value);
            StepOutcome::Continue
        },
        None => StepOutcome::Fault(FaultKind::Decode),
    }
}

/// Law: mapping a segment right after unmapping one reissues exactly the
/// identifier that was freed, before any new identifier is minted. `pre` is
/// the state before the unmap, `mid` the state it produced, and `post` the
/// state after the following map; register C of the unmap held the freed
/// identifier and register B of the map receives it again.
pub proof fn lemma_unmap_then_map_reuses_id(
    pre: UniversalMachine,
    mid: UniversalMachine,
    post: UniversalMachine,
    rc: u32,
    rb2: u32,
    rc2: u32,
)
    requires
        pre.wf(),
        rc < 8,
        rb2 < 8,
        unmap_post(pre, mid, rc),
        map_post(mid, post, rb2, rc2),
    ensures
        post.registers@[rb2 as int] == pre.registers@[rc as int],
{
    assert(mid.id_pool@.last() == pre.registers@[rc as int]);
}

/// Law: while no identifier waits in the pool, each map issues the current
/// value of the fresh-identifier counter and advances it by one, and the
/// pool stays empty; so a sequence of maps with no intervening unmap on a
/// fresh machine issues 1, 2, 3, ... in order.
pub proof fn lemma_fresh_ids_sequential(
    pre: UniversalMachine,
    post: UniversalMachine,
    rb: u32,
    rc: u32,
)
    requires
        pre.wf(),
        rb < 8,
        pre.id_pool@.len() == 0,
        map_post(pre, post, rb, rc),
    ensures
        post.registers@[rb as int] == pre.segment_ids,
        post.segment_ids == pre.segment_ids + 1,
        post.id_pool@.len() == 0,
{
}

/// Law: after an unmap, the freed identifier is not mapped, so until a map
/// reissues it, every segmented load or store, every unmap and every
/// load-program that references it faults (their contracts make a bounds
/// fault of any unmapped identifier).
pub proof fn lemma_unmap_leaves_id_unmapped(pre: UniversalMachine, post: UniversalMachine, rc: u32)
    requires
        pre.wf(),
        rc < 8,
        unmap_post(pre, post, rc),
    ensures
        !post.is_mapped(pre.registers@[rc as int]),
        forall|off: u32| !seg_addr_ok(post, pre.registers@[rc as int], off),
{
}

} // verus!
