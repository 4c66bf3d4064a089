use rum::emulation_unit::{run_um, FaultKind, RunStatus, UniversalMachine};
use rum::rum_instruction::{
    cmov, decode, divide, do_instruction, get, input, load, load_program, map_segment, multiply,
    output, store, unmap_segment, Field, Opcode, StepOutcome,
};

/// A three-register instruction word.
fn op(opcode: u32, a: u32, b: u32, c: u32) -> u32 {
    (opcode << 28) | (a << 6) | (b << 3) | c
}

/// A load-immediate instruction word.
fn loadimm(l: u32, v: u32) -> u32 {
    (13 << 28) | (l << 25) | v
}

fn fresh(prog: Vec<u32>) -> UniversalMachine {
    UniversalMachine::new(prog)
}

#[test]
fn test_cat() {
    // Echo every input byte until end-of-stream, then halt.
    let prog = vec![
        op(11, 0, 0, 1),  // 0: input r1
        op(6, 2, 1, 1),   // 1: r2 := r1 nand r1 (zero exactly at end-of-stream)
        loadimm(3, 8),    // 2: r3 := 8 (halt address)
        loadimm(4, 6),    // 3: r4 := 6 (echo address)
        op(0, 3, 4, 2),   // 4: if r2 != 0 { r3 := r4 }
        op(12, 0, 0, 3),  // 5: jump to r3
        op(10, 0, 0, 1),  // 6: output r1
        op(12, 0, 0, 5),  // 7: jump to r5 (= 0)
        op(7, 0, 0, 0),   // 8: halt
    ];
    let r = run_um(prog, b"meow".to_vec(), 1000);
    assert_eq!(r.output, b"meow".to_vec());
    assert_eq!(r.status, RunStatus::Halted);
}

#[test]
fn test_hello_program_halts() {
    // Writes 'H' and 'i' and halts in the controlled state.
    let prog = vec![
        loadimm(0, 72),
        loadimm(1, 105),
        op(10, 0, 0, 0),
        op(10, 0, 0, 1),
        op(7, 0, 0, 0),
    ];
    let r = run_um(prog, Vec::new(), 100);
    assert_eq!(r.output, b"Hi".to_vec());
    assert_eq!(r.status, RunStatus::Halted);
}

#[test]
fn test_zero_length_segment_load_faults() {
    // Maps a zero-length segment, then loads index 0 from it.
    let prog = vec![
        op(8, 0, 1, 0), // map segment of r0 (= 0) words, id into r1
        op(1, 2, 1, 3), // r2 := m[r1][r3], r3 = 0: out of bounds
    ];
    let r = run_um(prog, Vec::new(), 100);
    assert_eq!(r.status, RunStatus::Faulted(FaultKind::Bounds));
}

#[test]
fn test_add_wraps_modulo() {
    let mut um = fresh(vec![]);
    um.registers[1] = 0xFFFF_FFFF;
    um.registers[2] = 1;
    rum::rum_instruction::add(&mut um, 0, 1, 2);
    assert_eq!(um.registers[0], 0);
    assert_eq!(um.program_counter, 1);

    um.registers[1] = 3_000_000_000;
    um.registers[2] = 3_000_000_000;
    rum::rum_instruction::add(&mut um, 3, 1, 2);
    assert_eq!(um.registers[3], (6_000_000_000u64 % 0x1_0000_0000) as u32);
}

#[test]
fn test_multiply_wraps_modulo() {
    let mut um = fresh(vec![]);
    um.registers[1] = 0x8000_0000;
    um.registers[2] = 2;
    multiply(&mut um, 0, 1, 2);
    assert_eq!(um.registers[0], 0);

    um.registers[1] = 65537;
    um.registers[2] = 65537;
    multiply(&mut um, 3, 1, 2);
    assert_eq!(um.registers[3], 0x0002_0001);
}

#[test]
fn test_divide_truncates() {
    let mut um = fresh(vec![]);
    um.registers[1] = 7;
    um.registers[2] = 2;
    assert_eq!(divide(&mut um, 0, 1, 2), Ok(()));
    assert_eq!(um.registers[0], 3);
}

#[test]
fn test_divide_by_zero_faults() {
    let prog = vec![
        loadimm(1, 7),
        op(5, 0, 1, 2), // r0 := r1 / r2, r2 = 0
    ];
    let r = run_um(prog, Vec::new(), 100);
    assert_eq!(r.status, RunStatus::Faulted(FaultKind::Arithmetic));

    let mut um = fresh(vec![]);
    um.registers[1] = 9;
    assert_eq!(divide(&mut um, 0, 1, 2), Err(FaultKind::Arithmetic));
    assert_eq!(um.registers[0], 0);
    assert_eq!(um.program_counter, 0);
}

#[test]
fn test_cmov_zero_keeps_target() {
    let mut um = fresh(vec![]);
    um.registers[0] = 11;
    um.registers[1] = 22;
    // r2 is 0: r0 keeps its value, the program counter still advances.
    cmov(&mut um, 0, 1, 2);
    assert_eq!(um.registers[0], 11);
    assert_eq!(um.program_counter, 1);
}

#[test]
fn test_cmov_nonzero_copies() {
    let mut um = fresh(vec![]);
    um.registers[0] = 11;
    um.registers[1] = 22;
    um.registers[2] = 5;
    cmov(&mut um, 0, 1, 2);
    assert_eq!(um.registers[0], 22);
    assert_eq!(um.program_counter, 1);
}

#[test]
fn test_map_issues_sequential_ids() {
    let mut um = fresh(vec![]);
    um.registers[7] = 4; // segment length
    for expected in 1..=5u32 {
        assert_eq!(map_segment(&mut um, 1, 7), Ok(()));
        assert_eq!(um.registers[1], expected);
    }
}

#[test]
fn test_map_reuses_freed_id() {
    let mut um = fresh(vec![]);
    um.registers[7] = 4;
    assert_eq!(map_segment(&mut um, 1, 7), Ok(())); // id 1
    assert_eq!(map_segment(&mut um, 2, 7), Ok(())); // id 2
    um.registers[3] = 1;
    assert_eq!(unmap_segment(&mut um, 3), Ok(()));
    // The freed identifier 1 comes back before a fresh 3 is minted.
    assert_eq!(map_segment(&mut um, 4, 7), Ok(()));
    assert_eq!(um.registers[4], 1);
    assert_eq!(map_segment(&mut um, 5, 7), Ok(()));
    assert_eq!(um.registers[5], 3);
}

#[test]
fn test_use_after_unmap_faults() {
    let mut um = fresh(vec![]);
    um.registers[7] = 4;
    assert_eq!(map_segment(&mut um, 1, 7), Ok(())); // id 1 in r1
    um.registers[3] = 1;
    assert_eq!(unmap_segment(&mut um, 3), Ok(()));
    // r1 still holds the freed identifier 1.
    assert_eq!(load(&mut um, 0, 1, 2), Err(FaultKind::Bounds));
    assert_eq!(store(&mut um, 1, 2, 0), Err(FaultKind::Bounds));
    assert_eq!(unmap_segment(&mut um, 1), Err(FaultKind::Bounds));
    assert_eq!(load_program(&mut um, 1, 2), Err(FaultKind::Bounds));
}

#[test]
fn test_unmap_zero_faults() {
    let mut um = fresh(vec![1, 2, 3]);
    // r0 is 0: segment 0 may never be unmapped.
    assert_eq!(unmap_segment(&mut um, 0), Err(FaultKind::Bounds));
}

#[test]
fn test_load_program_zero_is_jump() {
    let mut um = fresh(vec![111, 222, 333]);
    um.registers[2] = 2;
    // r1 is 0: only the program counter changes.
    assert_eq!(load_program(&mut um, 1, 2), Ok(()));
    assert_eq!(um.program_counter, 2);
    assert_eq!(um.segments[0].as_ref().unwrap(), &vec![111, 222, 333]);
}

#[test]
fn test_load_program_replaces_segment_zero() {
    let mut um = fresh(vec![111, 222, 333]);
    um.registers[7] = 1;
    assert_eq!(map_segment(&mut um, 1, 7), Ok(())); // id 1, one word
    // m[r1][r4] := r5, with r4 = 0 and r5 = 999.
    um.registers[5] = 999;
    assert_eq!(store(&mut um, 1, 4, 5), Ok(()));
    um.registers[6] = 0;
    assert_eq!(load_program(&mut um, 1, 6), Ok(()));
    // Segment 0 now has the copied content and the new, shorter length.
    assert_eq!(um.segments[0].as_ref().unwrap(), &vec![999]);
    assert_eq!(um.program_counter, 0);
    // The source segment is untouched.
    assert_eq!(um.segments[1].as_ref().unwrap(), &vec![999]);
}

#[test]
fn test_output_byte_value() {
    let mut um = fresh(vec![]);
    um.registers[2] = 65;
    assert_eq!(output(&mut um, 2), Some(0x41));
    assert_eq!(um.program_counter, 1);
}

#[test]
fn test_output_too_large_faults() {
    let prog = vec![
        loadimm(0, 256),
        op(10, 0, 0, 0),
    ];
    let r = run_um(prog, Vec::new(), 100);
    assert_eq!(r.status, RunStatus::Faulted(FaultKind::Io));
    assert_eq!(r.output, Vec::<u8>::new());
}

#[test]
fn test_input_at_end_of_stream() {
    let mut um = fresh(vec![]);
    input(&mut um, 1, None);
    assert_eq!(um.registers[1], 0xFFFF_FFFF);
    assert_eq!(um.program_counter, 1);

    let prog = vec![
        op(11, 0, 0, 1), // input r1 with nothing to read
        op(7, 0, 0, 0),
    ];
    let r = run_um(prog, Vec::new(), 100);
    assert_eq!(r.status, RunStatus::Halted);
    assert_eq!(r.machine.registers[1], 0xFFFF_FFFF);
}

#[test]
fn test_input_reads_bytes_in_order() {
    let prog = vec![
        op(11, 0, 0, 1), // input r1
        op(11, 0, 0, 2), // input r2
        op(7, 0, 0, 0),
    ];
    let r = run_um(prog, vec![10, 200], 100);
    assert_eq!(r.status, RunStatus::Halted);
    assert_eq!(r.machine.registers[1], 10);
    assert_eq!(r.machine.registers[2], 200);
}

#[test]
fn test_get_extracts_fields() {
    let word = op(5, 3, 6, 7);
    assert_eq!(get(&Field { width: 4, lsb: 28 }, word), 5);
    assert_eq!(get(&Field { width: 3, lsb: 6 }, word), 3);
    assert_eq!(get(&Field { width: 3, lsb: 3 }, word), 6);
    assert_eq!(get(&Field { width: 3, lsb: 0 }, word), 7);

    let li = loadimm(4, 0x123_4567);
    assert_eq!(get(&Field { width: 4, lsb: 28 }, li), 13);
    assert_eq!(get(&Field { width: 3, lsb: 25 }, li), 4);
    assert_eq!(get(&Field { width: 25, lsb: 0 }, li), 0x123_4567);
}

#[test]
fn test_decode_rejects_bad_opcode() {
    assert_eq!(decode(0), Some(Opcode::CMov));
    assert_eq!(decode(13), Some(Opcode::LoadValue));
    assert_eq!(decode(14), None);
    assert_eq!(decode(15), None);

    let mut um = fresh(vec![0]);
    let r = do_instruction(14 << 28, &mut um);
    assert_eq!(r, StepOutcome::Fault(FaultKind::Decode));
}

#[test]
fn test_map_zero_length_is_legal() {
    let mut um = fresh(vec![]);
    // r7 = 0 words.
    assert_eq!(map_segment(&mut um, 1, 7), Ok(()));
    assert_eq!(um.registers[1], 1);
    assert_eq!(um.segments[1].as_ref().unwrap(), &Vec::<u32>::new());
}

#[test]
fn test_words_from_bytes_big_endian() {
    let bytes = vec![0x00, 0x00, 0x00, 0x01, 0xDE, 0xAD, 0xBE, 0xEF];
    let words = rum::emulation_unit::words_from_bytes(&bytes).unwrap();
    assert_eq!(words, vec![1, 0xDEAD_BEEF]);

    assert!(rum::emulation_unit::words_from_bytes(&vec![1, 2, 3]).is_none());
    assert_eq!(
        rum::emulation_unit::words_from_bytes(&Vec::new()),
        Some(Vec::new())
    );
}

#[test]
fn test_fetch_past_end_faults_the_run() {
    // One conditional move, then the counter leaves the program segment.
    let prog = vec![op(0, 0, 1, 2)];
    let r = run_um(prog, Vec::new(), 100);
    assert_eq!(r.status, RunStatus::Faulted(FaultKind::Bounds));
}

#[test]
fn test_run_out_of_budget_is_still_running() {
    // An unbounded loop is a valid program: jump to 0 forever.
    let prog = vec![op(12, 0, 0, 1)];
    let r = run_um(prog, Vec::new(), 50);
    assert_eq!(r.status, RunStatus::Running);
}

#[test]
fn test_store_then_load_round_trip() {
    let mut um = fresh(vec![0, 0, 0]);
    // m[r0][r1] := r2 with r0 = 0, r1 = 1, r2 = 77.
    um.registers[1] = 1;
    um.registers[2] = 77;
    assert_eq!(store(&mut um, 0, 1, 2), Ok(()));
    // r3 := m[r0][r1]
    assert_eq!(load(&mut um, 3, 0, 1), Ok(()));
    assert_eq!(um.registers[3], 77);
}

#[test]
fn test_self_modifying_program() {
    // Builds a halt word (opcode 7 in the top four bits) in a register,
    // stores it over slot 5 of segment 0, then executes that slot. Without
    // the store, slot 5 would decode to the invalid opcode 15.
    let prog = vec![
        loadimm(1, 7 << 22),   // 0: r1 := 7 << 22
        loadimm(2, 64),        // 1: r2 := 64
        op(4, 3, 1, 2),        // 2: r3 := r1 * r2 (= 7 << 28, a halt word)
        loadimm(4, 5),         // 3: r4 := 5
        op(2, 0, 4, 3),        // 4: m[r0][r4] := r3 (r0 = 0: the program itself)
        0xFFFF_FFFF,           // 5: overwritten with halt before it runs
    ];
    let r = run_um(prog, Vec::new(), 100);
    assert_eq!(r.status, RunStatus::Halted);

    // The unmodified slot really is an invalid opcode.
    let bad = run_um(vec![0xFFFF_FFFF], Vec::new(), 100);
    assert_eq!(bad.status, RunStatus::Faulted(FaultKind::Decode));
}

#[test]
fn test_jump_skips_instructions() {
    let prog = vec![
        loadimm(2, 65),  // 0: r2 := 'A'
        loadimm(1, 4),   // 1: r1 := 4
        op(12, 0, 0, 1), // 2: jump to r1 (r0 = 0: no reload)
        op(10, 0, 0, 2), // 3: output r2 (skipped)
        op(7, 0, 0, 0),  // 4: halt
    ];
    let r = run_um(prog, Vec::new(), 100);
    assert_eq!(r.status, RunStatus::Halted);
    assert_eq!(r.output, Vec::<u8>::new());
}

#[test]
fn test_nand_all_bits() {
    let mut um = fresh(vec![]);
    um.registers[1] = 0xF0F0_F0F0;
    um.registers[2] = 0xFF00_FF00;
    rum::rum_instruction::nand(&mut um, 0, 1, 2);
    assert_eq!(um.registers[0], !(0xF0F0_F0F0u32 & 0xFF00_FF00u32));
}
