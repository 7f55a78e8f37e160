use deet::session::{Session, Status, SIGTRAP};
use deet::table::BreakpointTable;
use deet::words::{align_addr_to_word, splice_byte, TRAP_OPCODE, WORD_SIZE};

#[test]
fn word_size_and_trap() {
    assert_eq!(WORD_SIZE, 8);
    assert_eq!(TRAP_OPCODE, 0xCC);
}

#[test]
fn align_addr() {
    assert_eq!(align_addr_to_word(0x1005), 0x1000);
    assert_eq!(align_addr_to_word(0x1000), 0x1000);
    assert_eq!(align_addr_to_word(7), 0);
    assert_eq!(align_addr_to_word(8), 8);
}

#[test]
fn splice_extracts_and_replaces() {
    let word: u64 = 0x1122334455667788;
    let (updated, orig) = splice_byte(word, 3, 0xCC);
    assert_eq!(orig, 0x55);
    assert_eq!(updated, 0x11223344CC667788);
    let (updated2, orig2) = splice_byte(word, 0, 0xCC);
    assert_eq!(orig2, 0x88);
    assert_eq!(updated2, 0x11223344556677CC);
}

#[test]
fn splice_round_trip() {
    // the aligned word returns bit-identical after writing any byte and
    // writing the displaced byte back
    let word: u64 = 0xDEADBEEF01020304;
    for off in 0..8u64 {
        for val in [0x00u8, 0x7F, 0xCC, 0xFF] {
            let (planted, orig) = splice_byte(word, off, val);
            let (restored, seen) = splice_byte(planted, off, orig);
            assert_eq!(seen, val);
            assert_eq!(restored, word);
        }
    }
}

#[test]
fn table_insert_get_ordinal() {
    let mut t = BreakpointTable::new();
    assert_eq!(t.len(), 0);
    let ord0 = t.insert(0x4005b8);
    assert_eq!(ord0, 0);
    let ord1 = t.insert(0x400700);
    assert_eq!(ord1, 1);
    let bp = t.get(0x4005b8).unwrap();
    assert_eq!(bp.addr, 0x4005b8);
    assert_eq!(bp.orig_byte, 0);
    t.set_orig(0x4005b8, 0x55);
    assert_eq!(t.get(0x4005b8).unwrap().orig_byte, 0x55);
    // re-inserting the same address overwrites and keeps the count
    let ord2 = t.insert(0x4005b8);
    assert_eq!(ord2, 1);
    assert_eq!(t.len(), 2);
    assert_eq!(t.get(0x4005b8).unwrap().orig_byte, 0);
    assert!(t.get(0x999).is_none());
}

#[test]
fn at_most_one_inferior() {
    // a run with a live inferior asks for a kill first and leaves none
    let mut s = Session::new();
    assert!(!s.begin_run());
    s.mark_spawned();
    assert!(s.confirm_initial_stop(Status::Stopped(SIGTRAP, 0x1000)));
    assert!(s.live);
    let killed = s.begin_run();
    assert!(killed);
    assert!(!s.live);
}

#[test]
fn spawn_rejected_without_trap() {
    let mut s = Session::new();
    assert!(!s.begin_run());
    s.mark_spawned();
    assert!(!s.confirm_initial_stop(Status::Exited(0)));
    assert!(!s.live);
}

#[test]
fn step_over_keeps_breakpoint_armed() {
    // continue from a stop at our trap, then continue again: the table entry
    // and its displaced byte survive the dance
    let mut s = Session::new();
    let addr = 0x4005b8usize;
    s.insert_breakpoint(addr);
    assert!(!s.begin_run());
    s.mark_spawned();
    s.record_plant(addr, 0x55);
    assert!(s.confirm_initial_stop(Status::Stopped(SIGTRAP, 0x1000)));

    // the child runs into the trap: rip is one past the breakpoint
    let rip = addr + 1;
    let bp = s.resume_plan(rip).expect("stop at our trap");
    assert_eq!(bp.addr, addr);
    assert_eq!(bp.orig_byte, 0x55);
    s.record_unplant(addr, bp.orig_byte);
    let replant = s.step_over_outcome(addr, Status::Stopped(SIGTRAP, addr + 4));
    assert!(replant);
    s.apply_wait(Status::Stopped(SIGTRAP, rip));
    assert!(s.live);
    // a later stop at the same trap still finds the breakpoint armed
    let again = s.resume_plan(rip).expect("breakpoint re-armed");
    assert_eq!(again.orig_byte, 0x55);
}

#[test]
fn step_over_exit_discards_inferior() {
    let mut s = Session::new();
    let addr = 0x4000usize;
    s.insert_breakpoint(addr);
    assert!(!s.begin_run());
    s.mark_spawned();
    s.record_plant(addr, 0x89);
    assert!(s.confirm_initial_stop(Status::Stopped(SIGTRAP, 0x100)));
    s.record_unplant(addr, 0x89);
    let replant = s.step_over_outcome(addr, Status::Exited(0));
    assert!(!replant);
    assert!(!s.live);
}

#[test]
fn breakpoint_while_stopped_is_planted() {
    let mut s = Session::new();
    assert!(!s.begin_run());
    s.mark_spawned();
    assert!(s.confirm_initial_stop(Status::Stopped(SIGTRAP, 0x100)));
    let ord = s.insert_breakpoint(0x2000);
    assert_eq!(ord, 0);
    s.record_plant(0x2000, 0x48);
    let bp = s.table.get(0x2000).unwrap();
    assert_eq!(bp.orig_byte, 0x48);
}
