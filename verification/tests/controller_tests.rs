use deet::inferior::{
    after_step, event_status, AfterStep, Breakpoint, Inferior, Resume, Status,
};
use deet::simulated::{SimulatedProcess, EFAULT, SIGSEGV};
use deet::tracee::{Registers, TraceError, Tracee, WaitEvent, SIGTRAP};
use deet::word::{extract_byte, TRAP_OPCODE};

const BASE: usize = 0x1000;
const END: usize = 0x1040;
const NOPS: u64 = 0x9090909090909090;

/// Eight words of code from 0x1000 on, then eight words of stack.
fn process() -> SimulatedProcess {
    let mut words = vec![NOPS; 8];
    words[4] = 0x9090909090909055;
    words.extend(vec![0u64; 8]);
    SimulatedProcess::new(BASE, words, BASE, END, 0x1060, 0).expect("the block is aligned")
}

fn started(breakpoints: &Vec<usize>) -> Inferior<SimulatedProcess> {
    Inferior::new(process(), breakpoints).expect("the process stops for tracing")
}

fn byte(inferior: &Inferior<SimulatedProcess>, addr: usize) -> u8 {
    inferior.child().byte_at(addr).expect("the address is mapped")
}

#[test]
fn a_process_block_must_start_at_a_word() {
    assert!(SimulatedProcess::new(0x1001, vec![0], 0x1001, 0x1008, 0, 0).is_none());
    assert!(SimulatedProcess::new(usize::MAX - 7, vec![0, 0], 0, 0, 0, 0).is_none());
    assert!(SimulatedProcess::new(0x1000, vec![], 0x1000, 0x1000, 0, 0).is_some());
}

#[test]
fn wait_events_stand_for_statuses() {
    assert_eq!(event_status(WaitEvent::Exited(3), 0x55), Ok(Status::Exited(3)));
    assert_eq!(event_status(WaitEvent::Signaled(9), 0x55), Ok(Status::Signaled(9)));
    assert_eq!(event_status(WaitEvent::Stopped(5), 0x55), Ok(Status::Stopped(5, 0x55)));
    assert_eq!(event_status(WaitEvent::Unsupported, 0x55), Err(TraceError::UnsupportedEvent));
}

#[test]
fn only_a_trap_stop_rearms_after_the_step() {
    assert_eq!(after_step(Status::Stopped(SIGTRAP, 0x10)), AfterStep::Rearm);
    assert_eq!(
        after_step(Status::Stopped(SIGSEGV, 0x10)),
        AfterStep::Report(Status::Stopped(SIGSEGV, 0x10))
    );
    assert_eq!(after_step(Status::Exited(0)), AfterStep::Report(Status::Exited(0)));
    assert_eq!(after_step(Status::Signaled(9)), AfterStep::Report(Status::Signaled(9)));
}

#[test]
fn starting_patches_every_pending_address() {
    let inferior = started(&vec![0x1020, 0x1003, 0x1020]);
    assert_eq!(byte(&inferior, 0x1020), TRAP_OPCODE);
    assert_eq!(byte(&inferior, 0x1003), TRAP_OPCODE);
    assert_eq!(byte(&inferior, 0x1002), 0x90);
    assert_eq!(byte(&inferior, 0x1021), 0x90);
    assert_eq!(inferior.breakpoint(0x1020), Some(Breakpoint { addr: 0x1020, orig_byte: 0x55 }));
    assert_eq!(inferior.breakpoint(0x1003), Some(Breakpoint { addr: 0x1003, orig_byte: 0x90 }));
    assert_eq!(inferior.breakpoint(0x1004), None);
}

#[test]
fn starting_fails_on_an_address_that_is_not_mapped() {
    assert!(Inferior::new(process(), &vec![0x1020, 0x9000]).is_none());
    assert!(Inferior::new(process(), &vec![0xff8]).is_none());
}

#[test]
fn starting_fails_when_the_first_stop_is_no_trap() {
    let mut child = process();
    assert_eq!(child.wait(), Ok(WaitEvent::Stopped(SIGTRAP)));
    assert!(Inferior::new(child, &vec![]).is_none());
}

#[test]
fn inserting_twice_keeps_one_entry_with_the_first_byte() {
    let mut inferior = started(&vec![]);
    assert_eq!(byte(&inferior, 0x1020), 0x55);
    assert_eq!(inferior.insert_breakpoint(0x1020), Ok(()));
    assert_eq!(byte(&inferior, 0x1020), TRAP_OPCODE);
    assert_eq!(inferior.breakpoint(0x1020), Some(Breakpoint { addr: 0x1020, orig_byte: 0x55 }));
    assert_eq!(inferior.insert_breakpoint(0x1020), Ok(()));
    assert_eq!(byte(&inferior, 0x1020), TRAP_OPCODE);
    assert_eq!(inferior.breakpoint(0x1020), Some(Breakpoint { addr: 0x1020, orig_byte: 0x55 }));
}

#[test]
fn inserting_changes_one_byte_of_the_word() {
    let mut inferior = started(&vec![]);
    let before = inferior.read_word(0x1020).expect("mapped");
    assert_eq!(inferior.insert_breakpoint(0x1023), Ok(()));
    let after = inferior.read_word(0x1020).expect("mapped");
    assert_eq!(before, 0x9090909090909055);
    assert_eq!(after, 0x90909090cc909055);
    for index in 0..8usize {
        if index != 3 {
            assert_eq!(extract_byte(after, index), extract_byte(before, index));
        }
    }
}

#[test]
fn inserting_at_an_unmapped_address_fails_and_records_nothing() {
    let mut inferior = started(&vec![]);
    assert_eq!(inferior.insert_breakpoint(0x9000), Err(TraceError::Os(EFAULT)));
    assert_eq!(inferior.breakpoint(0x9000), None);
    assert_eq!(inferior.insert_breakpoint(0xfff), Err(TraceError::Os(EFAULT)));
    assert_eq!(inferior.breakpoint(0xfff), None);
    assert_eq!(inferior.insert_breakpoint(0x1000), Ok(()));
}

#[test]
fn the_byte_goes_from_value_to_trap_to_value_to_trap() {
    let mut inferior = started(&vec![]);
    let memory_before = inferior.read_word(0x1020);
    assert_eq!(byte(&inferior, 0x1020), 0x55);
    assert_eq!(inferior.insert_breakpoint(0x1020), Ok(()));
    assert_eq!(byte(&inferior, 0x1020), TRAP_OPCODE);
    let saved = inferior.breakpoint(0x1020).expect("inserted").orig_byte;
    assert_eq!(inferior.lift(0x1020, saved), Ok(()));
    assert_eq!(byte(&inferior, 0x1020), 0x55);
    assert_eq!(inferior.read_word(0x1020), memory_before);
    assert_eq!(inferior.registers(), Ok(Registers { pc: 0x1020, frame_base: 0x1060 }));
    assert_eq!(inferior.rearm(0x1020), Ok(()));
    assert_eq!(byte(&inferior, 0x1020), TRAP_OPCODE);
    assert_eq!(inferior.breakpoint(0x1020), Some(Breakpoint { addr: 0x1020, orig_byte: 0x55 }));
}

#[test]
fn write_byte_returns_the_byte_it_replaces() {
    let mut inferior = started(&vec![]);
    assert_eq!(inferior.write_byte(0x1020, 0x11), Ok(0x55));
    assert_eq!(inferior.write_byte(0x1020, 0x22), Ok(0x11));
    assert_eq!(inferior.write_byte(0x1027, 0x33), Ok(0x90));
    assert_eq!(inferior.read_word(0x1020), Ok(0x3390909090909022));
    assert_eq!(inferior.write_byte(0x2000, 0x33), Err(TraceError::Os(EFAULT)));
}

#[test]
fn removing_restores_the_byte_and_forgets_the_address() {
    let mut inferior = started(&vec![0x1020]);
    assert_eq!(byte(&inferior, 0x1020), TRAP_OPCODE);
    assert_eq!(inferior.remove_breakpoint(0x1020), Ok(()));
    assert_eq!(byte(&inferior, 0x1020), 0x55);
    assert_eq!(inferior.breakpoint(0x1020), None);
    assert_eq!(inferior.remove_breakpoint(0x1020), Ok(()));
    assert_eq!(inferior.remove_breakpoint(0x9000), Ok(()));
    assert_eq!(byte(&inferior, 0x1020), 0x55);
}

#[test]
fn the_plan_looks_one_byte_behind_the_program_counter() {
    let inferior = started(&vec![0x1020]);
    assert_eq!(
        inferior.resume_plan(0x1021),
        Resume::OverBreakpoint { address: 0x1020, original_byte: 0x55 }
    );
    assert_eq!(inferior.resume_plan(0x1020), Resume::Plain);
    assert_eq!(inferior.resume_plan(0x1022), Resume::Plain);
    assert_eq!(inferior.resume_plan(0), Resume::Plain);
}

#[test]
fn a_breakpoint_at_address_zero_is_found_from_one() {
    let child = SimulatedProcess::new(0, vec![NOPS], 0, 8, 0, 0).expect("aligned");
    let inferior = Inferior::new(child, &vec![0]).expect("starts");
    assert_eq!(inferior.resume_plan(1), Resume::OverBreakpoint { address: 0, original_byte: 0x90 });
    assert_eq!(inferior.resume_plan(0), Resume::Plain);
}

#[test]
fn a_process_without_breakpoints_runs_to_its_exit() {
    let mut inferior = started(&vec![]);
    assert_eq!(inferior.cont(), Ok(Status::Exited(0)));
}

#[test]
fn the_exit_code_is_reported() {
    let child = SimulatedProcess::new(BASE, vec![NOPS], BASE, BASE + 8, 0, 7).expect("aligned");
    let mut inferior = Inferior::new(child, &vec![]).expect("starts");
    assert_eq!(inferior.cont(), Ok(Status::Exited(7)));
}

#[test]
fn a_breakpoint_is_hit_once_per_pass() {
    let mut inferior = started(&vec![0x1020]);
    assert_eq!(inferior.cont(), Ok(Status::Stopped(SIGTRAP, 0x1021)));
    assert_eq!(byte(&inferior, 0x1020), TRAP_OPCODE);
    let ran = inferior.child().executed_bytes().clone();
    assert_eq!(ran.len(), 33);
    assert_eq!(ran[32], TRAP_OPCODE);
    assert_eq!(inferior.cont(), Ok(Status::Exited(0)));
}

#[test]
fn the_instruction_under_the_trap_runs_when_resuming() {
    let mut inferior = started(&vec![0x1020]);
    assert_eq!(inferior.cont(), Ok(Status::Stopped(SIGTRAP, 0x1021)));
    assert_eq!(inferior.step_over(0x1020, 0x55), Ok(None));
    assert_eq!(byte(&inferior, 0x1020), TRAP_OPCODE);
    assert_eq!(inferior.registers(), Ok(Registers { pc: 0x1021, frame_base: 0x1060 }));
    let ran = inferior.child().executed_bytes().clone();
    assert_eq!(ran.len(), 34);
    assert_eq!(ran[32], TRAP_OPCODE);
    assert_eq!(ran[33], 0x55);
    assert_eq!(ran.iter().filter(|b| **b == TRAP_OPCODE).count(), 1);
}

#[test]
fn two_breakpoints_in_a_row_stop_one_after_the_other() {
    let mut inferior = started(&vec![0x1020, 0x1021]);
    assert_eq!(inferior.cont(), Ok(Status::Stopped(SIGTRAP, 0x1021)));
    assert_eq!(inferior.cont(), Ok(Status::Stopped(SIGTRAP, 0x1022)));
    assert_eq!(byte(&inferior, 0x1020), TRAP_OPCODE);
    assert_eq!(byte(&inferior, 0x1021), TRAP_OPCODE);
    assert_eq!(inferior.cont(), Ok(Status::Exited(0)));
}

#[test]
fn a_step_that_ends_the_process_is_reported_without_rearming() {
    let child = SimulatedProcess::new(BASE, vec![NOPS], BASE, BASE + 8, 0, 4).expect("aligned");
    let mut inferior = Inferior::new(child, &vec![0x1008 - 1]).expect("starts");
    assert_eq!(inferior.cont(), Ok(Status::Stopped(SIGTRAP, 0x1008)));
    assert_eq!(inferior.cont(), Ok(Status::Exited(4)));
}

#[test]
fn a_step_that_faults_is_reported_without_rearming() {
    let child = SimulatedProcess::new(BASE, vec![NOPS], BASE, 0x2000, 0, 0).expect("aligned");
    let mut inferior = Inferior::new(child, &vec![0x1007]).expect("starts");
    assert_eq!(inferior.cont(), Ok(Status::Stopped(SIGTRAP, 0x1008)));
    assert_eq!(inferior.step_over(0x1007, 0x90), Ok(None));
    assert_eq!(inferior.cont(), Ok(Status::Stopped(SIGSEGV, 0x1008)));
    assert_eq!(inferior.child().byte_at(0x1007), Some(TRAP_OPCODE));
}

#[test]
fn running_off_the_code_stops_with_a_fault() {
    let child = SimulatedProcess::new(BASE, vec![NOPS], BASE, 0x2000, 0, 0).expect("aligned");
    let mut inferior = Inferior::new(child, &vec![]).expect("starts");
    assert_eq!(inferior.cont(), Ok(Status::Stopped(SIGSEGV, 0x1008)));
}

#[test]
fn a_killed_process_cannot_be_resumed() {
    let mut inferior = started(&vec![0x1020]);
    inferior.kill();
    inferior.kill();
    assert!(matches!(inferior.cont(), Err(TraceError::Os(_))));
    assert!(matches!(inferior.wait(), Err(TraceError::Os(_))));
    assert_eq!(inferior.breakpoint(0x1020), Some(Breakpoint { addr: 0x1020, orig_byte: 0x55 }));
}

#[test]
fn the_process_id_is_that_of_the_child() {
    let inferior = started(&vec![]);
    assert_eq!(inferior.pid(), inferior.child().pid());
}
