//! The process controller: one traced child, its breakpoint table, and the
//! protocol that resumes the child across a breakpoint.

use crate::tracee::{Registers, Request, TraceError, Tracee, WaitEvent, SIGTRAP};
use crate::word::{
    align_addr_to_word, extract_byte, lemma_patch_keeps_other_bytes, lemma_patch_undone,
    lemma_patched_byte, mem_byte, mem_patch, offset_in_word, replace_byte, word_base, TRAP_OPCODE,
};
use std::collections::HashMap;
use vstd::prelude::*;

verus! {

broadcast use vstd::std_specs::hash::group_hash_axioms;

/// The state of the child after a wait.
#[derive(Clone, Copy, Debug, PartialEq, Eq, Structural)]
pub enum Status {
    /// The child is stopped. Holds the number of the signal that stopped
    /// it and the program counter it is stopped at.
    Stopped(i32, usize),
    /// The child exited by itself. Holds its exit code.
    Exited(i32),
    /// The child was ended by a signal. Holds the signal's number.
    Signaled(i32),
}

/// A patched address and the byte that the trap instruction replaced.
#[derive(Clone, Copy, Debug, PartialEq, Eq, Structural)]
pub struct Breakpoint {
    pub addr: usize,
    pub orig_byte: u8,
}

/// How the child is to be resumed from where it is stopped.
#[derive(Clone, Copy, Debug, PartialEq, Eq, Structural)]
pub enum Resume {
    /// The child is not stopped on a breakpoint: let it run.
    Plain,
    /// The child has just run the trap instruction at `address`, which
    /// stands where `original_byte` was.
    OverBreakpoint { address: usize, original_byte: u8 },
}

/// What follows the single step over a lifted breakpoint.
#[derive(Clone, Copy, Debug, PartialEq, Eq, Structural)]
pub enum AfterStep {
    /// The step ended in the trap stop it should: arm the breakpoint
    /// again and let the child run.
    Rearm,
    /// The step ended otherwise: hand this status to the caller and leave
    /// the breakpoint lifted.
    Report(Status),
}

/// The status that a wait event stands for; `pc` is the program counter
/// read after a stop.
pub open spec fn status_of(event: WaitEvent, pc: usize) -> Result<Status, TraceError> {
    match event {
        WaitEvent::Exited(code) => Ok(Status::Exited(code)),
        WaitEvent::Signaled(signal) => Ok(Status::Signaled(signal)),
        WaitEvent::Stopped(signal) => Ok(Status::Stopped(signal, pc)),
        WaitEvent::Unsupported => Err(TraceError::UnsupportedEvent),
    }
}

/// How to resume a child stopped at `pc`, given the patched addresses.
/// A trap is reported after the trap instruction has run, so the
/// breakpoint that stopped the child lies one byte before `pc`.
pub open spec fn resume_from(table: Map<usize, u8>, pc: usize) -> Resume {
    if pc >= 1 && table.contains_key((pc - 1) as usize) {
        Resume::OverBreakpoint {
            address: (pc - 1) as usize,
            original_byte: table[(pc - 1) as usize],
        }
    } else {
        Resume::Plain
    }
}

/// The decision after the single step over a lifted breakpoint.
pub open spec fn decide_after_step(status: Status) -> AfterStep {
    match status {
        Status::Stopped(signal, _) => if signal == SIGTRAP {
            AfterStep::Rearm
        } else {
            AfterStep::Report(status)
        },
        _ => AfterStep::Report(status),
    }
}

/// Turns a wait event into the status it stands for.
pub fn event_status(event: WaitEvent, pc: usize) -> (status: Result<Status, TraceError>)
    ensures
        status == status_of(event, pc),
{
    match event {
        WaitEvent::Exited(code) => Ok(Status::Exited(code)),
        WaitEvent::Signaled(signal) => Ok(Status::Signaled(signal)),
        WaitEvent::Stopped(signal) => Ok(Status::Stopped(signal, pc)),
        WaitEvent::Unsupported => Err(TraceError::UnsupportedEvent),
    }
}

/// Decides what follows the single step over a lifted breakpoint.
pub fn after_step(status: Status) -> (next: AfterStep)
    ensures
        next == decide_after_step(status),
{
    match status {
        Status::Stopped(signal, _) => {
            if signal == SIGTRAP {
                AfterStep::Rearm
            } else {
                AfterStep::Report(status)
            }
        },
        _ => AfterStep::Report(status),
    }
}

/// The breakpoint table after `addr` is inserted: an address that is in
/// the table stays as it is, a new one enters with the byte that the
/// memory holds there.
pub open spec fn table_with(table: Map<usize, u8>, mem: Map<usize, u64>, addr: usize) -> Map<
    usize,
    u8,
> {
    if table.contains_key(addr) {
        table
    } else {
        table.insert(addr, mem_byte(mem, addr))
    }
}

/// The memory after `addr` is inserted: untouched for an address that is
/// in the table, with the trap opcode at `addr` for a new one.
pub open spec fn memory_with(table: Map<usize, u8>, mem: Map<usize, u64>, addr: usize) -> Map<
    usize,
    u64,
> {
    if table.contains_key(addr) {
        mem
    } else {
        mem_patch(mem, addr, TRAP_OPCODE)
    }
}

/// The breakpoint table after the addresses of `addrs` were inserted one
/// after the other, starting from `table` and the memory `mem`.
pub open spec fn armed_table(table: Map<usize, u8>, mem: Map<usize, u64>, addrs: Seq<usize>) -> Map<
    usize,
    u8,
>
    decreases addrs.len(),
{
    if addrs.len() == 0 {
        table
    } else {
        table_with(
            armed_table(table, mem, addrs.drop_last()),
            armed_memory(table, mem, addrs.drop_last()),
            addrs.last(),
        )
    }
}

/// The memory after the addresses of `addrs` were inserted one after the
/// other, starting from `table` and the memory `mem`.
pub open spec fn armed_memory(table: Map<usize, u8>, mem: Map<usize, u64>, addrs: Seq<usize>) -> Map<
    usize,
    u64,
>
    decreases addrs.len(),
{
    if addrs.len() == 0 {
        mem
    } else {
        memory_with(
            armed_table(table, mem, addrs.drop_last()),
            armed_memory(table, mem, addrs.drop_last()),
            addrs.last(),
        )
    }
}

/// The request that writes the word holding the byte at `addr`.
pub open spec fn poke_at(addr: usize) -> Request {
    Request::Poke { addr: word_base(addr) }
}

/// What stepping over the breakpoint at `address` asks of the child, in
/// this order: write the saved byte back, move the program counter back
/// onto it, run one instruction, wait for the stop, write the trap
/// again.
pub open spec fn step_over_requests(address: usize) -> Seq<Request> {
    seq![
        poke_at(address),
        Request::SetProgramCounter { pc: address },
        Request::Step,
        Request::Wait,
        poke_at(address),
    ]
}

/// What resuming asks of the child, in order: the step over the
/// breakpoint it is stopped on, if it is stopped on one, then to run on,
/// then to wait.
pub open spec fn resume_requests(plan: Resume) -> Seq<Request> {
    match plan {
        Resume::Plain => seq![Request::Resume, Request::Wait],
        Resume::OverBreakpoint { address, .. } => step_over_requests(address) + seq![
            Request::Resume,
            Request::Wait,
        ],
    }
}

/// What replaying the addresses of `addrs` into a fresh child asks of
/// it: one write for each address, at its first place in the list.
pub open spec fn arming_requests(addrs: Seq<usize>) -> Seq<Request>
    decreases addrs.len(),
{
    if addrs.len() == 0 {
        Seq::empty()
    } else if addrs.drop_last().contains(addrs.last()) {
        arming_requests(addrs.drop_last())
    } else {
        arming_requests(addrs.drop_last()).push(poke_at(addrs.last()))
    }
}

/// The status that a wait reports which found `collected` pending: that
/// of an exit, of a death by signal, or of a stop where the process is
/// there for its program counter `pc` to be read; none where nothing was
/// pending or the event is of no kind the debugger handles.
pub open spec fn reported(collected: Option<WaitEvent>, present: bool, pc: usize) -> Option<
    Status,
> {
    match collected {
        Some(WaitEvent::Stopped(signal)) => if present {
            Some(Status::Stopped(signal, pc))
        } else {
            None
        },
        Some(WaitEvent::Exited(code)) => Some(Status::Exited(code)),
        Some(WaitEvent::Signaled(signal)) => Some(Status::Signaled(signal)),
        _ => None,
    }
}

/// Whether every address of `addrs` lies in a word that `mem` maps.
pub open spec fn all_mapped(mem: Map<usize, u64>, addrs: Seq<usize>) -> bool {
    forall|i: int| 0 <= i < addrs.len() ==> mem.contains_key(word_base(#[trigger] addrs[i]))
}

/// Whether `made` and `status` are what a resume from `pc` can lead to:
/// the requests are those of the resume from `pc`, in order, as far as
/// they were made; a status is returned either after all of them, or
/// after the wait that follows the single step, where that step did not
/// end in a trap stop.
pub open spec fn resume_run(
    table: Map<usize, u8>,
    pc: usize,
    made: Seq<Request>,
    status: Result<Status, TraceError>,
) -> bool {
    let plan = resume_from(table, pc);
    &&& made.is_prefix_of(resume_requests(plan))
    &&& status matches Ok(s) ==> made == resume_requests(plan) || (plan
        matches Resume::OverBreakpoint { address, .. } && made == step_over_requests(address).take(
        4,
    ) && decide_after_step(s) == AfterStep::Report(s))
}

/// The requests made since the journal read `before`.
pub open spec fn made_since(before: Seq<Request>, now: Seq<Request>) -> Seq<Request> {
    now.skip(before.len() as int)
}

/// Whether `after` is the child `before` after it was killed: the table
/// stays, the kill is the one request made, and a modelled child is no
/// longer there and has nothing left to report.
pub open spec fn killed<T: Tracee>(before: Inferior<T>, after: Inferior<T>) -> bool {
    &&& after.breakpoints() == before.breakpoints()
    &&& after.requests() == before.requests().push(Request::Kill)
    &&& before.modelled() ==> {
        &&& after.modelled()
        &&& !after.present()
        &&& after.pending() is None
        &&& after.stepped_memory() == before.stepped_memory()
        &&& after.stepped_registers() == before.stepped_registers()
        &&& after.after_step_memory() == before.after_step_memory()
        &&& after.resumed_memory() == before.resumed_memory()
        &&& after.resumed_collected() == before.resumed_collected()
    }
}

/// Whether `started` is what taking over the child `tracee` with the
/// addresses `addrs` gives. A child that is taken over holds exactly
/// those addresses, and was asked to wait once and to write once for
/// each address. For a modelled child it is taken over exactly where a
/// trap stop is pending, the child is there and every address is
/// mapped; table and memory are then those of the replay.
pub open spec fn taken_over<T: Tracee>(
    tracee: T,
    addrs: Seq<usize>,
    started: Option<Inferior<T>>,
) -> bool {
    &&& started matches Some(inferior) ==> inferior.breakpoints().dom() =~= addrs.to_set()
        && inferior.requests() == tracee.requests().push(Request::Wait) + arming_requests(addrs)
    &&& tracee.modelled() ==> {
        &&& started is Some <==> tracee.pending() == Some(WaitEvent::Stopped(SIGTRAP))
            && tracee.present() && all_mapped(tracee.memory(), addrs)
        &&& started matches Some(inferior) ==> {
            &&& inferior.modelled()
            &&& inferior.breakpoints() == armed_table(Map::empty(), tracee.memory(), addrs)
            &&& inferior.memory() == armed_memory(Map::empty(), tracee.memory(), addrs)
            &&& inferior.register_file() == tracee.register_file()
            &&& inferior.present()
            &&& inferior.pending() is None
            &&& inferior.collected() == Some(WaitEvent::Stopped(SIGTRAP))
        }
    }
}

/// Whether `status` is what the last wait on `child` reported: its
/// report, or an error where it had none.
pub open spec fn reported_by<T: Tracee>(child: Inferior<T>, status: Result<Status, TraceError>) -> bool {
    match child.last_report() {
        Some(report) => status == Ok::<Status, TraceError>(report),
        None => status is Err,
    }
}

/// What a resume makes of a modelled child. A child that is not there,
/// or whose breakpoint lies in no mapped word, is left as it is, with an
/// error. A child that is not stopped on a breakpoint is asked to run on
/// with its memory untouched, and the status is what the wait then
/// reported. A child stopped on a breakpoint is stepped with the saved
/// byte back in place and the program counter on it. Where the step
/// ends in a trap stop, the trap is written again, and nothing else,
/// before the child is asked to run on; where it ends otherwise, its
/// status is returned at once and the memory is as the step left it.
pub open spec fn resumed_on_model<T: Tracee>(
    before: Inferior<T>,
    after: Inferior<T>,
    status: Result<Status, TraceError>,
) -> bool {
    let plan = resume_from(before.breakpoints(), before.register_file().pc);
    let made = made_since(before.requests(), after.requests());
    &&& after.modelled()
    &&& resume_run(before.breakpoints(), before.register_file().pc, made, status)
    &&& if !before.present() {
        status is Err && after.tracee() == before.tracee()
    } else {
        match plan {
            Resume::Plain => {
                &&& made == resume_requests(plan)
                &&& after.resumed_memory() == before.memory()
                &&& after.resumed_collected() == before.collected()
                &&& reported_by(after, status)
            },
            Resume::OverBreakpoint { address, original_byte } => if !before.memory().contains_key(
                word_base(address),
            ) {
                status is Err && after.tracee() == before.tracee()
            } else {
                &&& made.len() >= 4
                &&& original_byte == before.breakpoints()[address]
                &&& after.stepped_memory() == mem_patch(before.memory(), address, original_byte)
                &&& mem_byte(after.stepped_memory(), address) == original_byte
                &&& after.stepped_registers() == (Registers {
                    pc: address,
                    frame_base: before.register_file().frame_base,
                })
                &&& if made.len() == 4 {
                    &&& after.memory() == after.after_step_memory()
                    &&& after.resumed_memory() == before.resumed_memory()
                    &&& after.resumed_collected() == before.resumed_collected()
                    &&& match after.last_report() {
                        Some(report) => if decide_after_step(report) == AfterStep::Report(report) {
                            status == Ok::<Status, TraceError>(report)
                        } else {
                            status is Err
                        },
                        None => status is Err,
                    }
                } else {
                    &&& after.resumed_collected() == Some(WaitEvent::Stopped(SIGTRAP))
                    &&& after.resumed_memory() == mem_patch(
                        after.after_step_memory(),
                        address,
                        TRAP_OPCODE,
                    )
                    &&& mem_byte(after.resumed_memory(), address) == TRAP_OPCODE
                    &&& if made == resume_requests(plan) {
                        reported_by(after, status)
                    } else {
                        status is Err
                    }
                }
            },
        }
    }
}

/// Whether `after` and `status` are what a resume makes of the child
/// `before`. The table stays; the requests made are those of a resume
/// from the child's program counter, in order, as far as they were made;
/// and a modelled child is held to `resumed_on_model`.
pub open spec fn resumed<T: Tracee>(
    before: Inferior<T>,
    after: Inferior<T>,
    status: Result<Status, TraceError>,
) -> bool {
    &&& after.breakpoints() == before.breakpoints()
    &&& before.requests().is_prefix_of(after.requests())
    &&& exists|pc: usize| #[trigger]
        resume_run(
            before.breakpoints(),
            pc,
            made_since(before.requests(), after.requests()),
            status,
        )
    &&& before.modelled() ==> resumed_on_model(before, after, status)
}

/// A traced child and the breakpoints patched into it.
pub struct Inferior<T: Tracee> {
    tracee: T,
    breakpoints: HashMap<usize, u8>,
}

impl<T: Tracee> Inferior<T> {
    /// The traced child as it stands.
    pub closed spec fn tracee(&self) -> T {
        self.tracee
    }

    /// The breakpoint table: each patched address with the byte saved
    /// from it.
    pub closed spec fn breakpoints(&self) -> Map<usize, u8> {
        self.breakpoints@
    }

    /// Whether the child carries a model of its memory.
    pub open spec fn modelled(&self) -> bool {
        self.tracee().modelled()
    }

    /// The child's memory, where it is modelled.
    pub open spec fn memory(&self) -> Map<usize, u64> {
        self.tracee().memory()
    }

    /// The child's program counter and frame base, where they are
    /// modelled.
    pub open spec fn register_file(&self) -> Registers {
        self.tracee().register_file()
    }

    /// The requests made of the child so far.
    pub open spec fn requests(&self) -> Seq<Request> {
        self.tracee().requests()
    }

    /// Whether the child is there to take requests, where that is
    /// modelled.
    pub open spec fn present(&self) -> bool {
        self.tracee().present()
    }

    /// What the child has to report to the next wait, where that is
    /// modelled.
    pub open spec fn pending(&self) -> Option<WaitEvent> {
        self.tracee().pending()
    }

    /// What the last wait on the child found pending, where that is
    /// modelled.
    pub open spec fn collected(&self) -> Option<WaitEvent> {
        self.tracee().collected()
    }

    /// The child's memory as it was when the last single step was
    /// asked for, where that is modelled.
    pub open spec fn stepped_memory(&self) -> Map<usize, u64> {
        self.tracee().stepped_memory()
    }

    /// The child's registers as they were when the last single step
    /// was asked for, where that is modelled.
    pub open spec fn stepped_registers(&self) -> Registers {
        self.tracee().stepped_registers()
    }

    /// The child's memory as the last single step left it, where that
    /// is modelled.
    pub open spec fn after_step_memory(&self) -> Map<usize, u64> {
        self.tracee().after_step_memory()
    }

    /// The child's memory as it was when the child was last asked to
    /// run on, where that is modelled.
    pub open spec fn resumed_memory(&self) -> Map<usize, u64> {
        self.tracee().resumed_memory()
    }

    /// What the last wait had collected when the child was last asked
    /// to run on, where that is modelled.
    pub open spec fn resumed_collected(&self) -> Option<WaitEvent> {
        self.tracee().resumed_collected()
    }

    /// The status that the last wait on the child reported, where the
    /// child is modelled.
    pub open spec fn last_report(&self) -> Option<Status> {
        reported(self.collected(), self.present(), self.register_file().pc)
    }

    /// Takes over a child that was started with tracing switched on, so
    /// that it stops with a trap before its first instruction. Waits for
    /// that stop and then patches a breakpoint in at each address of
    /// `breakpoints`. Where the first stop is anything but a trap, or an
    /// address cannot be patched, the child is ended and nothing is
    /// returned.
    pub fn new(tracee: T, breakpoints: &Vec<usize>) -> (started: Option<Inferior<T>>)
        ensures
            taken_over(tracee, breakpoints@, started),
    {
        let mut inferior = Inferior { tracee, breakpoints: HashMap::new() };
        match inferior.wait() {
            Ok(Status::Stopped(signal, _)) => {
                if signal != SIGTRAP {
                    inferior.kill();
                    return None;
                }
            },
            _ => {
                inferior.kill();
                return None;
            },
        }
        let ghost pristine = inferior.memory();
        let ghost waited = inferior.requests();
        let mut i: usize = 0;
        assert(waited + arming_requests(breakpoints@.take(0)) =~= waited);
        while i < breakpoints.len()
            invariant
                i <= breakpoints.len(),
                inferior.breakpoints().dom() =~= breakpoints@.take(i as int).to_set(),
                tracee.modelled() ==> inferior.modelled() && pristine == tracee.memory(),
                waited == tracee.requests().push(Request::Wait),
                tracee.modelled() ==> inferior.register_file() == tracee.register_file(),
                tracee.modelled() ==> inferior.present() && inferior.pending() is None
                    && inferior.collected() == Some(WaitEvent::Stopped(SIGTRAP)),
                tracee.modelled() ==> tracee.pending() == Some(WaitEvent::Stopped(SIGTRAP))
                    && tracee.present(),
                tracee.modelled() ==> inferior.memory().dom() == pristine.dom(),
                tracee.modelled() ==> all_mapped(pristine, breakpoints@.take(i as int)),
                inferior.requests() == waited + arming_requests(breakpoints@.take(i as int)),
                tracee.modelled() ==> inferior.breakpoints() == armed_table(
                    Map::empty(),
                    pristine,
                    breakpoints@.take(i as int),
                ),
                tracee.modelled() ==> inferior.memory() == armed_memory(
                    Map::empty(),
                    pristine,
                    breakpoints@.take(i as int),
                ),
            decreases breakpoints.len() - i,
        {
            let ghost before = inferior.breakpoints();
            let ghost asked = inferior.requests();
            let addr = breakpoints[i];
            proof {
                let next = breakpoints@.take(i + 1);
                assert(next.drop_last() =~= breakpoints@.take(i as int));
                assert(next.last() == addr);
                assert(before.contains_key(addr) <==> breakpoints@.take(i as int).contains(addr));
                assert(waited + arming_requests(breakpoints@.take(i as int)).push(poke_at(addr))
                    =~= (waited + arming_requests(breakpoints@.take(i as int))).push(
                    poke_at(addr),
                ));
                assert(next.to_set() =~= breakpoints@.take(i as int).to_set().insert(addr)) by {
                    assert forall|a: usize| next.to_set().contains(a) implies breakpoints@.take(
                        i as int,
                    ).to_set().insert(addr).contains(a) by {
                        let j = choose|j: int| 0 <= j < next.len() && next[j] == a;
                        if j < i {
                            assert(breakpoints@.take(i as int)[j] == a);
                        }
                    }
                    assert forall|a: usize|
                        breakpoints@.take(i as int).to_set().insert(addr).contains(
                            a,
                        ) implies next.to_set().contains(a) by {
                        if a == addr {
                            assert(next[i as int] == a);
                        } else {
                            let j = choose|j: int|
                                0 <= j < i && breakpoints@.take(i as int)[j] == a;
                            assert(next[j] == a);
                        }
                    }
                }
            }
            let ghost memory_before = inferior.memory();
            match inferior.insert_breakpoint(addr) {
                Ok(()) => {},
                Err(_) => {
                    proof {
                        if tracee.modelled() {
                            assert(!pristine.contains_key(word_base(breakpoints@[i as int])));
                        }
                    }
                    inferior.kill();
                    return None;
                },
            }
            proof {
                if tracee.modelled() {
                    lemma_patched_byte(memory_before, addr, TRAP_OPCODE);
                    assert(pristine.contains_key(word_base(addr)));
                    assert(inferior.memory().dom() =~= pristine.dom());
                }
            }
            proof {
                assert(inferior.breakpoints().dom() =~= before.dom().insert(addr)) by {
                    assert(inferior.breakpoints().remove(addr) == before.remove(addr));
                    assert forall|a: usize|
                        inferior.breakpoints().dom().contains(a) == before.dom().insert(
                            addr,
                        ).contains(a) by {
                        if a != addr {
                            assert(inferior.breakpoints().remove(addr).contains_key(a)
                                == inferior.breakpoints().contains_key(a));
                            assert(before.remove(addr).contains_key(a) == before.contains_key(a));
                        }
                    }
                }
            }
            i += 1;
        }
        assert(breakpoints@.take(breakpoints.len() as int) =~= breakpoints@);
        Some(inferior)
    }

    /// Replaces the byte at `addr` in the child's memory by `val` and
    /// returns the byte that was there. The word that holds the byte is
    /// read, changed in that one byte and written back. The table is
    /// not touched.
    pub fn write_byte(&mut self, addr: usize, val: u8) -> (orig: Result<u8, TraceError>)
        ensures
            final(self).breakpoints() == old(self).breakpoints(),
            final(self).requests() == old(self).requests() || final(self).requests() == old(self).requests().push(poke_at(addr)),
            orig is Ok ==> final(self).requests() == old(self).requests().push(poke_at(addr)),
            old(self).modelled() ==> ({
                &&& final(self).modelled()
                &&& final(self).register_file() == old(self).register_file()
                &&& final(self).present() == old(self).present()
                &&& final(self).pending() == old(self).pending()
                &&& final(self).collected() == old(self).collected()
                &&& final(self).stepped_memory() == old(self).stepped_memory()
                &&& final(self).stepped_registers() == old(self).stepped_registers()
                &&& final(self).after_step_memory() == old(self).after_step_memory()
                &&& final(self).resumed_memory() == old(self).resumed_memory()
                &&& final(self).resumed_collected() == old(self).resumed_collected()
                &&& if old(self).memory().contains_key(word_base(addr)) {
                    &&& orig == Ok::<u8, TraceError>(mem_byte(old(self).memory(), addr))
                    &&& final(self).memory() == mem_patch(old(self).memory(), addr, val)
                } else {
                    &&& orig is Err
                    &&& final(self).tracee() == old(self).tracee()
                }
            }),
    {
        let aligned_addr = align_addr_to_word(addr);
        let byte_offset = offset_in_word(addr);
        let word = self.tracee.peek(aligned_addr)?;
        let orig_byte = extract_byte(word, byte_offset);
        let updated_word = replace_byte(word, byte_offset, val);
        self.tracee.poke(aligned_addr, updated_word)?;
        Ok(orig_byte)
    }

    /// Patches the trap instruction in at `addr` and records the byte it
    /// replaces. An address that is already patched is left alone, and
    /// the child is not asked anything. Where the patch fails nothing
    /// is recorded.
    pub fn insert_breakpoint(&mut self, addr: usize) -> (done: Result<(), TraceError>)
        ensures
            old(self).breakpoints().contains_key(addr) ==> done is Ok && final(self).breakpoints()
                == old(self).breakpoints() && final(self).tracee() == old(self).tracee(),
            done is Err ==> final(self).breakpoints() == old(self).breakpoints(),
            done is Ok ==> final(self).breakpoints().contains_key(addr) && final(self).breakpoints()
                .remove(addr) == old(self).breakpoints().remove(addr),
            final(self).requests() == old(self).requests() || final(self).requests() == old(self).requests().push(poke_at(addr)),
            done is Ok && !old(self).breakpoints().contains_key(addr) ==> final(self).requests()
                == old(self).requests().push(poke_at(addr)),
            old(self).modelled() ==> ({
                &&& final(self).modelled()
                &&& final(self).register_file() == old(self).register_file()
                &&& final(self).present() == old(self).present()
                &&& final(self).pending() == old(self).pending()
                &&& final(self).collected() == old(self).collected()
                &&& final(self).stepped_memory() == old(self).stepped_memory()
                &&& final(self).stepped_registers() == old(self).stepped_registers()
                &&& final(self).after_step_memory() == old(self).after_step_memory()
                &&& final(self).resumed_memory() == old(self).resumed_memory()
                &&& final(self).resumed_collected() == old(self).resumed_collected()
                &&& done is Ok <==> old(self).breakpoints().contains_key(addr) || old(self).memory().contains_key(word_base(addr))
                &&& done is Ok ==> final(self).breakpoints() == table_with(
                    old(self).breakpoints(),
                    old(self).memory(),
                    addr,
                ) && final(self).memory() == memory_with(
                    old(self).breakpoints(),
                    old(self).memory(),
                    addr,
                )
                &&& done is Err ==> final(self).tracee() == old(self).tracee()
            }),
    {
        if self.breakpoints.contains_key(&addr) {
            return Ok(());
        }
        let orig_byte = self.write_byte(addr, TRAP_OPCODE)?;
        let ghost before = self.breakpoints@;
        self.breakpoints.insert(addr, orig_byte);
        assert(before.insert(addr, orig_byte).remove(addr) =~= before.remove(addr));
        Ok(())
    }

    /// Puts the saved byte back at `addr` and forgets the breakpoint. An
    /// address that is not patched is left alone, and the child is not
    /// asked anything. Where the write fails the breakpoint stays.
    pub fn remove_breakpoint(&mut self, addr: usize) -> (done: Result<(), TraceError>)
        ensures
            !old(self).breakpoints().contains_key(addr) ==> done is Ok && final(self).breakpoints()
                == old(self).breakpoints() && final(self).tracee() == old(self).tracee(),
            done is Err ==> final(self).breakpoints() == old(self).breakpoints(),
            done is Ok ==> final(self).breakpoints() == old(self).breakpoints().remove(addr),
            final(self).requests() == old(self).requests() || final(self).requests() == old(self).requests().push(poke_at(addr)),
            done is Ok && old(self).breakpoints().contains_key(addr) ==> final(self).requests()
                == old(self).requests().push(poke_at(addr)),
            old(self).modelled() ==> ({
                &&& final(self).modelled()
                &&& final(self).register_file() == old(self).register_file()
                &&& final(self).present() == old(self).present()
                &&& final(self).pending() == old(self).pending()
                &&& final(self).collected() == old(self).collected()
                &&& final(self).stepped_memory() == old(self).stepped_memory()
                &&& final(self).stepped_registers() == old(self).stepped_registers()
                &&& final(self).after_step_memory() == old(self).after_step_memory()
                &&& final(self).resumed_memory() == old(self).resumed_memory()
                &&& final(self).resumed_collected() == old(self).resumed_collected()
                &&& done is Ok <==> !old(self).breakpoints().contains_key(addr) || old(self).memory().contains_key(word_base(addr))
                &&& done is Err ==> final(self).tracee() == old(self).tracee()
                &&& old(self).breakpoints().contains_key(addr) && done is Ok ==> final(self).memory() == mem_patch(old(self).memory(), addr, old(self).breakpoints()[addr])
            }),
    {
        let orig_byte = match self.breakpoints.get(&addr) {
            Some(saved) => *saved,
            None => {
                assert(old(self).breakpoints().remove(addr) =~= old(self).breakpoints());
                return Ok(());
            },
        };
        self.write_byte(addr, orig_byte)?;
        self.breakpoints.remove(&addr);
        Ok(())
    }

    /// The breakpoint at `addr`, if that address is patched.
    pub fn breakpoint(&self, addr: usize) -> (found: Option<Breakpoint>)
        ensures
            found is Some <==> self.breakpoints().contains_key(addr),
            found matches Some(bp) ==> bp.addr == addr && bp.orig_byte == self.breakpoints()[addr],
    {
        match self.breakpoints.get(&addr) {
            Some(saved) => Some(Breakpoint { addr, orig_byte: *saved }),
            None => None,
        }
    }

    /// Decides how a child stopped at `pc` is to be resumed.
    pub fn resume_plan(&self, pc: usize) -> (plan: Resume)
        ensures
            plan == resume_from(self.breakpoints(), pc),
    {
        if pc == 0 {
            return Resume::Plain;
        }
        match self.breakpoints.get(&(pc - 1)) {
            Some(saved) => Resume::OverBreakpoint { address: pc - 1, original_byte: *saved },
            None => Resume::Plain,
        }
    }

    /// Waits for the child to change state and reports its status: the
    /// program counter is read after a stop. An event that is neither
    /// an exit, a death by signal nor a stop by signal is an error.
    pub fn wait(&mut self) -> (status: Result<Status, TraceError>)
        ensures
            final(self).breakpoints() == old(self).breakpoints(),
            final(self).requests() == old(self).requests().push(Request::Wait),
            old(self).modelled() ==> ({
                &&& final(self).modelled()
                &&& final(self).memory() == old(self).memory()
                &&& final(self).register_file() == old(self).register_file()
                &&& final(self).present() == old(self).present()
                &&& final(self).pending() is None
                &&& final(self).collected() == old(self).pending()
                &&& final(self).stepped_memory() == old(self).stepped_memory()
                &&& final(self).stepped_registers() == old(self).stepped_registers()
                &&& final(self).after_step_memory() == old(self).after_step_memory()
                &&& final(self).resumed_memory() == old(self).resumed_memory()
                &&& final(self).resumed_collected() == old(self).resumed_collected()
                &&& match final(self).last_report() {
                    Some(report) => status == Ok::<Status, TraceError>(report),
                    None => status is Err,
                }
                &&& final(self).collected() == Some(WaitEvent::Unsupported) ==> status == Err::<
                    Status,
                    TraceError,
                >(TraceError::UnsupportedEvent)
            }),
    {
        let event = self.tracee.wait()?;
        match event {
            WaitEvent::Stopped(_) => {
                let regs = self.tracee.registers()?;
                event_status(event, regs.pc)
            },
            _ => event_status(event, 0),
        }
    }

    /// The restore step of the resume protocol: puts `original_byte` back
    /// at `address`, where the trap stands, and moves the program
    /// counter back onto it.
    pub fn lift(&mut self, address: usize, original_byte: u8) -> (done: Result<(), TraceError>)
        ensures
            final(self).breakpoints() == old(self).breakpoints(),
            old(self).requests().is_prefix_of(final(self).requests()),
            made_since(old(self).requests(), final(self).requests()).is_prefix_of(
                step_over_requests(address).take(2),
            ),
            done is Ok ==> made_since(old(self).requests(), final(self).requests())
                == step_over_requests(address).take(2),
            old(self).modelled() ==> ({
                &&& final(self).modelled()
                &&& final(self).present() == old(self).present()
                &&& final(self).pending() == old(self).pending()
                &&& final(self).collected() == old(self).collected()
                &&& final(self).stepped_memory() == old(self).stepped_memory()
                &&& final(self).stepped_registers() == old(self).stepped_registers()
                &&& final(self).after_step_memory() == old(self).after_step_memory()
                &&& final(self).resumed_memory() == old(self).resumed_memory()
                &&& final(self).resumed_collected() == old(self).resumed_collected()
                &&& if old(self).memory().contains_key(word_base(address)) {
                    &&& done is Ok <==> old(self).present()
                    &&& final(self).memory() == mem_patch(
                        old(self).memory(),
                        address,
                        original_byte,
                    )
                    &&& made_since(old(self).requests(), final(self).requests())
                        == step_over_requests(address).take(2)
                    &&& final(self).register_file() == if done is Ok {
                        Registers {
                            pc: address,
                            frame_base: old(self).register_file().frame_base,
                        }
                    } else {
                        old(self).register_file()
                    }
                } else {
                    &&& done is Err
                    &&& final(self).tracee() == old(self).tracee()
                }
            }),
    {
        let ghost start = self.requests();
        let ghost plan = step_over_requests(address).take(2);
        proof {
            assert(plan =~= seq![poke_at(address), Request::SetProgramCounter { pc: address }]);
            assert(made_since(start, start) =~= plan.take(0));
            assert(made_since(start, start.push(poke_at(address))) =~= plan.take(1));
            assert(made_since(
                start,
                start.push(poke_at(address)).push(Request::SetProgramCounter { pc: address }),
            ) =~= plan);
            assert(start.is_prefix_of(start));
            assert(start.is_prefix_of(start.push(poke_at(address))));
            assert(start.is_prefix_of(
                start.push(poke_at(address)).push(Request::SetProgramCounter { pc: address }),
            ));
        }
        self.write_byte(address, original_byte)?;
        self.tracee.set_program_counter(address)
    }

    /// The last step of the resume protocol: patches the trap in again
    /// at `address`.
    pub fn rearm(&mut self, address: usize) -> (done: Result<(), TraceError>)
        ensures
            final(self).breakpoints() == old(self).breakpoints(),
            final(self).requests() == old(self).requests() || final(self).requests() == old(self).requests().push(poke_at(address)),
            done is Ok ==> final(self).requests() == old(self).requests().push(poke_at(address)),
            old(self).modelled() ==> ({
                &&& final(self).modelled()
                &&& final(self).register_file() == old(self).register_file()
                &&& final(self).present() == old(self).present()
                &&& final(self).pending() == old(self).pending()
                &&& final(self).collected() == old(self).collected()
                &&& final(self).stepped_memory() == old(self).stepped_memory()
                &&& final(self).stepped_registers() == old(self).stepped_registers()
                &&& final(self).after_step_memory() == old(self).after_step_memory()
                &&& final(self).resumed_memory() == old(self).resumed_memory()
                &&& final(self).resumed_collected() == old(self).resumed_collected()
                &&& if old(self).memory().contains_key(word_base(address)) {
                    &&& done is Ok
                    &&& final(self).memory() == mem_patch(
                        old(self).memory(),
                        address,
                        TRAP_OPCODE,
                    )
                } else {
                    &&& done is Err
                    &&& final(self).tracee() == old(self).tracee()
                }
            }),
    {
        self.write_byte(address, TRAP_OPCODE)?;
        Ok(())
    }

    /// Steps the child over the breakpoint at `address` that it has just
    /// hit: puts the saved byte back, moves the program counter back onto
    /// it, runs that one instruction and, if the step ends in a trap
    /// stop, patches the trap in again. Where the step ends otherwise
    /// the status that ended it is returned, the breakpoint stays
    /// lifted, and the child is not to be resumed. The first request
    /// that fails ends the protocol.
    pub fn step_over(&mut self, address: usize, original_byte: u8) -> (ended: Result<
        Option<Status>,
        TraceError,
    >)
        ensures
            final(self).breakpoints() == old(self).breakpoints(),
            ended matches Ok(Some(status)) ==> decide_after_step(status) == AfterStep::Report(
                status,
            ),
            old(self).requests().is_prefix_of(final(self).requests()),
            made_since(old(self).requests(), final(self).requests()).is_prefix_of(
                step_over_requests(address),
            ),
            ended matches Ok(None) ==> made_since(old(self).requests(), final(self).requests())
                == step_over_requests(address),
            ended matches Ok(Some(_)) ==> made_since(old(self).requests(), final(self).requests())
                == step_over_requests(address).take(4),
            old(self).modelled() ==> ({
                let made = made_since(old(self).requests(), final(self).requests());
                &&& final(self).modelled()
                &&& if !old(self).memory().contains_key(word_base(address)) {
                    ended is Err && final(self).tracee() == old(self).tracee()
                } else if !old(self).present() {
                    ended is Err && made == step_over_requests(address).take(2)
                } else if made.len() == 4 {
                    match final(self).last_report() {
                        Some(report) => if decide_after_step(report) == AfterStep::Report(report) {
                            ended == Ok::<Option<Status>, TraceError>(Some(report))
                        } else {
                            ended is Err
                        },
                        None => ended is Err,
                    }
                } else {
                    made.len() == 5 && ended == Ok::<Option<Status>, TraceError>(None)
                }
                &&& ended matches Ok(None) ==> mem_byte(final(self).memory(), address)
                    == TRAP_OPCODE && final(self).collected() == Some(WaitEvent::Stopped(SIGTRAP))
                    && final(self).memory() == mem_patch(
                    final(self).after_step_memory(),
                    address,
                    TRAP_OPCODE,
                )
                &&& !(ended matches Ok(None)) && made.len() == 4 ==> final(self).memory() == final(self).after_step_memory()
                &&& final(self).resumed_memory() == old(self).resumed_memory()
                &&& final(self).resumed_collected() == old(self).resumed_collected()
                &&& old(self).memory().contains_key(word_base(address)) && old(self).present() ==> {
                    &&& final(self).stepped_memory() == mem_patch(
                        old(self).memory(),
                        address,
                        original_byte,
                    )
                    &&& mem_byte(final(self).stepped_memory(), address) == original_byte
                    &&& final(self).stepped_registers() == (Registers {
                        pc: address,
                        frame_base: old(self).register_file().frame_base,
                    })
                }
            }),
    {
        let ghost start = self.requests();
        let ghost plan = step_over_requests(address);
        proof {
            assert(plan.take(2).is_prefix_of(plan));
            lemma_patched_byte(self.memory(), address, original_byte);
        }
        let lifted = self.lift(address, original_byte);
        proof {
            let made = made_since(start, self.requests());
            assert(made.is_prefix_of(plan)) by {
                assert(made =~= plan.take(2).take(made.len() as int));
                assert(plan.take(2).take(made.len() as int) =~= plan.take(made.len() as int));
            }
        }
        lifted?;
        let ghost lifted_requests = self.requests();
        self.tracee.step()?;
        proof {
            assert(made_since(start, self.requests()) =~= made_since(start, lifted_requests).push(
                Request::Step,
            ));
            assert(made_since(start, self.requests()) =~= plan.take(3));
            assert(start.is_prefix_of(self.requests()));
        }
        let ghost stepped_requests = self.requests();
        let waited = self.wait();
        proof {
            assert(made_since(start, self.requests()) =~= made_since(start, stepped_requests).push(
                Request::Wait,
            ));
            assert(made_since(start, self.requests()) =~= plan.take(4));
            assert(start.is_prefix_of(self.requests()));
        }
        let status = waited?;
        match after_step(status) {
            AfterStep::Rearm => {
                let ghost waited_requests = self.requests();
                proof {
                    lemma_patched_byte(self.memory(), address, TRAP_OPCODE);
                }
                let armed = self.rearm(address);
                proof {
                    let made = made_since(start, self.requests());
                    if self.requests() == waited_requests {
                        assert(made =~= plan.take(4));
                    } else {
                        assert(made =~= made_since(start, waited_requests).push(poke_at(address)));
                        assert(made =~= plan);
                    }
                    assert(start.is_prefix_of(self.requests()));
                }
                armed?;
                Ok(None)
            },
            AfterStep::Report(other) => Ok(Some(other)),
        }
    }

    /// Resumes the child and waits for its next change of state. A child
    /// stopped on a breakpoint is first stepped over it, so that the
    /// instruction under the trap runs and the trap is in place again
    /// when the child comes back to it; a step that does not end in a
    /// trap stop ends the resume with its status. The first request
    /// that fails ends the protocol.
    pub fn cont(&mut self) -> (status: Result<Status, TraceError>)
        ensures
            resumed(*old(self), *final(self), status),
    {
        let ghost start = self.requests();
        proof {
            assert(start.is_prefix_of(start));
            assert(forall|pc: usize|
                made_since(start, start).is_prefix_of(
                    #[trigger] resume_requests(resume_from(self.breakpoints(), pc)),
                ));
        }
        let regs = match self.tracee.registers() {
            Ok(regs) => regs,
            Err(error) => {
                proof {
                    let pc = self.register_file().pc;
                    assert(resume_run(
                        self.breakpoints(),
                        pc,
                        made_since(start, start),
                        Err::<Status, TraceError>(error),
                    ));
                }
                return Err(error);
            },
        };
        let ghost plan = resume_from(self.breakpoints(), regs.pc);
        let ghost all = resume_requests(plan);
        match self.resume_plan(regs.pc) {
            Resume::Plain => {},
            Resume::OverBreakpoint { address, original_byte } => {
                let ended = self.step_over(address, original_byte);
                proof {
                    let over = step_over_requests(address);
                    let made = made_since(start, self.requests());
                    assert(over =~= all.take(5));
                    assert(over.take(4) =~= all.take(4));
                    assert(made.is_prefix_of(all)) by {
                        assert(made =~= over.take(made.len() as int));
                        assert(made =~= all.take(made.len() as int));
                    }
                }
                match ended {
                    Ok(Some(status)) => {
                        assert(resume_run(
                            self.breakpoints(),
                            regs.pc,
                            made_since(start, self.requests()),
                            Ok::<Status, TraceError>(status),
                        ));
                        return Ok(status);
                    },
                    Ok(None) => {},
                    Err(error) => {
                        assert(resume_run(
                            self.breakpoints(),
                            regs.pc,
                            made_since(start, self.requests()),
                            Err::<Status, TraceError>(error),
                        ));
                        return Err(error);
                    },
                }
            },
        }
        let ghost done = self.requests();
        let resumed = self.tracee.resume();
        proof {
            let made = made_since(start, self.requests());
            assert(made =~= made_since(start, done).push(Request::Resume));
            assert(made =~= all.take(made.len() as int));
            assert(start.is_prefix_of(self.requests()));
        }
        match resumed {
            Ok(()) => {},
            Err(error) => {
                assert(resume_run(
                    self.breakpoints(),
                    regs.pc,
                    made_since(start, self.requests()),
                    Err::<Status, TraceError>(error),
                ));
                return Err(error);
            },
        }
        let status = self.wait();
        proof {
            let made = made_since(start, self.requests());
            assert(made =~= made_since(start, done).push(Request::Resume).push(Request::Wait));
            assert(made =~= all);
            assert(start.is_prefix_of(self.requests()));
            assert(resume_run(self.breakpoints(), regs.pc, made, status));
        }
        status
    }

    /// Returns the traced child, to look at and not to drive.
    pub fn child(&self) -> (child: &T)
        ensures
            *child == self.tracee(),
    {
        &self.tracee
    }

    /// Reads the child's program counter and frame base.
    pub fn registers(&self) -> (regs: Result<Registers, TraceError>)
        ensures
            self.modelled() ==> (regs is Ok <==> self.present()),
            self.modelled() ==> (regs matches Ok(r) ==> r == self.register_file()),
    {
        self.tracee.registers()
    }

    /// Reads the word at the aligned address `addr` of the child's
    /// memory.
    pub fn read_word(&self, addr: usize) -> (word: Result<u64, TraceError>)
        requires
            addr % 8 == 0,
        ensures
            self.modelled() ==> (word is Ok <==> self.memory().contains_key(addr)),
            self.modelled() ==> (word matches Ok(w) ==> w == self.memory()[addr]),
    {
        self.tracee.peek(addr)
    }

    /// Ends the child and collects it.
    pub fn kill(&mut self)
        ensures
            killed(*old(self), *final(self)),
    {
        self.tracee.kill();
    }

    /// Returns the process id of the child.
    pub fn pid(&self) -> (pid: i32)
        ensures
            pid == self.tracee().id(),
    {
        self.tracee.pid()
    }
}

/// Inserting an address a second time changes nothing: the table has
/// one entry for it, and the byte saved there is the byte that the
/// memory held before the first insertion, not the trap that stands
/// there since.
pub proof fn law_insert_is_idempotent(table: Map<usize, u8>, mem: Map<usize, u64>, addr: usize)
    ensures
        table_with(table_with(table, mem, addr), memory_with(table, mem, addr), addr)
            == table_with(table, mem, addr),
        memory_with(table_with(table, mem, addr), memory_with(table, mem, addr), addr)
            == memory_with(table, mem, addr),
        armed_table(table, mem, seq![addr, addr]) == table_with(table, mem, addr),
        armed_memory(table, mem, seq![addr, addr]) == memory_with(table, mem, addr),
        table_with(table, mem, addr).dom() == table.dom().insert(addr),
        !table.contains_key(addr) ==> table_with(table, mem, addr)[addr] == mem_byte(mem, addr),
        table.contains_key(addr) ==> table_with(table, mem, addr)[addr] == table[addr],
{
    let twice = seq![addr, addr];
    assert(twice.drop_last() =~= seq![addr]);
    assert(seq![addr].drop_last() =~= Seq::<usize>::empty());
    assert(armed_table(table, mem, Seq::<usize>::empty()) == table);
    assert(armed_memory(table, mem, Seq::<usize>::empty()) == mem);
    assert(armed_table(table, mem, seq![addr]) == table_with(table, mem, addr));
    assert(armed_memory(table, mem, seq![addr]) == memory_with(table, mem, addr));
    assert(table_with(table, mem, addr).dom() =~= table.dom().insert(addr));
}

/// Replaying a list of addresses into a fresh child arms each of them
/// and nothing else: the table holds exactly the addresses of the list;
/// at each of them the memory holds the trap opcode and the table the
/// byte that was there before; at every other address the memory is as
/// it was.
pub proof fn law_replay_arms_each_address(mem: Map<usize, u64>, addrs: Seq<usize>, addr: usize)
    ensures
        armed_table(Map::empty(), mem, addrs).dom() == addrs.to_set(),
        addrs.contains(addr) ==> mem_byte(armed_memory(Map::empty(), mem, addrs), addr)
            == TRAP_OPCODE && armed_table(Map::empty(), mem, addrs)[addr] == mem_byte(mem, addr),
        !addrs.contains(addr) ==> mem_byte(armed_memory(Map::empty(), mem, addrs), addr)
            == mem_byte(mem, addr),
    decreases addrs.len(),
{
    let none = Map::<usize, u8>::empty();
    if addrs.len() == 0 {
        assert(none.dom() =~= addrs.to_set());
    } else {
        let rest = addrs.drop_last();
        let last = addrs.last();
        let table = armed_table(none, mem, rest);
        let before = armed_memory(none, mem, rest);
        law_replay_arms_each_address(mem, rest, addr);
        law_replay_arms_each_address(mem, rest, last);
        assert(addrs =~= rest.push(last));
        assert(forall|a: usize| addrs.contains(a) <==> rest.contains(a) || a == last) by {
            assert forall|a: usize| addrs.contains(a) implies rest.contains(a) || a == last by {
                let j = choose|j: int| 0 <= j < addrs.len() && addrs[j] == a;
                if j < rest.len() {
                    assert(rest[j] == a);
                }
            }
            assert forall|a: usize| rest.contains(a) || a == last implies addrs.contains(a) by {
                if rest.contains(a) {
                    let j = choose|j: int| 0 <= j < rest.len() && rest[j] == a;
                    assert(addrs[j] == a);
                } else {
                    assert(addrs[addrs.len() - 1] == a);
                }
            }
        }
        assert(table.contains_key(last) <==> rest.contains(last));
        assert(armed_table(none, mem, addrs).dom() =~= addrs.to_set());
        if !table.contains_key(last) {
            lemma_patched_byte(before, last, TRAP_OPCODE);
            if addr != last {
                lemma_patch_keeps_other_bytes(before, last, TRAP_OPCODE, addr);
            }
        }
    }
}

/// The path of one byte through a breakpoint's life. Where the byte at
/// `addr` is `v`: after the breakpoint is inserted the byte is the trap
/// opcode and `v` is what the table saved; after the restore step of
/// the resume protocol the byte is `v` again, and the memory is as it
/// was before the insertion; after the re-arm step the byte is the trap
/// opcode again. No other address changes on the way.
pub proof fn law_breakpoint_round_trip(
    table: Map<usize, u8>,
    mem: Map<usize, u64>,
    addr: usize,
    other: usize,
)
    requires
        !table.contains_key(addr),
        mem.contains_key(word_base(addr)),
        other != addr,
    ensures
        ({
            let saved = table_with(table, mem, addr)[addr];
            let armed = memory_with(table, mem, addr);
            let lifted = mem_patch(armed, addr, saved);
            let rearmed = mem_patch(lifted, addr, TRAP_OPCODE);
            &&& saved == mem_byte(mem, addr)
            &&& mem_byte(armed, addr) == TRAP_OPCODE
            &&& mem_byte(lifted, addr) == mem_byte(mem, addr)
            &&& lifted == mem
            &&& mem_byte(rearmed, addr) == TRAP_OPCODE
            &&& rearmed == armed
            &&& mem_byte(armed, other) == mem_byte(mem, other)
        }),
{
    lemma_patched_byte(mem, addr, TRAP_OPCODE);
    lemma_patch_undone(mem, addr, TRAP_OPCODE);
    lemma_patch_keeps_other_bytes(mem, addr, TRAP_OPCODE, other);
}

} // verus!
