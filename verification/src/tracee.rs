//! The boundary between the debugger and the process it controls: the
//! requests a controller may make of a traced process, and the plain values
//! that come back.

use vstd::prelude::*;

verus! {

/// The number of the trap signal, raised after a trap instruction or a
/// single step.
pub const SIGTRAP: i32 = 5;

/// The two registers the debugger reads: where the process is, and where
/// its current stack frame starts.
#[derive(Clone, Copy, Debug, PartialEq, Eq, Structural)]
pub struct Registers {
    pub pc: usize,
    pub frame_base: usize,
}

/// What a blocking wait on the traced process reported, before the
/// debugger has looked at any register.
#[derive(Clone, Copy, Debug, PartialEq, Eq, Structural)]
pub enum WaitEvent {
    /// The process ended by itself, with this exit code.
    Exited(i32),
    /// The process was ended by the signal of this number.
    Signaled(i32),
    /// The process is stopped by the signal of this number.
    Stopped(i32),
    /// Anything else the operating system can report of a child.
    Unsupported,
}

/// Why a request to the traced process did not go through.
#[derive(Clone, Copy, Debug, PartialEq, Eq, Structural)]
pub enum TraceError {
    /// The operating system refused the request with this error number.
    Os(i32),
    /// A wait reported an event that is neither an exit, a death by signal
    /// nor a stop by signal.
    UnsupportedEvent,
}

/// A request that changes the traced process or waits for it.
#[derive(Clone, Copy, Debug, PartialEq, Eq, Structural)]
pub enum Request {
    /// Write the word at this aligned address.
    Poke { addr: usize },
    /// Move the program counter here.
    SetProgramCounter { pc: usize },
    /// Run one instruction.
    Step,
    /// Run until the next stop.
    Resume,
    /// Wait for a change of state.
    Wait,
    /// End the process.
    Kill,
}

/// A stopped child process under trace control.
///
/// Every tracee keeps a journal of the requests made of it that change
/// the process or wait for it. A tracee may also carry a model of the
/// process: the words at the aligned addresses that are mapped, the
/// program counter and the frame base, whether the process is there,
/// and what it has to report. Where it does (`modelled`), its answers
/// are held to that model, and a controller's contracts say what they
/// do to it and when they succeed. A tracee backed by a live process
/// carries no model: nothing is then claimed of what the operating
/// system returns.
pub trait Tracee {
    /// Whether the model functions below describe this tracee.
    spec fn modelled(&self) -> bool;

    /// The mapped words, by aligned address.
    spec fn memory(&self) -> Map<usize, u64>;

    /// The program counter and the frame base.
    spec fn register_file(&self) -> Registers;

    /// Whether the process is there to take requests: it has neither
    /// ended nor been killed.
    spec fn present(&self) -> bool;

    /// The change of state that the process has to report and that no
    /// wait has yet collected.
    spec fn pending(&self) -> Option<WaitEvent>;

    /// What the last wait found pending and collected: nothing, where
    /// there was nothing to collect.
    spec fn collected(&self) -> Option<WaitEvent>;

    /// The memory as it was when the last single step was asked for.
    spec fn stepped_memory(&self) -> Map<usize, u64>;

    /// The registers as they were when the last single step was asked
    /// for.
    spec fn stepped_registers(&self) -> Registers;

    /// The memory as the last single step left it.
    spec fn after_step_memory(&self) -> Map<usize, u64>;

    /// The memory as it was when the process was last asked to run on.
    spec fn resumed_memory(&self) -> Map<usize, u64>;

    /// What the last wait had collected when the process was last asked
    /// to run on.
    spec fn resumed_collected(&self) -> Option<WaitEvent>;

    /// The requests made so far that change the process or wait for
    /// it, in the order in which they were made.
    spec fn requests(&self) -> Seq<Request>;

    /// Reads the word at the aligned address `addr`. In the model this
    /// succeeds on the mapped words.
    fn peek(&self, addr: usize) -> (word: Result<u64, TraceError>)
        requires
            addr % 8 == 0,
        ensures
            self.modelled() ==> (word is Ok <==> self.memory().contains_key(addr)),
            self.modelled() ==> (word matches Ok(w) ==> w == self.memory()[addr]),
    ;

    /// Writes `word` at the aligned address `addr`. In the model this
    /// succeeds on the mapped words.
    fn poke(&mut self, addr: usize, word: u64) -> (done: Result<(), TraceError>)
        requires
            addr % 8 == 0,
        ensures
            final(self).requests() == old(self).requests().push(Request::Poke { addr }),
            old(self).modelled() ==> ({
                &&& final(self).modelled()
                &&& done is Ok <==> old(self).memory().contains_key(addr)
                &&& final(self).memory() == if done is Ok {
                    old(self).memory().insert(addr, word)
                } else {
                    old(self).memory()
                }
                &&& final(self).register_file() == old(self).register_file()
                &&& final(self).present() == old(self).present()
                &&& final(self).pending() == old(self).pending()
                &&& final(self).collected() == old(self).collected()
                &&& final(self).stepped_memory() == old(self).stepped_memory()
                &&& final(self).stepped_registers() == old(self).stepped_registers()
                &&& final(self).after_step_memory() == old(self).after_step_memory()
                &&& final(self).resumed_memory() == old(self).resumed_memory()
                &&& final(self).resumed_collected() == old(self).resumed_collected()
            }),
    ;

    /// Reads the program counter and the frame base. In the model this
    /// succeeds while the process is there.
    fn registers(&self) -> (regs: Result<Registers, TraceError>)
        ensures
            self.modelled() ==> (regs is Ok <==> self.present()),
            self.modelled() ==> (regs matches Ok(r) ==> r == self.register_file()),
    ;

    /// Moves the program counter to `pc`, leaving every other register.
    /// In the model this succeeds while the process is there.
    fn set_program_counter(&mut self, pc: usize) -> (done: Result<(), TraceError>)
        ensures
            final(self).requests() == old(self).requests().push(
                Request::SetProgramCounter { pc },
            ),
            old(self).modelled() ==> ({
                &&& final(self).modelled()
                &&& done is Ok <==> old(self).present()
                &&& final(self).memory() == old(self).memory()
                &&& final(self).register_file() == if done is Ok {
                    Registers { pc, frame_base: old(self).register_file().frame_base }
                } else {
                    old(self).register_file()
                }
                &&& final(self).present() == old(self).present()
                &&& final(self).pending() == old(self).pending()
                &&& final(self).collected() == old(self).collected()
                &&& final(self).stepped_memory() == old(self).stepped_memory()
                &&& final(self).stepped_registers() == old(self).stepped_registers()
                &&& final(self).after_step_memory() == old(self).after_step_memory()
                &&& final(self).resumed_memory() == old(self).resumed_memory()
                &&& final(self).resumed_collected() == old(self).resumed_collected()
            }),
    ;

    /// Lets the process run one machine instruction. In the model this
    /// succeeds while the process is there; what the process is after
    /// it is the process's own doing.
    fn step(&mut self) -> (done: Result<(), TraceError>)
        ensures
            final(self).requests() == old(self).requests().push(Request::Step),
            old(self).modelled() ==> ({
                &&& final(self).modelled()
                &&& done is Ok <==> old(self).present()
                &&& final(self).stepped_memory() == old(self).memory()
                &&& final(self).stepped_registers() == old(self).register_file()
                &&& final(self).after_step_memory() == final(self).memory()
                &&& final(self).resumed_memory() == old(self).resumed_memory()
                &&& final(self).resumed_collected() == old(self).resumed_collected()
            }),
    ;

    /// Lets the process run until its next stop. In the model this
    /// succeeds while the process is there; what the process is after
    /// it is the process's own doing.
    fn resume(&mut self) -> (done: Result<(), TraceError>)
        ensures
            final(self).requests() == old(self).requests().push(Request::Resume),
            old(self).modelled() ==> ({
                &&& final(self).modelled()
                &&& done is Ok <==> old(self).present()
                &&& final(self).stepped_memory() == old(self).stepped_memory()
                &&& final(self).stepped_registers() == old(self).stepped_registers()
                &&& final(self).after_step_memory() == old(self).after_step_memory()
                &&& final(self).resumed_memory() == old(self).memory()
                &&& final(self).resumed_collected() == old(self).collected()
            }),
    ;

    /// Blocks until the process changes state and says how. The process
    /// runs between a step or a resume and the wait that follows; in the
    /// model all of that running is put down to the step or the resume,
    /// and the wait hands out what is pending.
    fn wait(&mut self) -> (event: Result<WaitEvent, TraceError>)
        ensures
            final(self).requests() == old(self).requests().push(Request::Wait),
            old(self).modelled() ==> ({
                &&& final(self).modelled()
                &&& event is Ok <==> old(self).pending() is Some
                &&& event matches Ok(e) ==> old(self).pending() == Some(e)
                &&& final(self).pending() is None
                &&& final(self).collected() == old(self).pending()
                &&& final(self).present() == old(self).present()
                &&& final(self).memory() == old(self).memory()
                &&& final(self).register_file() == old(self).register_file()
                &&& final(self).stepped_memory() == old(self).stepped_memory()
                &&& final(self).stepped_registers() == old(self).stepped_registers()
                &&& final(self).after_step_memory() == old(self).after_step_memory()
                &&& final(self).resumed_memory() == old(self).resumed_memory()
                &&& final(self).resumed_collected() == old(self).resumed_collected()
            }),
    ;

    /// Ends the process and collects it. Does nothing to a process that
    /// has already gone.
    fn kill(&mut self)
        ensures
            final(self).requests() == old(self).requests().push(Request::Kill),
            old(self).modelled() ==> ({
                &&& final(self).modelled()
                &&& !final(self).present()
                &&& final(self).pending() is None
                &&& final(self).stepped_memory() == old(self).stepped_memory()
                &&& final(self).stepped_registers() == old(self).stepped_registers()
                &&& final(self).after_step_memory() == old(self).after_step_memory()
                &&& final(self).resumed_memory() == old(self).resumed_memory()
                &&& final(self).resumed_collected() == old(self).resumed_collected()
            }),
    ;

    /// The process id, as the operating system counts it.
    spec fn id(&self) -> i32;

    /// Returns the process id.
    fn pid(&self) -> (pid: i32)
        ensures
            pid == self.id(),
    ;
}

} // verus!
