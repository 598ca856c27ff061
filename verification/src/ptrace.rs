//! A tracee backed by a live child process, driven through `ptrace` and
//! `waitpid`.
//!
//! Each request is one call of the operating system. What it answers is
//! not known here: a request that is refused comes back with the error
//! number it was refused with, and nothing more is said of it.

use crate::tracee::{Registers, Request, TraceError, Tracee, WaitEvent};
use vstd::prelude::*;

verus! {

/// `nix::libc::user_regs_struct`, the register set as `getregs` returns
/// and `setregs` takes it. It is carried through and read only by
/// `regs_read` and `regs_with_pc`.
#[verifier::external_type_specification]
#[verifier::external_body]
pub struct ExUserRegs(nix::libc::user_regs_struct);

/// `nix::sys::ptrace::read`: asks for the word at `addr` in the memory of
/// process `pid`. An error comes back as its number. Nothing is claimed
/// of the answer.
#[verifier::external_body]
fn ptrace_read(pid: i32, addr: usize) -> (word: Result<u64, i32>)
    requires
        pid > 0,
{
    nix::sys::ptrace::read(nix::unistd::Pid::from_raw(pid), addr as nix::sys::ptrace::AddressType)
        .map(|word| word as u64)
        .map_err(|errno| errno as i32)
}

/// `nix::sys::ptrace::write`: asks to store `word` at `addr` in the memory
/// of process `pid`. An error comes back as its number. Nothing is
/// claimed of the answer.
#[verifier::external_body]
fn ptrace_write(pid: i32, addr: usize, word: u64) -> (done: Result<(), i32>)
    requires
        pid > 0,
{
    nix::sys::ptrace::write(
        nix::unistd::Pid::from_raw(pid),
        addr as nix::sys::ptrace::AddressType,
        word as nix::libc::c_long,
    )
        .map_err(|errno| errno as i32)
}

/// `nix::sys::ptrace::getregs`: asks for the register set of process
/// `pid`. An error comes back as its number. Nothing is claimed of the
/// answer.
#[verifier::external_body]
fn ptrace_getregs(pid: i32) -> (regs: Result<nix::libc::user_regs_struct, i32>)
    requires
        pid > 0,
{
    nix::sys::ptrace::getregs(nix::unistd::Pid::from_raw(pid)).map_err(|errno| errno as i32)
}

/// `nix::sys::ptrace::setregs`: asks to replace the register set of
/// process `pid`. An error comes back as its number. Nothing is claimed
/// of the answer.
#[verifier::external_body]
fn ptrace_setregs(pid: i32, regs: nix::libc::user_regs_struct) -> (done: Result<(), i32>)
    requires
        pid > 0,
{
    nix::sys::ptrace::setregs(nix::unistd::Pid::from_raw(pid), regs).map_err(|errno| errno as i32)
}

/// `nix::sys::ptrace::step`: asks process `pid` to run one instruction,
/// delivering no signal. An error comes back as its number. Nothing is
/// claimed of the answer.
#[verifier::external_body]
fn ptrace_step(pid: i32) -> (done: Result<(), i32>)
    requires
        pid > 0,
{
    nix::sys::ptrace::step(nix::unistd::Pid::from_raw(pid), None).map_err(|errno| errno as i32)
}

/// `nix::sys::ptrace::cont`: asks process `pid` to run on, delivering no
/// signal. An error comes back as its number. Nothing is claimed of the
/// answer.
#[verifier::external_body]
fn ptrace_cont(pid: i32) -> (done: Result<(), i32>)
    requires
        pid > 0,
{
    nix::sys::ptrace::cont(nix::unistd::Pid::from_raw(pid), None).map_err(|errno| errno as i32)
}

/// `nix::sys::wait::waitpid` with no option: blocks until process `pid`
/// changes state. The three kinds of event the debugger handles come back
/// with their numbers; every other kind comes back as `Unsupported`. An
/// error comes back as its number. Nothing is claimed of the answer.
#[verifier::external_body]
fn wait_for(pid: i32) -> (event: Result<WaitEvent, i32>)
    requires
        pid > 0,
{
    match nix::sys::wait::waitpid(nix::unistd::Pid::from_raw(pid), None) {
        Ok(nix::sys::wait::WaitStatus::Exited(_, code)) => Ok(WaitEvent::Exited(code)),
        Ok(nix::sys::wait::WaitStatus::Signaled(_, signal, _)) => Ok(WaitEvent::Signaled(signal as i32)),
        Ok(nix::sys::wait::WaitStatus::Stopped(_, signal)) => Ok(WaitEvent::Stopped(signal as i32)),
        Ok(_) => Ok(WaitEvent::Unsupported),
        Err(errno) => Err(errno as i32),
    }
}

/// `nix::sys::signal::kill` with `SIGKILL`: asks the operating system to
/// end process `pid`. An error comes back as its number. Nothing is
/// claimed of the answer.
#[verifier::external_body]
fn send_kill(pid: i32) -> (done: Result<(), i32>)
    requires
        pid > 0,
{
    nix::sys::signal::kill(nix::unistd::Pid::from_raw(pid), nix::sys::signal::Signal::SIGKILL)
        .map_err(|errno| errno as i32)
}

/// Picks the program counter and the frame base out of a register set:
/// its fields `rip` and `rbp`. Nothing is claimed of the values.
#[verifier::external_body]
fn regs_read(regs: &nix::libc::user_regs_struct) -> (picked: Registers) {
    Registers { pc: regs.rip as usize, frame_base: regs.rbp as usize }
}

/// The register set `regs` with its field `rip` replaced by `pc`.
/// Nothing is claimed of the result.
#[verifier::external_body]
fn regs_with_pc(regs: nix::libc::user_regs_struct, pc: usize) -> (moved: nix::libc::user_regs_struct) {
    nix::libc::user_regs_struct { rip: pc as u64, ..regs }
}

/// The error for a request that the operating system refused with the
/// error number `code`.
fn os_error(code: i32) -> (error: TraceError)
    ensures
        error == TraceError::Os(code),
{
    TraceError::Os(code)
}

/// What a request's answer is for the caller: the value where the
/// operating system gave one, and the error for its error number where
/// it refused.
pub open spec fn answer_of<V>(outcome: Result<V, i32>) -> Result<V, TraceError> {
    match outcome {
        Ok(value) => Ok(value),
        Err(code) => Err(TraceError::Os(code)),
    }
}

/// Turns what the operating system answered into the answer for the
/// caller.
fn answer<V>(outcome: Result<V, i32>) -> (answered: Result<V, TraceError>)
    ensures
        answered == answer_of(outcome),
{
    match outcome {
        Ok(value) => Ok(value),
        Err(code) => Err(os_error(code)),
    }
}

/// A child process of this one that is being traced.
pub struct Ptraced {
    pid: i32,
    journal: Ghost<Seq<Request>>,
}

impl Ptraced {
    #[verifier::type_invariant]
    spec fn names_one_process(self) -> bool {
        self.pid > 0
    }

    /// Takes control of the child with process id `pid`. A number that
    /// names no single process (zero or below) is refused.
    pub fn from_pid(pid: i32) -> (tracee: Option<Ptraced>)
        ensures
            pid > 0 <==> tracee is Some,
            tracee matches Some(t) ==> t.id() == pid && t.requests() == Seq::<Request>::empty(),
    {
        if pid > 0 {
            Some(Ptraced { pid, journal: Ghost(Seq::empty()) })
        } else {
            None
        }
    }
}

impl Tracee for Ptraced {
    open spec fn modelled(&self) -> bool {
        false
    }

    open spec fn memory(&self) -> Map<usize, u64> {
        Map::empty()
    }

    open spec fn register_file(&self) -> Registers {
        Registers { pc: 0, frame_base: 0 }
    }

    open spec fn present(&self) -> bool {
        false
    }

    open spec fn pending(&self) -> Option<WaitEvent> {
        None
    }

    open spec fn collected(&self) -> Option<WaitEvent> {
        None
    }

    open spec fn stepped_memory(&self) -> Map<usize, u64> {
        Map::empty()
    }

    open spec fn stepped_registers(&self) -> Registers {
        Registers { pc: 0, frame_base: 0 }
    }

    open spec fn after_step_memory(&self) -> Map<usize, u64> {
        Map::empty()
    }

    open spec fn resumed_memory(&self) -> Map<usize, u64> {
        Map::empty()
    }

    open spec fn resumed_collected(&self) -> Option<WaitEvent> {
        None
    }

    closed spec fn requests(&self) -> Seq<Request> {
        self.journal@
    }

    closed spec fn id(&self) -> i32 {
        self.pid
    }

    /// One `ptrace` read. A refusal is an `Os` error.
    fn peek(&self, addr: usize) -> (word: Result<u64, TraceError>)
        ensures
            word matches Err(error) ==> error is Os,
    {
        proof {
            use_type_invariant(&*self);
        }
        answer(ptrace_read(self.pid, addr))
    }

    /// One `ptrace` write. A refusal is an `Os` error.
    fn poke(&mut self, addr: usize, word: u64) -> (done: Result<(), TraceError>)
        ensures
            final(self).id() == old(self).id(),
            done matches Err(error) ==> error is Os,
    {
        proof {
            use_type_invariant(&*self);
            self.journal@ = self.journal@.push(Request::Poke { addr });
        }
        answer(ptrace_write(self.pid, addr, word))
    }

    /// One read of the register set, of which the program counter and
    /// the frame base are handed on. A refusal is an `Os` error.
    fn registers(&self) -> (regs: Result<Registers, TraceError>)
        ensures
            regs matches Err(error) ==> error is Os,
    {
        proof {
            use_type_invariant(&*self);
        }
        match answer(ptrace_getregs(self.pid)) {
            Ok(regs) => Ok(regs_read(&regs)),
            Err(error) => Err(error),
        }
    }

    /// One read of the register set and one write of it with the
    /// program counter replaced. A refusal of either is an `Os` error.
    fn set_program_counter(&mut self, pc: usize) -> (done: Result<(), TraceError>)
        ensures
            final(self).id() == old(self).id(),
            done matches Err(error) ==> error is Os,
    {
        proof {
            use_type_invariant(&*self);
            self.journal@ = self.journal@.push(Request::SetProgramCounter { pc });
        }
        match answer(ptrace_getregs(self.pid)) {
            Ok(regs) => answer(ptrace_setregs(self.pid, regs_with_pc(regs, pc))),
            Err(error) => Err(error),
        }
    }

    /// One `ptrace` single step. A refusal is an `Os` error.
    fn step(&mut self) -> (done: Result<(), TraceError>)
        ensures
            final(self).id() == old(self).id(),
            done matches Err(error) ==> error is Os,
    {
        proof {
            use_type_invariant(&*self);
            self.journal@ = self.journal@.push(Request::Step);
        }
        answer(ptrace_step(self.pid))
    }

    /// One `ptrace` continue. A refusal is an `Os` error.
    fn resume(&mut self) -> (done: Result<(), TraceError>)
        ensures
            final(self).id() == old(self).id(),
            done matches Err(error) ==> error is Os,
    {
        proof {
            use_type_invariant(&*self);
            self.journal@ = self.journal@.push(Request::Resume);
        }
        answer(ptrace_cont(self.pid))
    }

    /// One blocking wait on the process. A refusal is an `Os` error.
    fn wait(&mut self) -> (event: Result<WaitEvent, TraceError>)
        ensures
            final(self).id() == old(self).id(),
            event matches Err(error) ==> error is Os,
    {
        proof {
            use_type_invariant(&*self);
            self.journal@ = self.journal@.push(Request::Wait);
        }
        answer(wait_for(self.pid))
    }

    /// One kill signal to the process and one wait to collect it.
    /// Refusals are passed over: a process that has gone already is
    /// none the worse for them.
    fn kill(&mut self)
        ensures
            final(self).id() == old(self).id(),
    {
        proof {
            use_type_invariant(&*self);
            self.journal@ = self.journal@.push(Request::Kill);
        }
        let _ = send_kill(self.pid);
        let _ = wait_for(self.pid);
    }

    fn pid(&self) -> (pid: i32) {
        self.pid
    }
}

} // verus!
