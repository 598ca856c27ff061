//! A process played in memory, for driving the controller without an
//! operating system.
//!
//! The process has one block of memory that holds its code and its
//! stack alike. Every byte of code is one instruction; the trap opcode
//! stops the process with the trap signal, every other byte does nothing
//! but move the program counter on. The process exits when the program
//! counter reaches the end address it was made with, and stops with a
//! fault when the program counter leaves the block.

use crate::tracee::{Registers, Request, TraceError, Tracee, WaitEvent, SIGTRAP};
use crate::word::{
    align_addr_to_word, extract_byte, mem_byte, offset_in_word, word_base, TRAP_OPCODE,
};
use vstd::prelude::*;

verus! {

/// The number of the signal for an access to memory that is not there.
pub const SIGSEGV: i32 = 11;

/// The error number for a process that does not exist.
pub const ESRCH: i32 = 3;

/// The error number for a wait with nothing to wait for.
pub const ECHILD: i32 = 10;

/// The error number for an address that is not mapped.
pub const EFAULT: i32 = 14;

/// The memory that the words of `words` make when they lie one after the
/// other from the aligned address `base` on.
pub open spec fn image_memory(base: usize, words: Seq<u64>) -> Map<usize, u64> {
    Map::new(
        |a: usize| a % 8 == 0 && base <= a < base + 8 * words.len(),
        |a: usize| words[(a - base) / 8],
    )
}

/// What a process is at, apart from its memory.
pub struct Cpu {
    /// The address of the next instruction.
    pub pc: usize,
    /// Whether the process has exited or was killed.
    pub gone: bool,
    /// What the next wait will report, if the process has changed state
    /// since the last one.
    pub pending: Option<WaitEvent>,
    /// The bytes of the instructions run so far.
    pub executed: Seq<u8>,
    /// What the last wait found pending.
    pub collected: Option<WaitEvent>,
    /// The memory when the last single step was asked for.
    pub stepped_memory: Map<usize, u64>,
    /// The registers when the last single step was asked for.
    pub stepped_registers: Registers,
    /// The memory as the last single step left it.
    pub after_step_memory: Map<usize, u64>,
    /// The memory when the process was last asked to run on.
    pub resumed_memory: Map<usize, u64>,
    /// What the last wait had collected when the process was last asked
    /// to run on.
    pub resumed_collected: Option<WaitEvent>,
}

/// The program that a process runs: its memory, the address at which it
/// exits, and the code it exits with.
pub struct Program {
    pub image: Map<usize, u64>,
    pub end: usize,
    pub exit_code: i32,
}

/// Whether the process may run the instruction at its program counter:
/// it has not reached its end and the instruction is mapped.
pub open spec fn can_execute(program: Program, cpu: Cpu) -> bool {
    cpu.pc != program.end && program.image.contains_key(word_base(cpu.pc))
}

/// The process after the instruction at its program counter. At the end
/// address the process exits; at an address that is not mapped it
/// stops with a fault; else the instruction runs, and a trap stops the
/// process behind it.
pub open spec fn executed_one(program: Program, cpu: Cpu) -> Cpu {
    if cpu.pc == program.end {
        Cpu { gone: true, pending: Some(WaitEvent::Exited(program.exit_code)), ..cpu }
    } else if !program.image.contains_key(word_base(cpu.pc)) {
        Cpu { pending: Some(WaitEvent::Stopped(SIGSEGV)), ..cpu }
    } else {
        let byte = mem_byte(program.image, cpu.pc);
        Cpu {
            pc: (cpu.pc + 1) as usize,
            executed: cpu.executed.push(byte),
            pending: if byte == TRAP_OPCODE {
                Some(WaitEvent::Stopped(SIGTRAP))
            } else {
                cpu.pending
            },
            ..cpu
        }
    }
}

/// Whether the process runs on after the instruction at its program
/// counter: the instruction could run and was no trap.
pub open spec fn runs_on(program: Program, cpu: Cpu) -> bool {
    can_execute(program, cpu) && mem_byte(program.image, cpu.pc) != TRAP_OPCODE
}

/// The process after a single step: one instruction, and a trap stop
/// behind it where nothing else ended the step.
pub open spec fn stepped(program: Program, cpu: Cpu) -> Cpu {
    if runs_on(program, cpu) {
        Cpu { pending: Some(WaitEvent::Stopped(SIGTRAP)), ..executed_one(program, cpu) }
    } else {
        executed_one(program, cpu)
    }
}

/// The process after it was let run: one instruction after the other
/// until one of them ends the run.
pub open spec fn resumed(program: Program, cpu: Cpu) -> Cpu
    decreases usize::MAX - cpu.pc,
{
    if runs_on(program, cpu) && cpu.pc < usize::MAX {
        resumed(program, executed_one(program, cpu))
    } else {
        executed_one(program, cpu)
    }
}

/// The memory that a process at `cpu` has: that of its program while
/// it is there, none once it has gone.
pub open spec fn memory_of(program: Program, cpu: Cpu) -> Map<usize, u64> {
    if cpu.gone {
        Map::empty()
    } else {
        program.image
    }
}

pub struct SimulatedProcess {
    base: usize,
    words: Vec<u64>,
    pc: usize,
    frame_base: usize,
    end: usize,
    exit_code: i32,
    pending: Option<WaitEvent>,
    gone: bool,
    executed: Vec<u8>,
    pid: i32,
    requests: Ghost<Seq<Request>>,
    collected: Ghost<Option<WaitEvent>>,
    stepped_memory: Ghost<Map<usize, u64>>,
    stepped_registers: Ghost<Registers>,
    after_step_memory: Ghost<Map<usize, u64>>,
    resumed_memory: Ghost<Map<usize, u64>>,
    resumed_collected: Ghost<Option<WaitEvent>>,
}

impl SimulatedProcess {
    /// Whether the block of memory starts at a word and ends within the
    /// address space.
    pub closed spec fn well_formed(&self) -> bool {
        self.base % 8 == 0 && self.base + 8 * self.words@.len() <= usize::MAX
    }

    /// The program that the process runs, with its memory as it stands.
    pub closed spec fn program(&self) -> Program {
        Program {
            image: image_memory(self.base, self.words@),
            end: self.end,
            exit_code: self.exit_code,
        }
    }

    /// What the process is at.
    pub closed spec fn cpu(&self) -> Cpu {
        Cpu {
            pc: self.pc,
            gone: self.gone,
            pending: self.pending,
            executed: self.executed@,
            collected: self.collected@,
            stepped_memory: self.stepped_memory@,
            stepped_registers: self.stepped_registers@,
            after_step_memory: self.after_step_memory@,
            resumed_memory: self.resumed_memory@,
            resumed_collected: self.resumed_collected@,
        }
    }

    /// Where the current stack frame of the process starts.
    pub closed spec fn frame_base(&self) -> usize {
        self.frame_base
    }

    /// A process whose memory holds `words` from `base` on, stopped for
    /// tracing before the instruction at `entry`, with its frame base at
    /// `frame_base`. It exits with `exit_code` when it reaches `end`. A
    /// block that does not start at a word or does not fit below the top
    /// of the address space is refused.
    pub fn new(
        base: usize,
        words: Vec<u64>,
        entry: usize,
        end: usize,
        frame_base: usize,
        exit_code: i32,
    ) -> (process: Option<SimulatedProcess>)
        ensures
            process is Some <==> base % 8 == 0 && base + 8 * words@.len() <= usize::MAX,
            process matches Some(p) ==> p.modelled() && p.memory() == image_memory(
                base,
                words@,
            ) && p.register_file() == (Registers { pc: entry, frame_base }) && p.requests()
                == Seq::<Request>::empty() && p.program() == (Program { image: image_memory(base, words@), end, exit_code })
                && p.frame_base() == frame_base && p.cpu() == (Cpu {
                pc: entry,
                gone: false,
                pending: Some(WaitEvent::Stopped(SIGTRAP)),
                executed: Seq::empty(),
                collected: None,
                stepped_memory: Map::empty(),
                stepped_registers: Registers { pc: entry, frame_base },
                after_step_memory: Map::empty(),
                resumed_memory: Map::empty(),
                resumed_collected: None,
            }),
    {
        if base % 8 != 0 || words.len() > (usize::MAX - base) / 8 {
            return None;
        }
        Some(
            SimulatedProcess {
                base,
                words,
                pc: entry,
                frame_base,
                end,
                exit_code,
                pending: Some(WaitEvent::Stopped(SIGTRAP)),
                gone: false,
                executed: Vec::new(),
                pid: 1,
                requests: Ghost(Seq::empty()),
                collected: Ghost(None),
                stepped_memory: Ghost(Map::empty()),
                stepped_registers: Ghost(Registers { pc: entry, frame_base }),
                after_step_memory: Ghost(Map::empty()),
                resumed_memory: Ghost(Map::empty()),
                resumed_collected: Ghost(None),
            },
        )
    }

    fn sound(&self) -> (sound: bool)
        ensures
            sound == self.well_formed(),
    {
        self.base % 8 == 0 && self.words.len() <= (usize::MAX - self.base) / 8
    }

    /// The index of the word at the aligned address `addr`, if the word
    /// is mapped.
    fn word_index(&self, addr: usize) -> (index: Option<usize>)
        requires
            self.well_formed(),
            addr % 8 == 0,
        ensures
            index is Some <==> self.program().image.contains_key(addr),
            index matches Some(i) ==> i < self.words@.len() && i == (addr - self.base) / 8
                && self.program().image[addr] == self.words@[i as int] && addr + 8
                <= usize::MAX,
    {
        if addr < self.base {
            return None;
        }
        let index = (addr - self.base) / 8;
        if index < self.words.len() {
            Some(index)
        } else {
            None
        }
    }

    /// Returns the byte at `addr` as the process would read it.
    pub fn byte_at(&self, addr: usize) -> (byte: Option<u8>)
        ensures
            self.modelled() ==> (byte is Some <==> self.program().image.contains_key(
                word_base(addr),
            )),
            self.modelled() ==> (byte matches Some(b) ==> b == mem_byte(
                self.program().image,
                addr,
            )),
    {
        if !self.sound() {
            return None;
        }
        let index = self.word_index(align_addr_to_word(addr))?;
        Some(extract_byte(self.words[index], offset_in_word(addr)))
    }

    /// Runs the instruction at the program counter and says whether the
    /// process runs on after it.
    fn execute(&mut self) -> (running: bool)
        requires
            old(self).well_formed(),
        ensures
            final(self).well_formed(),
            final(self).program() == old(self).program(),
            final(self).frame_base() == old(self).frame_base(),
            final(self).id() == old(self).id(),
            final(self).requests() == old(self).requests(),
            final(self).cpu() == executed_one(old(self).program(), old(self).cpu()),
            running == runs_on(old(self).program(), old(self).cpu()),
            running ==> old(self).cpu().pc < usize::MAX,
    {
        if self.pc == self.end {
            self.gone = true;
            self.pending = Some(WaitEvent::Exited(self.exit_code));
            return false;
        }
        let byte = match self.byte_at(self.pc) {
            Some(byte) => byte,
            None => {
                self.pending = Some(WaitEvent::Stopped(SIGSEGV));
                return false;
            },
        };
        self.executed.push(byte);
        self.pc = self.pc + 1;
        if byte == TRAP_OPCODE {
            self.pending = Some(WaitEvent::Stopped(SIGTRAP));
            return false;
        }
        true
    }

    /// Returns the bytes of the instructions the process has run.
    pub fn executed_bytes(&self) -> (bytes: &Vec<u8>)
        ensures
            bytes@ == self.cpu().executed,
    {
        &self.executed
    }
}

impl Tracee for SimulatedProcess {
    open spec fn modelled(&self) -> bool {
        self.well_formed()
    }

    open spec fn memory(&self) -> Map<usize, u64> {
        if self.cpu().gone {
            Map::empty()
        } else {
            self.program().image
        }
    }

    open spec fn register_file(&self) -> Registers {
        Registers { pc: self.cpu().pc, frame_base: self.frame_base() }
    }

    open spec fn present(&self) -> bool {
        !self.cpu().gone
    }

    open spec fn pending(&self) -> Option<WaitEvent> {
        self.cpu().pending
    }

    open spec fn collected(&self) -> Option<WaitEvent> {
        self.cpu().collected
    }

    open spec fn stepped_memory(&self) -> Map<usize, u64> {
        self.cpu().stepped_memory
    }

    open spec fn stepped_registers(&self) -> Registers {
        self.cpu().stepped_registers
    }

    open spec fn after_step_memory(&self) -> Map<usize, u64> {
        self.cpu().after_step_memory
    }

    open spec fn resumed_memory(&self) -> Map<usize, u64> {
        self.cpu().resumed_memory
    }

    open spec fn resumed_collected(&self) -> Option<WaitEvent> {
        self.cpu().resumed_collected
    }

    closed spec fn requests(&self) -> Seq<Request> {
        self.requests@
    }

    closed spec fn id(&self) -> i32 {
        self.pid
    }

    fn peek(&self, addr: usize) -> (word: Result<u64, TraceError>)
        ensures
            word is Err ==> word == Err::<u64, TraceError>(TraceError::Os(EFAULT)),
    {
        if !self.sound() || self.gone {
            return Err(TraceError::Os(EFAULT));
        }
        match self.word_index(addr) {
            Some(index) => Ok(self.words[index]),
            None => Err(TraceError::Os(EFAULT)),
        }
    }

    fn poke(&mut self, addr: usize, word: u64) -> (done: Result<(), TraceError>)
        ensures
            done is Err ==> done == Err::<(), TraceError>(TraceError::Os(EFAULT)),
            final(self).cpu() == old(self).cpu(),
            final(self).frame_base() == old(self).frame_base(),
    {
        proof {
            self.requests@ = self.requests@.push(Request::Poke { addr });
        }
        if !self.sound() || self.gone {
            return Err(TraceError::Os(EFAULT));
        }
        match self.word_index(addr) {
            Some(index) => {
                self.words[index] = word;
                assert(final(self).memory() =~= old(self).memory().insert(addr, word)) by {
                    assert forall|a: usize| #[trigger]
                        old(self).memory().insert(addr, word).contains_key(
                            a,
                        ) implies self.memory()[a] == old(self).memory().insert(addr, word)[a] by {
                        if a != addr {
                            assert((a - self.base) / 8 != (addr - self.base) / 8);
                        }
                    }
                }
                Ok(())
            },
            None => Err(TraceError::Os(EFAULT)),
        }
    }

    fn registers(&self) -> (regs: Result<Registers, TraceError>)
        ensures
            regs == if self.cpu().gone {
                Err::<Registers, TraceError>(TraceError::Os(ESRCH))
            } else {
                Ok(Registers { pc: self.cpu().pc, frame_base: self.frame_base() })
            },
    {
        if self.gone {
            Err(TraceError::Os(ESRCH))
        } else {
            Ok(Registers { pc: self.pc, frame_base: self.frame_base })
        }
    }

    fn set_program_counter(&mut self, pc: usize) -> (done: Result<(), TraceError>)
        ensures
            done == if old(self).cpu().gone {
                Err::<(), TraceError>(TraceError::Os(ESRCH))
            } else {
                Ok(())
            },
            final(self).program() == old(self).program(),
            final(self).frame_base() == old(self).frame_base(),
            final(self).cpu() == if old(self).cpu().gone {
                old(self).cpu()
            } else {
                Cpu { pc, ..old(self).cpu() }
            },
    {
        proof {
            self.requests@ = self.requests@.push(Request::SetProgramCounter { pc });
        }
        if self.gone {
            Err(TraceError::Os(ESRCH))
        } else {
            self.pc = pc;
            Ok(())
        }
    }

    fn step(&mut self) -> (done: Result<(), TraceError>)
        ensures
            old(self).modelled() ==> done == if old(self).cpu().gone {
                Err::<(), TraceError>(TraceError::Os(ESRCH))
            } else {
                Ok(())
            },
            final(self).program() == old(self).program(),
            final(self).frame_base() == old(self).frame_base(),
            old(self).modelled() ==> final(self).cpu() == ({
                let asked = Cpu {
                    stepped_memory: old(self).memory(),
                    stepped_registers: old(self).register_file(),
                    ..old(self).cpu()
                };
                let left = if old(self).cpu().gone {
                    asked
                } else {
                    stepped(old(self).program(), asked)
                };
                Cpu { after_step_memory: memory_of(old(self).program(), left), ..left }
            }),
    {
        proof {
            self.requests@ = self.requests@.push(Request::Step);
            self.stepped_memory@ = self.memory();
            self.stepped_registers@ = self.register_file();
        }
        if !self.sound() || self.gone {
            proof {
                self.after_step_memory@ = self.memory();
            }
            return Err(TraceError::Os(ESRCH));
        }
        if self.execute() {
            self.pending = Some(WaitEvent::Stopped(SIGTRAP));
        }
        proof {
            self.after_step_memory@ = self.memory();
        }
        Ok(())
    }

    fn resume(&mut self) -> (done: Result<(), TraceError>)
        ensures
            old(self).modelled() ==> done == if old(self).cpu().gone {
                Err::<(), TraceError>(TraceError::Os(ESRCH))
            } else {
                Ok(())
            },
            final(self).program() == old(self).program(),
            final(self).frame_base() == old(self).frame_base(),
            old(self).modelled() ==> final(self).cpu() == ({
                let asked = Cpu {
                    resumed_memory: old(self).memory(),
                    resumed_collected: old(self).cpu().collected,
                    ..old(self).cpu()
                };
                if old(self).cpu().gone {
                    asked
                } else {
                    resumed(old(self).program(), asked)
                }
            }),
    {
        proof {
            self.requests@ = self.requests@.push(Request::Resume);
            self.resumed_memory@ = self.memory();
            self.resumed_collected@ = self.collected@;
        }
        let ghost asked = self.cpu();
        if !self.sound() || self.gone {
            return Err(TraceError::Os(ESRCH));
        }
        loop
            invariant
                self.well_formed(),
                old(self).well_formed(),
                !old(self).cpu().gone,
                self.program() == old(self).program(),
                self.frame_base() == old(self).frame_base(),
                self.requests() == old(self).requests().push(Request::Resume),
                self.cpu().stepped_memory == old(self).cpu().stepped_memory,
                self.cpu().stepped_registers == old(self).cpu().stepped_registers,
                self.cpu().after_step_memory == old(self).cpu().after_step_memory,
                self.cpu().resumed_memory == old(self).memory(),
                self.cpu().resumed_collected == old(self).cpu().collected,
                asked == (Cpu {
                    resumed_memory: old(self).memory(),
                    resumed_collected: old(self).cpu().collected,
                    ..old(self).cpu()
                }),
                resumed(self.program(), self.cpu()) == resumed(old(self).program(), asked),
            decreases usize::MAX - self.pc,
        {
            if !self.execute() {
                return Ok(());
            }
        }
    }

    fn wait(&mut self) -> (event: Result<WaitEvent, TraceError>)
        ensures
            event == match old(self).cpu().pending {
                Some(e) => Ok::<WaitEvent, TraceError>(e),
                None => Err::<WaitEvent, TraceError>(TraceError::Os(ECHILD)),
            },
            final(self).program() == old(self).program(),
            final(self).frame_base() == old(self).frame_base(),
            final(self).cpu() == (Cpu {
                pending: None,
                collected: old(self).cpu().pending,
                ..old(self).cpu()
            }),
    {
        proof {
            self.requests@ = self.requests@.push(Request::Wait);
            self.collected@ = self.pending;
        }
        match self.pending.take() {
            Some(event) => Ok(event),
            None => Err(TraceError::Os(ECHILD)),
        }
    }

    fn kill(&mut self)
        ensures
            final(self).program() == old(self).program(),
            final(self).frame_base() == old(self).frame_base(),
            final(self).cpu() == (Cpu { gone: true, pending: None, ..old(self).cpu() }),
    {
        proof {
            self.requests@ = self.requests@.push(Request::Kill);
        }
        self.gone = true;
        self.pending = None;
    }

    fn pid(&self) -> (pid: i32) {
        self.pid
    }
}

} // verus!
