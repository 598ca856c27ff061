//! The stack unwinder: the call chain of a stopped child, read off the
//! chain of saved frame bases and named with the symbol data.
//!
//! A frame base points at the saved frame base of the caller; the word
//! eight bytes above it holds the address the callee returns to. The
//! walk follows the chain wherever it leads, and ends where an address
//! does not resolve, at the frame of the entry function, or where the
//! child's memory cannot be read.

use crate::inferior::Inferior;
use crate::symbols::SymbolTable;
use crate::tracee::{TraceError, Tracee};
use crate::word::{
    align_addr_to_word, join_words, lemma_mem_word_aligned, lemma_mem_word_joined, mem_word,
    offset_in_word, word_readable,
};
use vstd::prelude::*;

verus! {

/// One resolved frame of the call chain.
#[derive(Clone, Debug, PartialEq, Eq)]
pub struct StackFrame {
    pub program_counter: usize,
    pub function_name: String,
    pub file: String,
    pub line: usize,
}

/// A frame with its texts as sequences of characters.
pub struct Frame {
    pub program_counter: usize,
    pub function_name: Seq<char>,
    pub file: Seq<char>,
    pub line: usize,
}

impl View for StackFrame {
    type V = Frame;

    open spec fn view(&self) -> Frame {
        Frame {
            program_counter: self.program_counter,
            function_name: self.function_name@,
            file: self.file@,
            line: self.line,
        }
    }
}

/// Why a walk went no further.
#[derive(Clone, Copy, Debug, PartialEq, Eq, Structural)]
pub enum WalkEnd {
    /// The last frame is that of the program's entry function.
    Entry,
    /// The symbol data has no source line for the next address.
    NoLine,
    /// The symbol data has no function for the next address.
    NoFunction,
    /// The child's memory could not be read at the frame base.
    Unreadable,
    /// As many frames were found as a list can hold.
    Full,
}

/// The call chain of a stopped child, innermost frame first.
#[derive(Clone, Debug, PartialEq, Eq)]
pub struct Backtrace {
    pub program_counter: usize,
    pub frames: Vec<StackFrame>,
    pub end: WalkEnd,
}

/// The name of the function in which a program starts.
pub open spec fn entry_name() -> Seq<char> {
    "main"@
}

/// The frame that `pc` resolves to, where the symbol data has both a
/// source line and a function for it.
pub open spec fn frame_at(symbols: SymbolTable, pc: usize) -> Option<Frame> {
    match (symbols.source_line_at(pc), symbols.function_name_at(pc)) {
        (Some(line), Some(name)) => Some(
            Frame { program_counter: pc, function_name: name, file: line.0, line: line.1 },
        ),
        _ => None,
    }
}

/// Whether the two words that the frame at `frame_base` saved can be
/// read from `mem`: the return address eight bytes above the frame base,
/// and the caller's frame base at it.
pub open spec fn has_caller(mem: Map<usize, u64>, frame_base: usize) -> bool {
    &&& frame_base + 8 <= usize::MAX
    &&& word_readable(mem, (frame_base + 8) as usize)
    &&& word_readable(mem, frame_base)
}

/// The address that the frame at `frame_base` returns to.
pub open spec fn return_address(mem: Map<usize, u64>, frame_base: usize) -> usize {
    mem_word(mem, (frame_base + 8) as usize) as usize
}

/// The frame base of the caller of the frame at `frame_base`.
pub open spec fn saved_base(mem: Map<usize, u64>, frame_base: usize) -> usize {
    mem_word(mem, frame_base) as usize
}

/// The frames of the walk that starts at `pc` with frame base
/// `frame_base`, over the memory `mem`, with room for `room` frames.
pub open spec fn walk_frames(
    symbols: SymbolTable,
    mem: Map<usize, u64>,
    pc: usize,
    frame_base: usize,
    room: nat,
) -> Seq<Frame>
    decreases room,
{
    if room == 0 {
        Seq::empty()
    } else {
        match frame_at(symbols, pc) {
            None => Seq::empty(),
            Some(frame) => if frame.function_name == entry_name() || !has_caller(mem, frame_base) {
                seq![frame]
            } else {
                seq![frame] + walk_frames(
                    symbols,
                    mem,
                    return_address(mem, frame_base),
                    saved_base(mem, frame_base),
                    (room - 1) as nat,
                )
            },
        }
    }
}

/// Why the walk that starts at `pc` with frame base `frame_base` ends.
pub open spec fn walk_end(
    symbols: SymbolTable,
    mem: Map<usize, u64>,
    pc: usize,
    frame_base: usize,
    room: nat,
) -> WalkEnd
    decreases room,
{
    if room == 0 {
        WalkEnd::Full
    } else if symbols.source_line_at(pc) is None {
        WalkEnd::NoLine
    } else if symbols.function_name_at(pc) is None {
        WalkEnd::NoFunction
    } else if symbols.function_name_at(pc) == Some(entry_name()) {
        WalkEnd::Entry
    } else if has_caller(mem, frame_base) {
        walk_end(
            symbols,
            mem,
            return_address(mem, frame_base),
            saved_base(mem, frame_base),
            (room - 1) as nat,
        )
    } else {
        WalkEnd::Unreadable
    }
}

/// The frames of `frames` with their texts as sequences of characters.
pub open spec fn frame_views(frames: Seq<StackFrame>) -> Seq<Frame> {
    frames.map_values(|f: StackFrame| f@)
}

/// Resolves `pc` to a frame, if the symbol data has both a source line
/// and a function for it.
pub fn resolve_frame(symbols: &SymbolTable, pc: usize) -> (frame: Option<StackFrame>)
    ensures
        frame is Some <==> frame_at(*symbols, pc) is Some,
        frame matches Some(f) ==> frame_at(*symbols, pc) == Some(f@),
{
    let line = match symbols.line_at(pc) {
        Some(line) => line,
        None => {
            return None;
        },
    };
    let function_name = match symbols.function_at(pc) {
        Some(name) => name,
        None => {
            return None;
        },
    };
    Some(StackFrame { program_counter: pc, function_name, file: line.file, line: line.number })
}

impl<T: Tracee> Inferior<T> {
    /// Reads the word that the eight bytes from `addr` on make: with one
    /// read where `addr` is the start of a word, and else with two, of
    /// the word that holds `addr` and of the next.
    pub fn read_word_at(&self, addr: usize) -> (word: Option<u64>)
        ensures
            self.modelled() ==> (word is Some <==> word_readable(self.memory(), addr)),
            self.modelled() ==> (word matches Some(w) ==> w == mem_word(self.memory(), addr)),
    {
        if addr > usize::MAX - 7 {
            return None;
        }
        let base = align_addr_to_word(addr);
        let offset = offset_in_word(addr);
        if offset == 0 {
            proof {
                lemma_mem_word_aligned(self.memory(), addr);
            }
            return match self.read_word(base) {
                Ok(word) => Some(word),
                Err(_) => None,
            };
        }
        let low = match self.read_word(base) {
            Ok(word) => word,
            Err(_) => {
                return None;
            },
        };
        let high = match self.read_word(base + 8) {
            Ok(word) => word,
            Err(_) => {
                proof {
                    if self.modelled() {
                        assert(crate::word::word_base((addr + 7) as usize) == base + 8);
                    }
                }
                return None;
            },
        };
        let word = join_words(low, high, offset);
        proof {
            if self.modelled() {
                lemma_mem_word_joined(self.memory(), addr, word);
            }
        }
        Some(word)
    }

    /// Walks the chain of frames that starts at `pc` with the frame base
    /// `frame_base`. Each address is resolved to a source line and a
    /// function; the walk ends with the first address that does not
    /// resolve, with the frame of the entry function, or where the two
    /// words that a frame saved cannot be read. The frames found until
    /// then are returned.
    pub fn unwind(&self, symbols: &SymbolTable, pc: usize, frame_base: usize) -> (trace: Backtrace)
        ensures
            trace.program_counter == pc,
            forall|i: int|
                0 <= i < trace.frames@.len() ==> frame_at(
                    *symbols,
                    (#[trigger] trace.frames@[i]).program_counter,
                ) == Some(trace.frames@[i]@),
            forall|i: int|
                0 <= i < trace.frames@.len() - 1 ==> (#[trigger] trace.frames@[i])@.function_name
                    != entry_name(),
            trace.frames@.len() > 0 ==> trace.frames@[0].program_counter == pc,
            trace.frames@.len() == 0 <==> frame_at(*symbols, pc) is None,
            trace.end == WalkEnd::Entry <==> trace.frames@.len() > 0
                && trace.frames@.last()@.function_name == entry_name(),
            self.modelled() ==> frame_views(trace.frames@) == walk_frames(
                *symbols,
                self.memory(),
                pc,
                frame_base,
                usize::MAX as nat,
            ),
            self.modelled() ==> trace.end == walk_end(
                *symbols,
                self.memory(),
                pc,
                frame_base,
                usize::MAX as nat,
            ),
    {
        let entry = "main".to_owned();
        let mut frames: Vec<StackFrame> = Vec::new();
        let mut instruction_ptr = pc;
        let mut base_ptr = frame_base;
        assert(frame_views(frames@) =~= Seq::<Frame>::empty());
        while frames.len() < usize::MAX
            invariant
                entry@ == entry_name(),
                forall|i: int|
                    0 <= i < frames@.len() ==> frame_at(
                        *symbols,
                        (#[trigger] frames@[i]).program_counter,
                    ) == Some(frames@[i]@),
                forall|i: int|
                    0 <= i < frames@.len() ==> (#[trigger] frames@[i])@.function_name
                        != entry_name(),
                frames@.len() > 0 ==> frames@[0].program_counter == pc,
                frames@.len() == 0 ==> instruction_ptr == pc,
                self.modelled() ==> frame_views(frames@) + walk_frames(
                    *symbols,
                    self.memory(),
                    instruction_ptr,
                    base_ptr,
                    (usize::MAX - frames@.len()) as nat,
                ) == walk_frames(*symbols, self.memory(), pc, frame_base, usize::MAX as nat),
                self.modelled() ==> walk_end(
                    *symbols,
                    self.memory(),
                    instruction_ptr,
                    base_ptr,
                    (usize::MAX - frames@.len()) as nat,
                ) == walk_end(*symbols, self.memory(), pc, frame_base, usize::MAX as nat),
            decreases usize::MAX - frames@.len(),
        {
            let ghost room = (usize::MAX - frames@.len()) as nat;
            let line = match symbols.line_at(instruction_ptr) {
                Some(line) => line,
                None => {
                    assert(frame_views(frames@) + Seq::<Frame>::empty() =~= frame_views(frames@));
                    return Backtrace { program_counter: pc, frames, end: WalkEnd::NoLine };
                },
            };
            let function_name = match symbols.function_at(instruction_ptr) {
                Some(name) => name,
                None => {
                    assert(frame_views(frames@) + Seq::<Frame>::empty() =~= frame_views(frames@));
                    return Backtrace { program_counter: pc, frames, end: WalkEnd::NoFunction };
                },
            };
            let at_entry = function_name == entry;
            let frame = StackFrame {
                program_counter: instruction_ptr,
                function_name,
                file: line.file,
                line: line.number,
            };
            let ghost found = frames@;
            frames.push(frame);
            assert(frame_views(frames@) =~= frame_views(found) + seq![frame@]);
            let ghost rest = walk_frames(*symbols, self.memory(), instruction_ptr, base_ptr, room);
            if at_entry {
                assert(self.modelled() ==> frame_views(found) + rest =~= frame_views(frames@));
                return Backtrace { program_counter: pc, frames, end: WalkEnd::Entry };
            }
            if base_ptr > usize::MAX - 8 {
                assert(self.modelled() ==> frame_views(found) + rest =~= frame_views(frames@));
                return Backtrace { program_counter: pc, frames, end: WalkEnd::Unreadable };
            }
            let return_word = match self.read_word_at(base_ptr + 8) {
                Some(word) => word,
                None => {
                    assert(self.modelled() ==> frame_views(found) + rest =~= frame_views(frames@));
                    return Backtrace { program_counter: pc, frames, end: WalkEnd::Unreadable };
                },
            };
            let saved_word = match self.read_word_at(base_ptr) {
                Some(word) => word,
                None => {
                    assert(self.modelled() ==> frame_views(found) + rest =~= frame_views(frames@));
                    return Backtrace { program_counter: pc, frames, end: WalkEnd::Unreadable };
                },
            };
            let next_ptr = #[verifier::truncate] (return_word as usize);
            let next_base = #[verifier::truncate] (saved_word as usize);
            proof {
                if self.modelled() {
                    assert(has_caller(self.memory(), base_ptr));
                    assert(next_ptr == return_address(self.memory(), base_ptr));
                    assert(next_base == saved_base(self.memory(), base_ptr));
                    let onward = walk_frames(
                        *symbols,
                        self.memory(),
                        next_ptr,
                        next_base,
                        (room - 1) as nat,
                    );
                    assert(rest == seq![frame@] + onward);
                    assert(frame_views(frames@) + onward =~= frame_views(found) + rest);
                }
            }
            instruction_ptr = next_ptr;
            base_ptr = next_base;
        }
        proof {
            if self.modelled() {
                assert(frame_views(frames@) + Seq::<Frame>::empty() =~= frame_views(frames@));
            }
        }
        Backtrace { program_counter: pc, frames, end: WalkEnd::Full }
    }

    /// Reads the call chain of the stopped child: the walk from its
    /// program counter and frame base.
    pub fn print_backtrace(&self, symbols: &SymbolTable) -> (trace: Result<Backtrace, TraceError>)
        ensures
            trace matches Ok(t) ==> forall|i: int|
                0 <= i < t.frames@.len() ==> frame_at(
                    *symbols,
                    (#[trigger] t.frames@[i]).program_counter,
                ) == Some(t.frames@[i]@),
            trace matches Ok(t) ==> (t.frames@.len() > 0 ==> t.frames@[0].program_counter
                == t.program_counter),
            trace matches Ok(t) ==> (t.frames@.len() == 0 <==> frame_at(
                *symbols,
                t.program_counter,
            ) is None),
            trace matches Ok(t) ==> (t.end == WalkEnd::Entry <==> t.frames@.len() > 0
                && t.frames@.last()@.function_name == entry_name()),
            self.modelled() ==> (trace is Ok <==> self.present()),
            self.modelled() ==> (trace matches Ok(t) ==> t.program_counter
                == self.register_file().pc && frame_views(t.frames@) == walk_frames(
                *symbols,
                self.memory(),
                self.register_file().pc,
                self.register_file().frame_base,
                usize::MAX as nat,
            ) && t.end == walk_end(
                *symbols,
                self.memory(),
                self.register_file().pc,
                self.register_file().frame_base,
                usize::MAX as nat,
            )),
    {
        let regs = self.registers()?;
        Ok(self.unwind(symbols, regs.pc, regs.frame_base))
    }
}

} // verus!
