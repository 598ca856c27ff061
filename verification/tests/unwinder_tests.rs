use deet::inferior::Inferior;
use deet::simulated::SimulatedProcess;
use deet::symbols::{FunctionSymbol, LineSymbol, SymbolTable};
use deet::unwinder::{resolve_frame, StackFrame, WalkEnd};

const NOPS: u64 = 0x9090909090909090;

fn symbols() -> SymbolTable {
    SymbolTable::new(
        vec![
            FunctionSymbol { name: "main".to_string(), address: 0x1000, length: 0x10 },
            FunctionSymbol { name: "outer".to_string(), address: 0x1010, length: 0x10 },
            FunctionSymbol { name: "inner".to_string(), address: 0x1020, length: 0x20 },
        ],
        vec![
            LineSymbol { file: "prog.c".to_string(), number: 3, address: 0x1000 },
            LineSymbol { file: "prog.c".to_string(), number: 20, address: 0x1010 },
            LineSymbol { file: "util.c".to_string(), number: 7, address: 0x1020 },
        ],
    )
}

/// Code in 0x1000..0x1040 and a stack in 0x1040..0x10c0 with the words
/// of `stack` written over it, each given as (address, word).
fn stopped(stack: &[(usize, u64)]) -> Inferior<SimulatedProcess> {
    let mut words = vec![NOPS; 8];
    words.extend(vec![0u64; 16]);
    for (addr, word) in stack {
        words[(addr - 0x1000) / 8] = *word;
    }
    let child = SimulatedProcess::new(0x1000, words, 0x1000, 0x1040, 0x1060, 0).expect("aligned");
    Inferior::new(child, &vec![]).expect("starts")
}

fn frame(pc: usize, name: &str, file: &str, line: usize) -> StackFrame {
    StackFrame {
        program_counter: pc,
        function_name: name.to_string(),
        file: file.to_string(),
        line,
    }
}

#[test]
fn a_frame_needs_both_a_line_and_a_function() {
    let table = symbols();
    assert_eq!(resolve_frame(&table, 0x1025), Some(frame(0x1025, "inner", "util.c", 7)));
    assert_eq!(resolve_frame(&table, 0x1040), None);
    assert_eq!(resolve_frame(&table, 0xfff), None);
    let lines_only = SymbolTable::new(vec![], table.lines.clone());
    assert_eq!(resolve_frame(&lines_only, 0x1025), None);
    let functions_only = SymbolTable::new(table.functions.clone(), vec![]);
    assert_eq!(resolve_frame(&functions_only, 0x1025), None);
}

#[test]
fn the_walk_follows_saved_frame_bases_to_the_entry_function() {
    let inferior = stopped(&[(0x1060, 0x1080), (0x1068, 0x1015), (0x1080, 0x10a0), (0x1088, 0x1002)]);
    let trace = inferior.unwind(&symbols(), 0x1025, 0x1060);
    assert_eq!(trace.program_counter, 0x1025);
    assert_eq!(trace.end, WalkEnd::Entry);
    assert_eq!(
        trace.frames,
        vec![
            frame(0x1025, "inner", "util.c", 7),
            frame(0x1015, "outer", "prog.c", 20),
            frame(0x1002, "main", "prog.c", 3),
        ]
    );
}

#[test]
fn the_walk_from_the_registers_starts_at_the_program_counter() {
    let inferior = stopped(&[(0x1060, 0x1080), (0x1068, 0x1015)]);
    let trace = inferior.print_backtrace(&symbols()).expect("registers are readable");
    assert_eq!(trace.program_counter, 0x1000);
    assert_eq!(trace.end, WalkEnd::Entry);
    assert_eq!(trace.frames, vec![frame(0x1000, "main", "prog.c", 3)]);
}

#[test]
fn a_stop_in_unknown_code_gives_no_frame() {
    let inferior = stopped(&[]);
    let trace = inferior.unwind(&symbols(), 0x5000, 0x1060);
    assert_eq!(trace.end, WalkEnd::NoFunction);
    assert!(trace.frames.is_empty());
    let trace = inferior.unwind(&symbols(), 0x10, 0x1060);
    assert_eq!(trace.end, WalkEnd::NoLine);
    assert!(trace.frames.is_empty());
}

#[test]
fn a_corrupted_frame_base_ends_the_walk_with_the_frames_found() {
    let inferior = stopped(&[(0x1060, 0x1080), (0x1068, 0x1015), (0x1080, 0x10a0), (0x1088, 0xdead0000)]);
    let trace = inferior.unwind(&symbols(), 0x1025, 0x1060);
    assert_eq!(trace.end, WalkEnd::NoFunction);
    assert_eq!(
        trace.frames,
        vec![frame(0x1025, "inner", "util.c", 7), frame(0x1015, "outer", "prog.c", 20)]
    );
}

#[test]
fn a_return_address_below_all_code_ends_the_walk() {
    let inferior = stopped(&[(0x1060, 0x1080), (0x1068, 0x8)]);
    let trace = inferior.unwind(&symbols(), 0x1025, 0x1060);
    assert_eq!(trace.end, WalkEnd::NoLine);
    assert_eq!(trace.frames, vec![frame(0x1025, "inner", "util.c", 7)]);
}

#[test]
fn a_frame_base_outside_the_memory_ends_the_walk() {
    let inferior = stopped(&[]);
    let trace = inferior.unwind(&symbols(), 0x1025, 0x9000);
    assert_eq!(trace.end, WalkEnd::Unreadable);
    assert_eq!(trace.frames, vec![frame(0x1025, "inner", "util.c", 7)]);
    let trace = inferior.unwind(&symbols(), 0x1025, 0x10b8);
    assert_eq!(trace.end, WalkEnd::Unreadable);
    assert_eq!(trace.frames.len(), 1);
}

/// As `stopped`, with each word written byte by byte from any address.
fn stopped_at_bytes(stack: &[(usize, u64)]) -> Inferior<SimulatedProcess> {
    let mut bytes = vec![0x90u8; 64];
    bytes.extend(vec![0u8; 128]);
    for (addr, word) in stack {
        for (i, byte) in word.to_le_bytes().iter().enumerate() {
            bytes[addr - 0x1000 + i] = *byte;
        }
    }
    let words: Vec<u64> = bytes
        .chunks(8)
        .map(|chunk| u64::from_le_bytes([
            chunk[0], chunk[1], chunk[2], chunk[3], chunk[4], chunk[5], chunk[6], chunk[7],
        ]))
        .collect();
    let child = SimulatedProcess::new(0x1000, words, 0x1000, 0x1040, 0x1060, 0).expect("aligned");
    Inferior::new(child, &vec![]).expect("starts")
}

#[test]
fn a_word_is_read_at_any_address() {
    let inferior = stopped(&[(0x1060, 0x8877665544332211), (0x1068, 0xffeeddccbbaa0099)]);
    assert_eq!(inferior.read_word_at(0x1060), Some(0x8877665544332211));
    assert_eq!(inferior.read_word_at(0x1068), Some(0xffeeddccbbaa0099));
    assert_eq!(inferior.read_word_at(0x1061), Some(0x9988776655443322));
    assert_eq!(inferior.read_word_at(0x1064), Some(0xbbaa009988776655));
    assert_eq!(inferior.read_word_at(0x1067), Some(0xeeddccbbaa009988));
}

#[test]
fn a_word_that_leaves_the_memory_is_not_read() {
    let inferior = stopped(&[]);
    assert_eq!(inferior.read_word_at(0x10b8), Some(0));
    assert_eq!(inferior.read_word_at(0x10b9), None);
    assert_eq!(inferior.read_word_at(0x10c0), None);
    assert_eq!(inferior.read_word_at(0xff9), None);
    assert_eq!(inferior.read_word_at(0xff8), None);
    assert_eq!(inferior.read_word_at(0x1000), Some(NOPS));
    assert_eq!(inferior.read_word_at(usize::MAX), None);
    assert_eq!(inferior.read_word_at(usize::MAX - 7), None);
}

#[test]
fn a_frame_base_inside_a_word_is_followed() {
    let inferior = stopped_at_bytes(&[
        (0x1061, 0x1083),
        (0x1069, 0x1015),
        (0x1083, 0x10a0),
        (0x108b, 0x1002),
    ]);
    let trace = inferior.unwind(&symbols(), 0x1025, 0x1061);
    assert_eq!(trace.end, WalkEnd::Entry);
    assert_eq!(
        trace.frames,
        vec![
            frame(0x1025, "inner", "util.c", 7),
            frame(0x1015, "outer", "prog.c", 20),
            frame(0x1002, "main", "prog.c", 3),
        ]
    );
}

#[test]
fn a_chain_that_leads_down_is_followed() {
    let inferior = stopped(&[(0x1080, 0x1060), (0x1088, 0x1015), (0x1060, 0x1050), (0x1068, 0x1002)]);
    let trace = inferior.unwind(&symbols(), 0x1025, 0x1080);
    assert_eq!(trace.end, WalkEnd::Entry);
    assert_eq!(
        trace.frames,
        vec![
            frame(0x1025, "inner", "util.c", 7),
            frame(0x1015, "outer", "prog.c", 20),
            frame(0x1002, "main", "prog.c", 3),
        ]
    );
}

#[test]
fn a_frame_that_saved_its_own_base_is_followed() {
    let inferior = stopped(&[(0x1060, 0x1060), (0x1068, 0x1002)]);
    let trace = inferior.unwind(&symbols(), 0x1025, 0x1060);
    assert_eq!(trace.end, WalkEnd::Entry);
    assert_eq!(
        trace.frames,
        vec![frame(0x1025, "inner", "util.c", 7), frame(0x1002, "main", "prog.c", 3)]
    );
}

#[test]
fn a_frame_in_a_function_called_from_main_gives_both() {
    let inferior = stopped(&[(0x1060, 0x1070), (0x1068, 0x1005)]);
    let trace = inferior.unwind(&symbols(), 0x1012, 0x1060);
    assert_eq!(trace.end, WalkEnd::Entry);
    assert_eq!(
        trace.frames,
        vec![frame(0x1012, "outer", "prog.c", 20), frame(0x1005, "main", "prog.c", 3)]
    );
}

#[test]
fn a_frame_base_at_the_top_of_the_address_space_ends_the_walk() {
    let inferior = stopped(&[]);
    let trace = inferior.unwind(&symbols(), 0x1025, usize::MAX - 7);
    assert_eq!(trace.end, WalkEnd::Unreadable);
    assert_eq!(trace.frames.len(), 1);
    let trace = inferior.unwind(&symbols(), 0x1025, usize::MAX);
    assert_eq!(trace.end, WalkEnd::Unreadable);
    assert_eq!(trace.frames.len(), 1);
}

#[test]
fn the_walk_of_a_process_that_is_gone_fails() {
    let mut inferior = stopped(&[]);
    inferior.kill();
    assert!(inferior.print_backtrace(&symbols()).is_err());
}
