//! Memory-patch primitives: machine words, the bytes inside them, and a
//! model of a traced process's memory as the words at aligned addresses.
//!
//! A word is eight bytes, least significant byte at the lowest address.

use vstd::bytes::*;
use vstd::prelude::*;

verus! {

/// Bytes in one machine word of the traced process.
pub const WORD_BYTES: usize = 8;

/// The single-byte instruction that stops the process with a trap signal.
pub const TRAP_OPCODE: u8 = 0xcc;

/// The aligned address of the word that holds the byte at `addr`.
pub open spec fn word_base(addr: usize) -> usize {
    (addr - addr % 8) as usize
}

/// Where in its word the byte at `addr` lies.
pub open spec fn word_offset(addr: usize) -> int {
    addr as int % 8
}

/// Byte `index` of `word`, counted from the least significant one.
pub open spec fn word_byte(word: u64, index: int) -> u8 {
    spec_u64_to_le_bytes(word)[index]
}

/// `word` with byte `index` replaced by `value` and every other byte kept.
pub open spec fn word_with_byte(word: u64, index: int, value: u8) -> u64 {
    spec_u64_from_le_bytes(spec_u64_to_le_bytes(word).update(index, value))
}

/// The byte at `addr` in a memory given by its aligned words.
pub open spec fn mem_byte(mem: Map<usize, u64>, addr: usize) -> u8 {
    word_byte(mem[word_base(addr)], word_offset(addr))
}

/// `mem` after the byte at `addr` is replaced by `value`.
pub open spec fn mem_patch(mem: Map<usize, u64>, addr: usize, value: u8) -> Map<usize, u64> {
    mem.insert(word_base(addr), word_with_byte(mem[word_base(addr)], word_offset(addr), value))
}

/// The word that the eight bytes from `addr` on make, the byte at `addr`
/// the least significant.
pub open spec fn mem_word(mem: Map<usize, u64>, addr: usize) -> u64 {
    spec_u64_from_le_bytes(Seq::new(8, |i: int| mem_byte(mem, (addr + i) as usize)))
}

/// Whether the eight bytes from `addr` on lie within the address space
/// and in words that `mem` maps.
pub open spec fn word_readable(mem: Map<usize, u64>, addr: usize) -> bool {
    &&& addr + 7 <= usize::MAX
    &&& mem.contains_key(word_base(addr))
    &&& mem.contains_key(word_base((addr + 7) as usize))
}

/// Rounds `addr` down to the start of its word.
pub fn align_addr_to_word(addr: usize) -> (aligned: usize)
    ensures
        aligned == word_base(addr),
        aligned % 8 == 0,
        aligned <= addr < aligned + 8,
{
    assert(addr & !7usize == addr - addr % 8) by (bit_vector);
    addr & !7usize
}

/// The offset of the byte at `addr` inside its word.
pub fn offset_in_word(addr: usize) -> (offset: usize)
    ensures
        offset == word_offset(addr),
        offset < 8,
        offset == addr - word_base(addr),
{
    addr - align_addr_to_word(addr)
}

/// Reads one byte out of a word.
pub fn extract_byte(word: u64, index: usize) -> (byte: u8)
    requires
        index < 8,
    ensures
        byte == word_byte(word, index as int),
{
    let shift: u64 = 8 * (index as u64);
    let byte = ((word >> shift) & 0xff) as u8;
    proof {
        spec_u64_to_le_bytes_to_open(word);
        let j = index as u64;
        assert(j < 8 ==> ((word >> (8 * j)) & 0xff) < 256) by (bit_vector);
        assert(word >> 0 == word) by (bit_vector);
    }
    byte
}

/// Writes one byte into a word, leaving the other seven as they were.
pub fn replace_byte(word: u64, index: usize, value: u8) -> (patched: u64)
    requires
        index < 8,
    ensures
        patched == word_with_byte(word, index as int, value),
{
    let shift: u64 = 8 * (index as u64);
    let masked_word = word & !(0xffu64 << shift);
    let patched = masked_word | ((value as u64) << shift);
    proof {
        lemma_replaced_bytes(word, index as u64, value, patched);
    }
    patched
}

proof fn lemma_replaced_bytes(word: u64, k: u64, value: u8, patched: u64)
    requires
        k < 8,
        patched == (word & !(0xffu64 << (8 * k))) | ((value as u64) << (8 * k)),
    ensures
        patched == word_with_byte(word, k as int, value),
{
    let v = value as u64;
    assert forall|j: u64| j < 8 implies #[trigger] ((patched >> (8 * j)) & 0xff) == (if j == k {
        v
    } else {
        (word >> (8 * j)) & 0xff
    }) by {
        assert(k < 8 && j < 8 && v < 256 && patched == (word & !(0xffu64 << (8 * k))) | (v << (8
            * k)) ==> ((patched >> (8 * j)) & 0xff) == (if j == k {
            v
        } else {
            (word >> (8 * j)) & 0xff
        })) by (bit_vector);
    }
    spec_u64_to_le_bytes_to_open(word);
    spec_u64_to_le_bytes_to_open(patched);
    lemma_auto_spec_u64_to_from_le_bytes();
    assert(patched >> 0 == patched) by (bit_vector);
    assert(word >> 0 == word) by (bit_vector);
    let want = spec_u64_to_le_bytes(word).update(k as int, value);
    let got = spec_u64_to_le_bytes(patched);
    assert(got.len() == 8);
    assert forall|i: int| 0 <= i < 8 implies got[i] == want[i] by {
        let j = i as u64;
        assert(((patched >> (8 * j)) & 0xff) == (if j == k {
            v
        } else {
            (word >> (8 * j)) & 0xff
        }));
    }
    assert(got =~= want);
}

/// The word that starts `offset` bytes into `low` and runs on into
/// `high`: the upper bytes of `low` followed by the lower bytes of
/// `high`.
pub fn join_words(low: u64, high: u64, offset: usize) -> (word: u64)
    requires
        0 < offset < 8,
    ensures
        forall|i: int|
            0 <= i < 8 ==> #[trigger] word_byte(word, i) == if i + offset < 8 {
                word_byte(low, i + offset)
            } else {
                word_byte(high, i + offset - 8)
            },
{
    let shift: u64 = 8 * (offset as u64);
    let word = (low >> shift) | (high << (64 - shift));
    proof {
        let k = offset as u64;
        spec_u64_to_le_bytes_to_open(word);
        spec_u64_to_le_bytes_to_open(low);
        spec_u64_to_le_bytes_to_open(high);
        assert(word >> 0 == word) by (bit_vector);
        assert(low >> 0 == low) by (bit_vector);
        assert(high >> 0 == high) by (bit_vector);
        assert forall|j: u64| j < 8 implies #[trigger] ((word >> (8 * j)) & 0xff) == (if j + k < 8 {
            (low >> (8 * (j + k))) & 0xff
        } else {
            (high >> (8 * ((j + k - 8) as u64))) & 0xff
        }) by {
            let up: u64 = shift;
            let down: u64 = (64 - shift) as u64;
            assert(0 < k < 8 && j < 8 && up == 8 * k && down == 64 - up && word == (low >> up) | (
            high << down) ==> ((word >> (8 * j)) & 0xff) == (if j + k < 8 {
                (low >> (8 * (j + k))) & 0xff
            } else {
                (high >> (8 * ((j + k - 8) as u64))) & 0xff
            })) by (bit_vector);
        }
        assert forall|i: int| 0 <= i < 8 implies #[trigger] word_byte(word, i) == if i + offset
            < 8 {
            word_byte(low, i + offset)
        } else {
            word_byte(high, i + offset - 8)
        } by {
            let j = i as u64;
            assert(((word >> (8 * j)) & 0xff) == (if j + k < 8 {
                (low >> (8 * (j + k))) & 0xff
            } else {
                (high >> (8 * ((j + k - 8) as u64))) & 0xff
            }));
        }
    }
    word
}

/// A word read at the start of a word is that word.
pub proof fn lemma_mem_word_aligned(mem: Map<usize, u64>, addr: usize)
    requires
        addr % 8 == 0,
        addr + 7 <= usize::MAX,
    ensures
        mem_word(mem, addr) == mem[addr],
        word_readable(mem, addr) <==> mem.contains_key(addr),
{
    lemma_auto_spec_u64_to_from_le_bytes();
    let bytes = Seq::new(8, |i: int| mem_byte(mem, (addr + i) as usize));
    assert(bytes =~= spec_u64_to_le_bytes(mem[addr])) by {
        assert forall|i: int| 0 <= i < 8 implies bytes[i] == spec_u64_to_le_bytes(mem[addr])[i] by {
            assert(word_base((addr + i) as usize) == addr);
            assert(word_offset((addr + i) as usize) == i);
        }
    }
}

/// A word read across two words is made of the upper bytes of the first
/// and the lower bytes of the second.
pub proof fn lemma_mem_word_joined(mem: Map<usize, u64>, addr: usize, word: u64)
    requires
        addr % 8 != 0,
        addr + 7 <= usize::MAX,
        forall|i: int|
            0 <= i < 8 ==> #[trigger] word_byte(word, i) == if i + word_offset(addr) < 8 {
                word_byte(mem[word_base(addr)], i + word_offset(addr))
            } else {
                word_byte(mem[(word_base(addr) + 8) as usize], i + word_offset(addr) - 8)
            },
    ensures
        mem_word(mem, addr) == word,
        word_readable(mem, addr) <==> mem.contains_key(word_base(addr)) && mem.contains_key(
            (word_base(addr) + 8) as usize,
        ),
{
    lemma_auto_spec_u64_to_from_le_bytes();
    let bytes = Seq::new(8, |i: int| mem_byte(mem, (addr + i) as usize));
    assert(word_base((addr + 7) as usize) == word_base(addr) + 8);
    assert(bytes =~= spec_u64_to_le_bytes(word)) by {
        assert forall|i: int| 0 <= i < 8 implies bytes[i] == spec_u64_to_le_bytes(word)[i] by {
            assert(spec_u64_to_le_bytes(word)[i] == word_byte(word, i));
            if i + word_offset(addr) < 8 {
                assert(word_base((addr + i) as usize) == word_base(addr));
                assert(word_offset((addr + i) as usize) == i + word_offset(addr));
            } else {
                assert(word_base((addr + i) as usize) == word_base(addr) + 8);
                assert(word_offset((addr + i) as usize) == i + word_offset(addr) - 8);
            }
        }
    }
}

/// A byte written into a word is the byte read back from there, and the
/// other bytes of the word read as before.
pub proof fn lemma_word_bytes_after_write(word: u64, index: int, value: u8, other: int)
    requires
        0 <= index < 8,
        0 <= other < 8,
    ensures
        word_byte(word_with_byte(word, index, value), index) == value,
        other != index ==> word_byte(word_with_byte(word, index, value), other) == word_byte(
            word,
            other,
        ),
{
    lemma_auto_spec_u64_to_from_le_bytes();
    let bytes = spec_u64_to_le_bytes(word).update(index, value);
    assert(bytes.len() == 8);
    assert(spec_u64_to_le_bytes(spec_u64_from_le_bytes(bytes)) == bytes);
}

/// Writing a byte back undoes the write that replaced it, and writing
/// the same byte twice is writing it once.
pub proof fn lemma_word_write_back(word: u64, index: int, value: u8)
    requires
        0 <= index < 8,
    ensures
        word_with_byte(word_with_byte(word, index, value), index, word_byte(word, index)) == word,
        word_with_byte(word_with_byte(word, index, value), index, value) == word_with_byte(
            word,
            index,
            value,
        ),
{
    lemma_auto_spec_u64_to_from_le_bytes();
    let bytes = spec_u64_to_le_bytes(word);
    let written = bytes.update(index, value);
    assert(written.len() == 8);
    assert(spec_u64_to_le_bytes(spec_u64_from_le_bytes(written)) == written);
    assert(written.update(index, bytes[index]) =~= bytes);
    assert(written.update(index, value) =~= written);
}

/// The byte at a patched address is the byte that was written there.
pub proof fn lemma_patched_byte(mem: Map<usize, u64>, addr: usize, value: u8)
    ensures
        mem_byte(mem_patch(mem, addr, value), addr) == value,
        mem_patch(mem, addr, value).dom() == mem.dom().insert(word_base(addr)),
{
    lemma_word_bytes_after_write(mem[word_base(addr)], word_offset(addr), value, 0);
}

/// A patch changes one byte: every other address reads as before.
pub proof fn lemma_patch_keeps_other_bytes(
    mem: Map<usize, u64>,
    addr: usize,
    value: u8,
    other: usize,
)
    requires
        other != addr,
    ensures
        mem_byte(mem_patch(mem, addr, value), other) == mem_byte(mem, other),
{
    if word_base(other) == word_base(addr) {
        assert(word_offset(other) != word_offset(addr));
        lemma_word_bytes_after_write(
            mem[word_base(addr)],
            word_offset(addr),
            value,
            word_offset(other),
        );
    }
}

/// Patching the old byte back in gives the memory as it was, where the
/// word was mapped.
pub proof fn lemma_patch_undone(mem: Map<usize, u64>, addr: usize, value: u8)
    requires
        mem.contains_key(word_base(addr)),
    ensures
        mem_patch(mem_patch(mem, addr, value), addr, mem_byte(mem, addr)) == mem,
        mem_patch(mem_patch(mem, addr, value), addr, value) == mem_patch(mem, addr, value),
{
    lemma_word_write_back(mem[word_base(addr)], word_offset(addr), value);
    assert(mem_patch(mem_patch(mem, addr, value), addr, mem_byte(mem, addr)) =~= mem);
    assert(mem_patch(mem_patch(mem, addr, value), addr, value) =~= mem_patch(mem, addr, value));
}

} // verus!
