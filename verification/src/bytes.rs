//! Words as bytes, in the byte order of the machine.

use vstd::prelude::*;

use crate::mesh_cpu;

verus! {

/// `bytes` are the words, each least significant byte first.
pub open spec fn little_endian(words: Seq<u32>, bytes: Seq<u8>) -> bool {
    &&& bytes.len() == 4 * words.len()
    &&& forall|i: int|
        0 <= i < bytes.len() ==> #[trigger] bytes[i] == mesh_cpu::le_byte(
            words[i / 4] as int,
            i % 4,
        )
}

/// `bytes` are the words, each most significant byte first.
pub open spec fn big_endian(words: Seq<u32>, bytes: Seq<u8>) -> bool {
    &&& bytes.len() == 4 * words.len()
    &&& forall|i: int|
        0 <= i < bytes.len() ==> #[trigger] bytes[i] == mesh_cpu::le_byte(
            words[i / 4] as int,
            3 - i % 4,
        )
}

/// `bytes` are the words in one byte order, the same for all of them.
pub open spec fn native_bytes(words: Seq<u32>, bytes: Seq<u8>) -> bool {
    little_endian(words, bytes) || big_endian(words, bytes)
}

/// The memory of a slice of words, copied.
///
/// Calls `bytemuck::cast_slice`, which views the words' memory as bytes: four
/// per word, in the machine's byte order. A byte needs no alignment and its
/// size divides every length, so the cast never fails.
#[verifier::external_body]
pub(crate) fn cast_words(words: &[u32]) -> (bytes: Vec<u8>)
    ensures
        native_bytes(words@, bytes@),
{
    bytemuck::cast_slice::<u32, u8>(words).to_vec()
}

/// The two's complement word of a signed integer.
pub open spec fn word_of(n: i32) -> u32 {
    if n >= 0 {
        n as u32
    } else {
        (0x1_0000_0000 + n) as u32
    }
}

/// The two's complement word of a signed integer.
pub fn signed_word(n: i32) -> (w: u32)
    ensures
        w == word_of(n),
{
    if n >= 0 {
        n as u32
    } else {
        (0x1_0000_0000i64 + n as i64) as u32
    }
}

/// Words of one memory image have the same bytes only if they are the same.
pub proof fn little_endian_injective(a: Seq<u32>, b: Seq<u32>, bytes: Seq<u8>)
    requires
        little_endian(a, bytes),
        little_endian(b, bytes),
    ensures
        a == b,
{
    assert forall|i: int| 0 <= i < a.len() implies a[i] == b[i] by {
        assert(bytes[4 * i] == mesh_cpu::le_byte(a[i] as int, 0) && bytes[4 * i]
            == mesh_cpu::le_byte(b[i] as int, 0)) by {
            assert((4 * i) / 4 == i && (4 * i) % 4 == 0);
        }
        assert(bytes[4 * i + 1] == mesh_cpu::le_byte(a[i] as int, 1) && bytes[4 * i + 1]
            == mesh_cpu::le_byte(b[i] as int, 1)) by {
            assert((4 * i + 1) / 4 == i && (4 * i + 1) % 4 == 1);
        }
        assert(bytes[4 * i + 2] == mesh_cpu::le_byte(a[i] as int, 2) && bytes[4 * i + 2]
            == mesh_cpu::le_byte(b[i] as int, 2)) by {
            assert((4 * i + 2) / 4 == i && (4 * i + 2) % 4 == 2);
        }
        assert(bytes[4 * i + 3] == mesh_cpu::le_byte(a[i] as int, 3) && bytes[4 * i + 3]
            == mesh_cpu::le_byte(b[i] as int, 3)) by {
            assert((4 * i + 3) / 4 == i && (4 * i + 3) % 4 == 3);
        }
    }
    assert(a =~= b);
}

/// A word read as a two's complement number.
pub open spec fn signed_value(w: u32) -> int {
    if w < 0x8000_0000 {
        w as int
    } else {
        w - 0x1_0000_0000
    }
}

/// The word of a signed integer reads back as that integer.
pub proof fn signed_words_read_back(n: i32)
    ensures
        signed_value(word_of(n)) == n,
{
}

} // verus!
