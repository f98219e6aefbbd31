//! Guarded reads of the game's memory.

use vstd::prelude::*;
use crate::outcome;

verus! {

/// The memory of the running game.
///
/// The game changes its memory as it runs and moves its layouts between
/// releases, so nothing is promised of what a read gives back.
pub trait Memory {
    /// Copies up to `length` bytes that start at `address`. Gives `None` where
    /// the system refuses the read, and the bytes that it did copy otherwise.
    fn read_memory(&self, address: u64, length: usize) -> Option<Vec<u8>>;
}

/// The bytes of a reply that holds as many as were asked for.
pub open spec fn complete(reply: Option<Vec<u8>>, length: usize) -> Option<Seq<u8>> {
    match reply {
        Some(bytes) => if bytes@.len() == length {
            Some(bytes@)
        } else {
            None
        },
        None => None,
    }
}

/// The bytes that a read gave back.
pub open spec fn bytes_view(bytes: Option<Vec<u8>>) -> Option<Seq<u8>> {
    match bytes {
        Some(b) => Some(b@),
        None => None,
    }
}

/// The outcomes of reading `length` bytes at `address`.
pub open spec fn bytes_at<M: Memory>(memory: &M, address: u64, length: usize) -> Set<
    Option<Seq<u8>>,
> {
    if length == 0 {
        outcome::exactly(Some(Seq::<u8>::empty()))
    } else if address == 0 {
        outcome::exactly(None)
    } else {
        Set::new(
            |r: Option<Seq<u8>>|
                exists|reply: Option<Vec<u8>>|
                    r == complete(reply, length) && #[trigger] call_ensures(
                        M::read_memory,
                        (memory, address, length),
                        reply,
                    ),
        )
    }
}

/// The number that bytes spell, least significant byte first.
pub open spec fn little_endian(bytes: Seq<u8>) -> nat
    decreases bytes.len(),
{
    if bytes.len() == 0 {
        0
    } else {
        (bytes[0] + 256 * little_endian(bytes.drop_first())) as nat
    }
}

/// The signed number with the same 32 bits.
pub open spec fn as_signed(value: u32) -> i32 {
    if value < 0x8000_0000 {
        value as i32
    } else {
        (value - 0x1_0000_0000) as i32
    }
}

/// The outcomes of reading a 64-bit word.
pub open spec fn word_at<M: Memory>(memory: &M, address: u64) -> Set<Option<u64>> {
    outcome::mapped(
        bytes_at(memory, address, 8),
        |bytes: Option<Seq<u8>>|
            match bytes {
                Some(s) => Some(little_endian(s) as u64),
                None => None,
            },
    )
}

/// The outcomes of reading a 32-bit word.
pub open spec fn half_word_at<M: Memory>(memory: &M, address: u64) -> Set<Option<u32>> {
    outcome::mapped(
        bytes_at(memory, address, 4),
        |bytes: Option<Seq<u8>>|
            match bytes {
                Some(s) => Some(little_endian(s) as u32),
                None => None,
            },
    )
}

/// The outcomes of reading a signed 32-bit word.
pub open spec fn signed_at<M: Memory>(memory: &M, address: u64) -> Set<Option<i32>> {
    outcome::mapped(
        half_word_at(memory, address),
        |value: Option<u32>|
            match value {
                Some(v) => Some(as_signed(v)),
                None => None,
            },
    )
}

/// Bytes spell a number below the power of 256 that their count gives.
pub proof fn lemma_little_endian_4(bytes: Seq<u8>)
    requires
        bytes.len() == 4,
    ensures
        little_endian(bytes) == bytes[0] + 0x100 * bytes[1] + 0x1_0000 * bytes[2] + 0x100_0000
            * bytes[3],
{
    reveal_with_fuel(little_endian, 5);
}

/// Eight bytes spell the number of their lower half and, above it, that of their upper half.
pub proof fn lemma_little_endian_8(bytes: Seq<u8>)
    requires
        bytes.len() == 8,
    ensures
        little_endian(bytes) == little_endian(bytes.subrange(0, 4)) + 0x1_0000_0000
            * little_endian(bytes.subrange(4, 8)),
{
    lemma_little_endian_4(bytes.subrange(0, 4));
    lemma_little_endian_4(bytes.subrange(4, 8));
    reveal_with_fuel(little_endian, 9);
}

/// Decodes the 32-bit word that starts at `offset`.
pub fn decode_u32(bytes: &[u8], offset: usize) -> (value: u32)
    requires
        offset + 4 <= bytes@.len(),
    ensures
        value == little_endian(bytes@.subrange(offset as int, offset + 4)),
{
    proof {
        lemma_little_endian_4(bytes@.subrange(offset as int, offset + 4));
    }
    bytes[offset] as u32 + 0x100 * (bytes[offset + 1] as u32) + 0x1_0000 * (bytes[offset + 2] as u32)
        + 0x100_0000 * (bytes[offset + 3] as u32)
}

/// Decodes the 64-bit word that starts at `offset`.
pub fn decode_u64(bytes: &[u8], offset: usize) -> (value: u64)
    requires
        offset + 8 <= bytes@.len(),
    ensures
        value == little_endian(bytes@.subrange(offset as int, offset + 8)),
{
    assert(bytes@.len() == bytes.len());
    let low = decode_u32(bytes, offset);
    let high = decode_u32(bytes, offset + 4);
    proof {
        let word = bytes@.subrange(offset as int, offset + 8);
        lemma_little_endian_8(word);
        assert(word.subrange(0, 4) =~= bytes@.subrange(offset as int, offset + 4));
        assert(word.subrange(4, 8) =~= bytes@.subrange(offset + 4, offset + 8));
    }
    low as u64 + 0x1_0000_0000 * (high as u64)
}

/// Reads the bits of a word as a signed number.
pub fn to_signed(value: u32) -> (signed: i32)
    ensures
        signed == as_signed(value),
{
    if value < 0x8000_0000 {
        value as i32
    } else {
        (value as i64 - 0x1_0000_0000) as i32
    }
}

/// Reads a byte range without following a pointer that the game may have
/// moved. A refused or partial read gives `None`.
pub fn read_process_bytes<M: Memory>(memory: &M, address: u64, length: usize) -> (bytes: Option<
    Vec<u8>,
>)
    ensures
        bytes_at(memory, address, length).contains(bytes_view(bytes)),
        bytes matches Some(b) ==> b@.len() == length,
{
    if length == 0 {
        let empty: Vec<u8> = Vec::new();
        assert(empty@ =~= Seq::<u8>::empty());
        return Some(empty);
    }
    if address == 0 {
        return None;
    }
    match memory.read_memory(address, length) {
        Some(bytes) => if bytes.len() == length {
            Some(bytes)
        } else {
            None
        },
        None => None,
    }
}

/// Reads a 64-bit word.
pub fn read_process_word<M: Memory>(memory: &M, address: u64) -> (value: Option<u64>)
    ensures
        word_at(memory, address).contains(value),
{
    match read_process_bytes(memory, address, 8) {
        Some(bytes) => {
            let value = decode_u64(bytes.as_slice(), 0);
            assert(bytes@.subrange(0, 8) =~= bytes@);
            assert(bytes_at(memory, address, 8).contains(Some(bytes@)));
            Some(value)
        },
        None => {
            assert(bytes_at(memory, address, 8).contains(None));
            None
        },
    }
}

/// Reads a 32-bit word.
pub fn read_process_half_word<M: Memory>(memory: &M, address: u64) -> (value: Option<u32>)
    ensures
        half_word_at(memory, address).contains(value),
{
    match read_process_bytes(memory, address, 4) {
        Some(bytes) => {
            let value = decode_u32(bytes.as_slice(), 0);
            assert(bytes@.subrange(0, 4) =~= bytes@);
            assert(bytes_at(memory, address, 4).contains(Some(bytes@)));
            Some(value)
        },
        None => {
            assert(bytes_at(memory, address, 4).contains(None));
            None
        },
    }
}

/// Reads a signed 32-bit word.
pub fn read_process_signed<M: Memory>(memory: &M, address: u64) -> (value: Option<i32>)
    ensures
        signed_at(memory, address).contains(value),
{
    let word = read_process_half_word(memory, address);
    assert(half_word_at(memory, address).contains(word));
    match word {
        Some(value) => Some(to_signed(value)),
        None => None,
    }
}

/// A read gives all the bytes that were asked for or none, and nothing is read
/// through a null address.
pub proof fn law_reads_are_complete<M: Memory>(
    memory: &M,
    address: u64,
    length: usize,
    bytes: Option<Seq<u8>>,
)
    requires
        bytes_at(memory, address, length).contains(bytes),
    ensures
        bytes matches Some(b) ==> b.len() == length,
        length > 0 && address == 0 ==> bytes is None,
        length == 0 ==> bytes is Some,
{
}

/// The number that the four bytes at `offset` spell, least significant byte
/// first.
pub open spec fn spelled(bytes: Seq<u8>, offset: int) -> int {
    bytes[offset] + 0x100 * bytes[offset + 1] + 0x1_0000 * bytes[offset + 2] + 0x100_0000
        * bytes[offset + 3]
}

/// The bytes of a word stand with the least significant one first, and a signed
/// word has the bits of the unsigned one.
pub proof fn law_words_are_spelled_from_their_last_byte<M: Memory>(
    memory: &M,
    address: u64,
    bytes: Seq<u8>,
    half: Option<u32>,
    signed: Option<i32>,
)
    requires
        bytes.len() == 4,
        outcome::is_only(bytes_at(memory, address, 4), Some(bytes)),
        half_word_at(memory, address).contains(half),
        signed_at(memory, address).contains(signed),
    ensures
        half matches Some(h) && h == spelled(bytes, 0),
        signed matches Some(s) && (s == half->Some_0 || s == half->Some_0 - 0x1_0000_0000),
{
    lemma_little_endian_4(bytes);
}

/// A long word takes up two words, the less significant one first.
pub proof fn law_a_long_word_takes_up_two<M: Memory>(
    memory: &M,
    address: u64,
    bytes: Seq<u8>,
    word: Option<u64>,
)
    requires
        bytes.len() == 8,
        outcome::is_only(bytes_at(memory, address, 8), Some(bytes)),
        word_at(memory, address).contains(word),
    ensures
        word matches Some(w) && w == spelled(bytes, 0) + 0x1_0000_0000 * spelled(bytes, 4),
{
    lemma_little_endian_8(bytes);
    lemma_little_endian_4(bytes.subrange(0, 4));
    lemma_little_endian_4(bytes.subrange(4, 8));
}

/// A word that cannot be read is none.
pub proof fn law_an_unreadable_word_is_none<M: Memory>(
    memory: &M,
    address: u64,
    word: Option<u64>,
    half: Option<u32>,
    signed: Option<i32>,
)
    requires
        outcome::is_only(bytes_at(memory, address, 8), None),
        outcome::is_only(bytes_at(memory, address, 4), None),
        word_at(memory, address).contains(word),
        half_word_at(memory, address).contains(half),
        signed_at(memory, address).contains(signed),
    ensures
        word is None,
        half is None,
        signed is None,
{
}

/// A read asks for the bytes at its address, as many as it is to give, and gives
/// the reply if it holds them all.
pub proof fn law_bytes_are_read_where_they_are_asked_for<M: Memory>(
    memory: &M,
    address: u64,
    length: usize,
    reply: Option<Vec<u8>>,
    bytes: Option<Seq<u8>>,
)
    requires
        address != 0,
        length > 0,
        forall|r: Option<Vec<u8>>| #[trigger]
            call_ensures(M::read_memory, (memory, address, length), r) ==> r == reply,
        bytes_at(memory, address, length).contains(bytes),
    ensures
        reply matches Some(b) ==> if b@.len() == length {
            bytes == Some(b@)
        } else {
            bytes is None
        },
        reply is None ==> bytes is None,
{
}

} // verus!
