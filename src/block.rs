//! An 8x8 tile of cells packed into one 64-bit word.
use vstd::prelude::*;

verus! {

/// An 8x8 block of cells, row-major, the north-western cell in the most
/// significant bit and the south-eastern cell in the least significant bit.
#[derive(Clone, Copy, Debug, PartialEq, Eq, Structural, Hash)]
pub struct Block {
    pub bits: u64,
}

/// The index of the bit that holds cell (row `r`, column `c`).
pub open spec fn bit_index(r: int, c: int) -> int {
    63 - (r * 8 + c)
}

/// Whether bit `i` of `bits` is set.
pub open spec fn bit_set(bits: u64, i: int) -> bool {
    0 <= i < 64 && (bits >> (i as u64)) & 1 == 1
}

/// Number of set bits among the lowest `n` bits of `bits`.
pub open spec fn bits_count(bits: u64, n: nat) -> nat
    decreases n,
{
    if n == 0 {
        0
    } else {
        bits_count(bits, (n - 1) as nat) + if bit_set(bits, n - 1) { 1nat } else { 0nat }
    }
}

pub const BLOCK_WIDTH_LOG2: u8 = 3;
pub const BLOCK_WIDTH: u64 = 8;
pub const BLOCK_HALF_WIDTH: i64 = 4;

impl Block {
    /// Whether the cell at row `r` (from the north) and column `c` (from the
    /// west) is alive; both in `0..8`.
    pub open spec fn cell(self, r: int, c: int) -> bool {
        0 <= r < 8 && 0 <= c < 8 && bit_set(self.bits, bit_index(r, c))
    }

    /// The exact number of live cells.
    pub open spec fn pop(self) -> nat {
        bits_count(self.bits, 64)
    }

    pub fn empty() -> (r: Block)
        ensures
            r.bits == 0,
    {
        Block { bits: 0 }
    }

    /// Builds a block from its row-major bits.
    pub fn from_rows(bits: u64) -> (r: Block)
        ensures
            r.bits == bits,
    {
        Block { bits }
    }

    pub fn to_rows(self) -> (r: u64)
        ensures
            r == self.bits,
    {
        self.bits
    }

    /// Builds a block from eight rows, north to south; in each byte the
    /// western cell is the most significant bit.
    pub fn from_rows_array(rows: [u8; 8]) -> (r: Block)
        ensures
            r.bits == rows_to_bits(rows@),
    {
        let bits: u64 = (rows[0] as u64) << 56u64 | (rows[1] as u64) << 48u64 | (rows[2] as u64)
            << 40u64 | (rows[3] as u64) << 32u64 | (rows[4] as u64) << 24u64 | (rows[5] as u64)
            << 16u64 | (rows[6] as u64) << 8u64 | (rows[7] as u64);
        Block { bits }
    }

    /// The eight rows, north to south.
    pub fn to_rows_array(self) -> (r: [u8; 8])
        ensures
            rows_to_bits(r@) == self.bits,
    {
        let b = self.bits;
        let r: [u8; 8] = [
            (b >> 56u64) as u8,
            (b >> 48u64) as u8,
            (b >> 40u64) as u8,
            (b >> 32u64) as u8,
            (b >> 24u64) as u8,
            (b >> 16u64) as u8,
            (b >> 8u64) as u8,
            b as u8,
        ];
        assert(b == ((b >> 56u64) as u8 as u64) << 56u64 | ((b >> 48u64) as u8 as u64) << 48u64
            | ((b >> 40u64) as u8 as u64) << 40u64 | ((b >> 32u64) as u8 as u64) << 32u64 | ((b
            >> 24u64) as u8 as u64) << 24u64 | ((b >> 16u64) as u8 as u64) << 16u64 | ((b
            >> 8u64) as u8 as u64) << 8u64 | (b as u8 as u64)) by (bit_vector);
        r
    }
}

/// Eight rows, north to south, packed big-endian into one word.
pub open spec fn rows_to_bits(rows: Seq<u8>) -> u64 {
    (rows[0] as u64) << 56u64 | (rows[1] as u64) << 48u64 | (rows[2] as u64) << 40u64 | (
    rows[3] as u64) << 32u64 | (rows[4] as u64) << 24u64 | (rows[5] as u64) << 16u64 | (
    rows[6] as u64) << 8u64 | (rows[7] as u64)
}

} // verus!
