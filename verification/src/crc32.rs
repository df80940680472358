//! The CRC-32 checksum of the gzip container, and its combination: the checksum
//! of a concatenation, computed from the checksums and lengths of the parts.

use vstd::prelude::*;

verus! {

/// The generator polynomial, bit-reversed.
pub const POLYNOMIAL: u32 = 0xEDB8_8320;

/// What the register starts from, and what is xor-ed onto it at the end.
pub const ALL_ONES: u32 = 0xFFFF_FFFF;

/// The register after one more bit of zero input.
pub open spec fn shift_bit(state: u32) -> u32 {
    if state & 1 == 1 {
        (state >> 1) ^ POLYNOMIAL
    } else {
        state >> 1
    }
}

/// The register after `n` more bits of zero input.
pub open spec fn shift_bits(state: u32, n: nat) -> u32
    decreases n,
{
    if n == 0 {
        state
    } else {
        shift_bit(shift_bits(state, (n - 1) as nat))
    }
}

/// The register after one more byte of input.
pub open spec fn feed_byte(state: u32, byte: u8) -> u32 {
    shift_bits(state ^ (byte as u32), 8)
}

/// The register after all of `data`.
pub open spec fn feed(state: u32, data: Seq<u8>) -> u32
    decreases data.len(),
{
    if data.len() == 0 {
        state
    } else {
        feed_byte(feed(state, data.drop_last()), data.last())
    }
}

/// The CRC-32 checksum of `data`.
pub open spec fn crc32(data: Seq<u8>) -> u32 {
    feed(ALL_ONES, data) ^ ALL_ONES
}

/// The checksum of a first part followed by a second part, from the checksum of
/// each and the length of the second.
pub open spec fn combined(crc1: u32, crc2: u32, len2: nat) -> u32 {
    shift_bits(crc1, 8 * len2) ^ crc2
}

/// Shifting is linear over xor.
pub proof fn lemma_shift_linear(a: u32, b: u32, n: nat)
    ensures
        shift_bits(a ^ b, n) == shift_bits(a, n) ^ shift_bits(b, n),
    decreases n,
{
    if n > 0 {
        lemma_shift_linear(a, b, (n - 1) as nat);
        let x = shift_bits(a, (n - 1) as nat);
        let y = shift_bits(b, (n - 1) as nat);
        assert(shift_bit(x ^ y) == shift_bit(x) ^ shift_bit(y)) by (bit_vector);
    }
}

/// Shifting zero gives zero.
pub proof fn lemma_shift_zero(n: nat)
    ensures
        shift_bits(0, n) == 0,
    decreases n,
{
    if n > 0 {
        lemma_shift_zero((n - 1) as nat);
        assert(shift_bit(0u32) == 0u32) by (bit_vector);
    }
}

/// Shifting by `m` bits and then by `n` is shifting by `m + n`.
pub proof fn lemma_shift_add(state: u32, m: nat, n: nat)
    ensures
        shift_bits(shift_bits(state, m), n) == shift_bits(state, m + n),
    decreases n,
{
    if n > 0 {
        lemma_shift_add(state, m, (n - 1) as nat);
    }
}

/// Feeding a concatenation is feeding the first part, then the second.
pub proof fn lemma_feed_concat(state: u32, a: Seq<u8>, b: Seq<u8>)
    ensures
        feed(state, a + b) == feed(feed(state, a), b),
    decreases b.len(),
{
    if b.len() == 0 {
        assert(a + b =~= a);
    } else {
        lemma_feed_concat(state, a, b.drop_last());
        assert((a + b).drop_last() =~= a + b.drop_last());
        assert((a + b).last() == b.last());
    }
}

/// A change of the starting register comes out of the data shifted by the data's
/// length in bits.
pub proof fn lemma_feed_affine(state: u32, change: u32, data: Seq<u8>)
    ensures
        feed(state ^ change, data) == feed(state, data) ^ shift_bits(change, 8 * data.len()),
    decreases data.len(),
{
    if data.len() == 0 {
    } else {
        let rest = data.drop_last();
        let byte = data.last() as u32;
        lemma_feed_affine(state, change, rest);
        let x = feed(state, rest);
        let y = shift_bits(change, 8 * rest.len());
        assert((x ^ y) ^ byte == (x ^ byte) ^ y) by (bit_vector);
        lemma_shift_linear(x ^ byte, y, 8);
        lemma_shift_add(change, 8 * rest.len(), 8);
        assert(8 * rest.len() + 8 == 8 * data.len());
    }
}

/// The checksum of a concatenation is the combination of the parts' checksums.
pub proof fn lemma_combine_concat(a: Seq<u8>, b: Seq<u8>)
    ensures
        crc32(a + b) == combined(crc32(a), crc32(b), b.len()),
{
    let fa = feed(ALL_ONES, a);
    let ca = crc32(a);
    lemma_feed_concat(ALL_ONES, a, b);
    assert(fa == ALL_ONES ^ ca) by (bit_vector)
        requires
            ca == fa ^ ALL_ONES,
    ;
    lemma_feed_affine(ALL_ONES, ca, b);
    let fb = feed(ALL_ONES, b);
    let s = shift_bits(ca, 8 * b.len());
    assert((fb ^ s) ^ ALL_ONES == s ^ (fb ^ ALL_ONES)) by (bit_vector);
}

/// The checksum of no data is zero.
pub proof fn lemma_crc32_empty()
    ensures
        crc32(Seq::<u8>::empty()) == 0,
{
    assert(ALL_ONES ^ ALL_ONES == 0u32) by (bit_vector);
}

fn shift_one(state: u32) -> (next: u32)
    ensures
        next == shift_bit(state),
{
    if state & 1 == 1 {
        (state >> 1) ^ POLYNOMIAL
    } else {
        state >> 1
    }
}

/// Takes one more byte into the register.
pub fn update_byte(state: u32, byte: u8) -> (next: u32)
    ensures
        next == feed_byte(state, byte),
{
    let mut register: u32 = state ^ (byte as u32);
    let mut k: u32 = 0;
    while k < 8
        invariant
            k <= 8,
            register == shift_bits(state ^ (byte as u32), k as nat),
        decreases 8 - k,
    {
        register = shift_one(register);
        k += 1;
    }
    register
}

/// The register after eight more bits of zero input, written out.
pub open spec fn shift_byte(state: u32) -> u32 {
    shift_bit(shift_bit(shift_bit(shift_bit(shift_bit(shift_bit(shift_bit(shift_bit(state))))))))
}

/// Whether `table` holds, for each byte value, the register that the value alone
/// becomes after eight bits of zero input.
pub open spec fn is_byte_table(table: Seq<u32>) -> bool {
    &&& table.len() == 256
    &&& forall|i: int| 0 <= i < 256 ==> #[trigger] table[i] == shift_bits(i as u32, 8)
}

/// Eight single shifts are one shift by eight bits.
pub proof fn lemma_shift_byte(state: u32)
    ensures
        shift_bits(state, 8) == shift_byte(state),
{
    reveal_with_fuel(shift_bits, 9);
}

/// A byte is taken in by looking up the low eight bits of the register xor-ed
/// with the byte, and moving the rest of the register down.
pub proof fn lemma_feed_byte_by_table(table: Seq<u32>, state: u32, byte: u8)
    requires
        is_byte_table(table),
    ensures
        0 <= ((state ^ (byte as u32)) & 0xff) < 256,
        feed_byte(state, byte) == table[((state ^ (byte as u32)) & 0xff) as int] ^ (state >> 8),
{
    let mixed = state ^ (byte as u32);
    let low = mixed & 0xff;
    assert(low < 256) by (bit_vector)
        requires
            low == mixed & 0xff,
    ;
    lemma_shift_byte(mixed);
    lemma_shift_byte(low);
    assert(table[low as int] == shift_bits(low, 8));
    assert(shift_byte(mixed) == shift_byte(low) ^ (state >> 8)) by (bit_vector)
        requires
            low == mixed & 0xff,
            mixed == state ^ (byte as u32),
    ;
}

fn byte_table() -> (table: Vec<u32>)
    ensures
        is_byte_table(table@),
{
    let mut table: Vec<u32> = Vec::new();
    let mut value: u32 = 0;
    while value < 256
        invariant
            value <= 256,
            table.len() == value,
            forall|i: int| 0 <= i < value ==> #[trigger] table[i] == shift_bits(i as u32, 8),
        decreases 256 - value,
    {
        let mut register: u32 = value;
        let mut k: u32 = 0;
        while k < 8
            invariant
                k <= 8,
                register == shift_bits(value, k as nat),
            decreases 8 - k,
        {
            register = shift_one(register);
            k += 1;
        }
        table.push(register);
        value += 1;
    }
    table
}

/// Inputs from this length on are worth the making of a lookup table.
pub const TABLE_WORTH_LEN: usize = 1024;

/// Computes the CRC-32 checksum of `data`.
pub fn checksum(data: &[u8]) -> (crc: u32)
    ensures
        crc == crc32(data@),
{
    let mut register: u32 = ALL_ONES;
    let mut i: usize = 0;
    assert(data@.take(0) =~= Seq::empty());
    if data.len() >= TABLE_WORTH_LEN {
        let table = byte_table();
        while i < data.len()
            invariant
                i <= data.len(),
                is_byte_table(table@),
                register == feed(ALL_ONES, data@.take(i as int)),
            decreases data.len() - i,
        {
            assert(data@.take(i + 1).drop_last() =~= data@.take(i as int));
            proof {
                lemma_feed_byte_by_table(table@, register, data[i as int]);
            }
            let low: u32 = (register ^ (data[i] as u32)) & 0xff;
            register = table[low as usize] ^ (register >> 8);
            i += 1;
        }
    } else {
        while i < data.len()
            invariant
                i <= data.len(),
                register == feed(ALL_ONES, data@.take(i as int)),
            decreases data.len() - i,
        {
            assert(data@.take(i + 1).drop_last() =~= data@.take(i as int));
            register = update_byte(register, data[i]);
            i += 1;
        }
    }
    assert(data@.take(data.len() as int) =~= data@);
    register ^ ALL_ONES
}

/// The part of `value` below bit `k`.
pub open spec fn low_bits(value: u32, k: u32) -> u32 {
    if k >= 32 {
        value
    } else {
        value & !(ALL_ONES << k)
    }
}

/// The xor of the rows of `matrix` at the bits of `value` below bit `k`.
pub open spec fn times_upto(matrix: Seq<u32>, value: u32, k: u32) -> u32
    decreases k,
{
    if k == 0 {
        0
    } else {
        let before = times_upto(matrix, value, (k - 1) as u32);
        if (value >> ((k - 1) as u32)) & 1 == 1 {
            before ^ matrix[k - 1]
        } else {
            before
        }
    }
}

/// Whether `matrix` stands for a shift by `n` bits: its row `i` is what the
/// register with only bit `i` set becomes.
pub open spec fn shifts_by(matrix: Seq<u32>, n: nat) -> bool {
    &&& matrix.len() == 32
    &&& forall|i: int| 0 <= i < 32 ==> #[trigger] matrix[i] == shift_bits(1u32 << (i as u32), n)
}

/// A matrix that stands for a shift, applied to a value, shifts the value.
pub proof fn lemma_times_shifts(matrix: Seq<u32>, n: nat, value: u32, k: u32)
    requires
        shifts_by(matrix, n),
        k <= 32,
    ensures
        times_upto(matrix, value, k) == shift_bits(low_bits(value, k), n),
    decreases k,
{
    if k == 0 {
        assert(value & !(ALL_ONES << 0u32) == 0u32) by (bit_vector);
        lemma_shift_zero(n);
    } else {
        let j: u32 = (k - 1) as u32;
        lemma_times_shifts(matrix, n, value, j);
        let below = low_bits(value, j);
        let upto = low_bits(value, k);
        let bit = 1u32 << j;
        assert(matrix[j as int] == shift_bits(1u32 << ((j as int) as u32), n));
        if (value >> j) & 1 == 1 {
            assert(upto == below ^ bit) by (bit_vector)
                requires
                    j < 32,
                    (value >> j) & 1 == 1,
                    below == value & !(ALL_ONES << j),
                    bit == 1u32 << j,
                    upto == (if j == 31 {
                        value
                    } else {
                        value & !(ALL_ONES << ((j + 1) as u32))
                    }),
            ;
            lemma_shift_linear(below, bit, n);
        } else {
            assert(upto == below) by (bit_vector)
                requires
                    j < 32,
                    (value >> j) & 1 != 1,
                    below == value & !(ALL_ONES << j),
                    upto == (if j == 31 {
                        value
                    } else {
                        value & !(ALL_ONES << ((j + 1) as u32))
                    }),
            ;
        }
    }
}

fn times(matrix: &Vec<u32>, value: u32) -> (product: u32)
    requires
        matrix.len() == 32,
    ensures
        product == times_upto(matrix@, value, 32),
{
    let mut product: u32 = 0;
    let mut k: u32 = 0;
    while k < 32
        invariant
            k <= 32,
            matrix.len() == 32,
            product == times_upto(matrix@, value, k),
        decreases 32 - k,
    {
        if (value >> k) & 1 == 1 {
            product = product ^ matrix[k as usize];
        }
        k += 1;
    }
    product
}

fn one_bit_matrix() -> (matrix: Vec<u32>)
    ensures
        shifts_by(matrix@, 1),
{
    let mut matrix: Vec<u32> = Vec::new();
    let mut i: u32 = 0;
    while i < 32
        invariant
            i <= 32,
            matrix.len() == i,
            forall|j: int| 0 <= j < i ==> #[trigger] matrix[j] == shift_bits(1u32 << (j as u32), 1),
        decreases 32 - i,
    {
        let row = shift_one(1u32 << i);
        assert(shift_bits(1u32 << i, 1) == shift_bit(shift_bits(1u32 << i, 0)));
        matrix.push(row);
        i += 1;
    }
    matrix
}

fn square(matrix: &Vec<u32>, Ghost(n): Ghost<nat>) -> (squared: Vec<u32>)
    requires
        shifts_by(matrix@, n),
    ensures
        shifts_by(squared@, 2 * n),
{
    let mut squared: Vec<u32> = Vec::new();
    let mut i: usize = 0;
    while i < 32
        invariant
            i <= 32,
            squared.len() == i,
            shifts_by(matrix@, n),
            forall|j: int|
                0 <= j < i ==> #[trigger] squared[j] == shift_bits(1u32 << (j as u32), 2 * n),
        decreases 32 - i,
    {
        let row = times(matrix, matrix[i]);
        proof {
            lemma_times_shifts(matrix@, n, matrix[i as int], 32);
            lemma_shift_add(1u32 << (i as u32), n, n);
        }
        squared.push(row);
        i += 1;
    }
    squared
}

/// Combines the checksum `crc1` of a first part and the checksum `crc2` of a
/// second part, `len2` bytes long, into the checksum of the two in a row.
pub fn crc32_combine(crc1: u32, crc2: u32, len2: u64) -> (crc: u32)
    ensures
        crc == combined(crc1, crc2, len2 as nat),
{
    let one = one_bit_matrix();
    let two = square(&one, Ghost(1));
    let four = square(&two, Ghost(2));
    let mut matrix = square(&four, Ghost(4));
    let mut shifted: u32 = crc1;
    let mut rest: u64 = len2;
    let ghost mut unit: nat = 8;
    let ghost mut done: nat = 0;
    while rest > 0
        invariant_except_break
            shifts_by(matrix@, unit),
        invariant
            shifted == shift_bits(crc1, done),
            done + unit * (rest as nat) == 8 * (len2 as nat),
            rest == 0 ==> done == 8 * (len2 as nat),
        ensures
            done == 8 * (len2 as nat),
        decreases rest,
    {
        let ghost half: nat = (rest / 2) as nat;
        if rest % 2 == 1 {
            proof {
                lemma_times_shifts(matrix@, unit, shifted, 32);
                lemma_shift_add(crc1, done, unit);
                assert(unit * (rest as nat) == unit + (2 * unit) * half) by (nonlinear_arith)
                    requires
                        rest as nat == 2 * half + 1,
                ;
                done = done + unit;
            }
            shifted = times(&matrix, shifted);
        } else {
            proof {
                assert(unit * (rest as nat) == (2 * unit) * half) by (nonlinear_arith)
                    requires
                        rest as nat == 2 * half,
                ;
            }
        }
        rest = rest / 2;
        proof {
            unit = 2 * unit;
            if rest == 0 {
                assert(unit * 0 == 0) by (nonlinear_arith);
            }
        }
        if rest == 0 {
            break;
        }
        matrix = square(&matrix, Ghost((unit / 2) as nat));
    }
    shifted ^ crc2
}

} // verus!
