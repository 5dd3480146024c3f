//! CRC-32 with the IEEE polynomial, as ZIP uses it.

use vstd::prelude::*;

verus! {

/// The reflected IEEE polynomial.
pub const CRC_POLYNOMIAL: u32 = 0xEDB88320;

/// One step of the shift register: the lowest bit leaves, and where it was
/// set the polynomial is added.
pub open spec fn crc_round(c: u32) -> u32 {
    if c & 1 != 0 {
        (c >> 1) ^ 0xEDB88320
    } else {
        c >> 1
    }
}

/// Eight steps of the shift register: what one byte of input takes.
pub open spec fn crc_byte_step(c: u32) -> u32 {
    crc_round(crc_round(crc_round(crc_round(crc_round(crc_round(crc_round(crc_round(c))))))))
}

/// The register after `data` was fed to it, byte by byte: each byte is
/// added to the low end, and eight steps follow.
pub open spec fn crc_update(state: u32, data: Seq<u8>) -> u32
    decreases data.len(),
{
    if data.len() == 0 {
        state
    } else {
        crc_byte_step(crc_update(state, data.drop_last()) ^ (data.last() as u32))
    }
}

/// The CRC-32 of `data` that continues the checksum `prev` of what came
/// before it. The register holds the complement of the checksum.
pub open spec fn crc32_chunk_spec(data: Seq<u8>, prev: u32) -> u32 {
    !crc_update(!prev, data)
}

/// The CRC-32 (IEEE) of `data`.
pub open spec fn crc32_spec(data: Seq<u8>) -> u32 {
    crc32_chunk_spec(data, 0)
}

/// The register after `k` bytes of zeros.
pub open spec fn crc_zero_steps(c: u32, k: nat) -> u32
    decreases k,
{
    if k == 0 {
        c
    } else {
        crc_byte_step(crc_zero_steps(c, (k - 1) as nat))
    }
}

/// Feeding two runs of bytes one after the other is feeding them joined.
pub proof fn lemma_crc_update_concat(state: u32, a: Seq<u8>, b: Seq<u8>)
    ensures
        crc_update(crc_update(state, a), b) == crc_update(state, a + b),
    decreases b.len(),
{
    if b.len() == 0 {
        assert(a + b =~= a);
    } else {
        lemma_crc_update_concat(state, a, b.drop_last());
        assert((a + b).drop_last() =~= a + b.drop_last());
        assert((a + b).last() == b.last());
    }
}

/// A checksum computed in chunks is the checksum of the whole: the checksum
/// of `a` and `b` joined is that of `b`, continued from that of `a`.
pub proof fn lemma_crc32_chunked(a: Seq<u8>, b: Seq<u8>, prev: u32)
    ensures
        crc32_chunk_spec(b, crc32_chunk_spec(a, prev)) == crc32_chunk_spec(a + b, prev),
{
    let mid = crc_update(!prev, a);
    assert(!!mid == mid) by (bit_vector);
    lemma_crc_update_concat(!prev, a, b);
}

/// The checksum of no bytes continues the checksum before them unchanged.
pub proof fn lemma_crc32_empty(prev: u32)
    ensures
        crc32_chunk_spec(Seq::<u8>::empty(), prev) == prev,
{
    assert(!!prev == prev) by (bit_vector);
}

/// Whether `table` is the lookup table of the checksum: 16 rows of 256
/// entries, where row `k` holds for each byte the register that this byte
/// alone leaves after `k` further bytes of zeros.
pub open spec fn is_crc_table(table: Seq<Vec<u32>>) -> bool {
    &&& table.len() == 16
    &&& forall|k: int| 0 <= k < 16 ==> (#[trigger] table[k])@.len() == 256
    &&& forall|k: int, i: int|
        0 <= k < 16 && 0 <= i < 256 ==> (#[trigger] table[k]@[i]) == crc_zero_steps(
            i as u32,
            (k + 1) as nat,
        )
}

/// One step of the register.
fn round(c: u32) -> (r: u32)
    ensures
        r == crc_round(c),
{
    if c & 1 != 0 {
        (c >> 1) ^ CRC_POLYNOMIAL
    } else {
        c >> 1
    }
}

/// Eight steps of the register, one by one.
fn byte_step(c: u32) -> (r: u32)
    ensures
        r == crc_byte_step(c),
{
    round(round(round(round(round(round(round(round(c))))))))
}

/// Eight steps can be looked up: the low byte decides what is added to the
/// rest of the register.
pub proof fn lemma_byte_step_by_table(c: u32)
    ensures
        crc_byte_step(c) == (c >> 8) ^ crc_byte_step(c & 0xFF),
        c & 0xFF < 256,
{
    assert(crc_byte_step(c) == (c >> 8) ^ crc_byte_step(c & 0xFF)) by (bit_vector);
    assert(c & 0xFF < 256) by (bit_vector);
}

/// Generates the lookup table of the checksum.
pub fn gen_crc_table() -> (table: Vec<Vec<u32>>)
    ensures
        is_crc_table(table@),
{
    let mut first: Vec<u32> = Vec::new();
    let mut i: u32 = 0;
    while i < 256
        invariant
            i <= 256,
            first@.len() == i,
            forall|x: int| 0 <= x < i ==> #[trigger] first@[x] == crc_byte_step(x as u32),
        decreases 256 - i,
    {
        first.push(byte_step(i));
        i += 1;
    }
    let mut table: Vec<Vec<u32>> = Vec::new();
    table.push(first);
    proof {
        assert forall|x: int| 0 <= x < 256 implies #[trigger] table@[0]@[x] == crc_zero_steps(
            x as u32,
            1,
        ) by {
            reveal_with_fuel(crc_zero_steps, 2);
        }
    }
    let mut k: usize = 1;
    while k < 16
        invariant
            1 <= k <= 16,
            table@.len() == k,
            forall|r: int| 0 <= r < k ==> (#[trigger] table@[r])@.len() == 256,
            forall|r: int, x: int|
                0 <= r < k && 0 <= x < 256 ==> (#[trigger] table@[r]@[x]) == crc_zero_steps(
                    x as u32,
                    (r + 1) as nat,
                ),
        decreases 16 - k,
    {
        let mut row: Vec<u32> = Vec::new();
        let mut j: usize = 0;
        while j < 256
            invariant
                j <= 256,
                1 <= k < 16,
                table@.len() == k,
                row@.len() == j,
                forall|r: int| 0 <= r < k ==> (#[trigger] table@[r])@.len() == 256,
                forall|r: int, x: int|
                    0 <= r < k && 0 <= x < 256 ==> (#[trigger] table@[r]@[x]) == crc_zero_steps(
                        x as u32,
                        (r + 1) as nat,
                    ),
                forall|x: int|
                    0 <= x < j ==> #[trigger] row@[x] == crc_zero_steps(x as u32, (k + 1) as nat),
            decreases 256 - j,
        {
            let before: u32 = table[k - 1][j];
            let low: u32 = before & 0xFF;
            proof {
                lemma_byte_step_by_table(before);
                assert(table@[k - 1]@[j as int] == crc_zero_steps(j as u32, k as nat));
                assert(table@[0]@[low as int] == crc_zero_steps(low, 1));
                reveal_with_fuel(crc_zero_steps, 2);
            }
            let value: u32 = (before >> 8) ^ table[0][low as usize];
            row.push(value);
            j += 1;
        }
        table.push(row);
        k += 1;
    }
    table
}

/// Eight steps of the register add up: the register is linear over the
/// exclusive or.
proof fn lemma_byte_step_linear(a: u32, b: u32)
    ensures
        crc_byte_step(a ^ b) == crc_byte_step(a) ^ crc_byte_step(b),
{
    let a1 = crc_round(a);
    let b1 = crc_round(b);
    let a2 = crc_round(a1);
    let b2 = crc_round(b1);
    let a3 = crc_round(a2);
    let b3 = crc_round(b2);
    let a4 = crc_round(a3);
    let b4 = crc_round(b3);
    let a5 = crc_round(a4);
    let b5 = crc_round(b4);
    let a6 = crc_round(a5);
    let b6 = crc_round(b5);
    let a7 = crc_round(a6);
    let b7 = crc_round(b6);
    lemma_round_linear(a, b);
    lemma_round_linear(a1, b1);
    lemma_round_linear(a2, b2);
    lemma_round_linear(a3, b3);
    lemma_round_linear(a4, b4);
    lemma_round_linear(a5, b5);
    lemma_round_linear(a6, b6);
    lemma_round_linear(a7, b7);
}

/// One step of the register adds up.
proof fn lemma_round_linear(a: u32, b: u32)
    ensures
        crc_round(a ^ b) == crc_round(a) ^ crc_round(b),
{
    assert(crc_round(a ^ b) == crc_round(a) ^ crc_round(b)) by (bit_vector);
}

/// So do the steps of any number of bytes of zeros.
proof fn lemma_zero_steps_linear(a: u32, b: u32, k: nat)
    ensures
        crc_zero_steps(a ^ b, k) == crc_zero_steps(a, k) ^ crc_zero_steps(b, k),
    decreases k,
{
    if k > 0 {
        lemma_zero_steps_linear(a, b, (k - 1) as nat);
        lemma_byte_step_linear(crc_zero_steps(a, (k - 1) as nat), crc_zero_steps(b, (k - 1) as nat));
    }
}

/// One byte of zeros and `k` more are `k` bytes of zeros and one more.
proof fn lemma_zero_steps_shift(c: u32, k: nat)
    ensures
        crc_zero_steps(crc_byte_step(c), k) == crc_zero_steps(c, k + 1),
    decreases k,
{
    reveal_with_fuel(crc_zero_steps, 2);
    if k > 0 {
        lemma_zero_steps_shift(c, (k - 1) as nat);
    }
}

/// The register after `data`, and `k` bytes of zeros behind it, is the sum
/// of what its bytes and the register before leave, each after the bytes
/// that follow it.
pub open spec fn crc_spread(c: u32, data: Seq<u8>, k: nat) -> u32
    decreases data.len(),
{
    if data.len() == 0 {
        crc_zero_steps(c, k)
    } else {
        crc_spread(c, data.drop_last(), k + 1) ^ crc_zero_steps(data.last() as u32, k + 1)
    }
}

/// The register after `data` and `k` bytes of zeros is that sum.
proof fn lemma_update_is_spread(c: u32, data: Seq<u8>, k: nat)
    ensures
        crc_zero_steps(crc_update(c, data), k) == crc_spread(c, data, k),
    decreases data.len(),
{
    if data.len() > 0 {
        let before = crc_update(c, data.drop_last());
        let last = data.last() as u32;
        lemma_zero_steps_shift(before ^ last, k);
        lemma_zero_steps_linear(before, last, k + 1);
        lemma_update_is_spread(c, data.drop_last(), k + 1);
    }
}

/// The byte `t` of the register, from its low end.
pub open spec fn crc_lane_byte(c: u32, t: int) -> u32 {
    if t == 0 {
        c & 0xFF
    } else if t == 1 {
        (c >> 8) & 0xFF
    } else if t == 2 {
        (c >> 16) & 0xFF
    } else if t == 3 {
        (c >> 24) & 0xFF
    } else {
        0
    }
}

/// What is looked up for the byte `t` of a block of 16: the byte, with
/// the byte `t` of the register added to each of the first four.
pub open spec fn crc_lane_input(c: u32, block: Seq<u8>, t: int) -> u32 {
    (block[t] as u32) ^ crc_lane_byte(c, t)
}

/// The sum of what is looked up for the first `j` bytes of a block of 16:
/// for byte `t`, what it leaves after the `15 - t` bytes that follow it.
pub open spec fn crc_lane_sum(c: u32, block: Seq<u8>, j: int) -> u32
    decreases j,
{
    if j <= 0 {
        0
    } else {
        crc_lane_sum(c, block, j - 1) ^ crc_zero_steps(
            crc_lane_input(c, block, j - 1),
            (17 - j) as nat,
        )
    }
}

/// The same sum for the bytes alone.
spec fn plain_sum(block: Seq<u8>, j: int) -> u32
    decreases j,
{
    if j <= 0 {
        0
    } else {
        plain_sum(block, j - 1) ^ crc_zero_steps(block[j - 1] as u32, (17 - j) as nat)
    }
}

/// The same sum for the bytes of the register alone.
spec fn register_sum(c: u32, j: int) -> u32
    decreases j,
{
    if j <= 0 {
        0
    } else {
        register_sum(c, j - 1) ^ crc_zero_steps(crc_lane_byte(c, j - 1), (17 - j) as nat)
    }
}

/// Sums of two can be added pair by pair.
proof fn lemma_xor_pairs(a: u32, b: u32, x: u32, y: u32)
    ensures
        (a ^ b) ^ (x ^ y) == (a ^ x) ^ (b ^ y),
        a ^ 0 == a,
        0 ^ a == a,
        (a ^ b) ^ x == a ^ (b ^ x),
        a ^ b == b ^ a,
{
    assert((a ^ b) ^ (x ^ y) == (a ^ x) ^ (b ^ y)) by (bit_vector);
    assert(a ^ 0 == a) by (bit_vector);
    assert(0 ^ a == a) by (bit_vector);
    assert((a ^ b) ^ x == a ^ (b ^ x)) by (bit_vector);
    assert(a ^ b == b ^ a) by (bit_vector);
}

/// The sum over a block is the sum over its bytes and the sum over the
/// bytes of the register.
proof fn lemma_lane_sum_splits(c: u32, block: Seq<u8>, j: int)
    requires
        0 <= j <= 16,
    ensures
        crc_lane_sum(c, block, j) == plain_sum(block, j) ^ register_sum(c, j),
    decreases j,
{
    if j > 0 {
        lemma_lane_sum_splits(c, block, j - 1);
        let k = (17 - j) as nat;
        let d = block[j - 1] as u32;
        let r = crc_lane_byte(c, j - 1);
        lemma_zero_steps_linear(d, r, k);
        lemma_xor_pairs(
            plain_sum(block, j - 1),
            register_sum(c, j - 1),
            crc_zero_steps(d, k),
            crc_zero_steps(r, k),
        );
    } else {
        lemma_xor_pairs(0, 0, 0, 0);
    }
}

/// A register that holds a byte above its low byte holds it in the low
/// byte one step later.
proof fn lemma_step_moves_byte(x: u32)
    requires
        x < 0x100,
    ensures
        crc_byte_step(x << 8) == x,
        crc_byte_step(x << 16) == x << 8,
        crc_byte_step(x << 24) == x << 16,
{
    assert(x < 0x100 ==> crc_byte_step(x << 8) == x) by (bit_vector);
    assert(x < 0x100 ==> crc_byte_step(x << 16) == x << 8) by (bit_vector);
    assert(x < 0x100 ==> crc_byte_step(x << 24) == x << 16) by (bit_vector);
}

/// The register after 16 bytes of zeros is the sum over its bytes: each
/// byte is in the low byte after as many steps as it stands above it.
proof fn lemma_register_sum(c: u32)
    ensures
        crc_zero_steps(c, 16) == register_sum(c, 16),
{
    let c0 = c & 0xFF;
    let c1 = (c >> 8) & 0xFF;
    let c2 = (c >> 16) & 0xFF;
    let c3 = (c >> 24) & 0xFF;
    assert(c == ((c0 ^ (c1 << 8)) ^ (c2 << 16)) ^ (c3 << 24) && c0 < 0x100 && c1 < 0x100 && c2
        < 0x100 && c3 < 0x100) by (bit_vector)
        requires
            c0 == c & 0xFF,
            c1 == (c >> 8) & 0xFF,
            c2 == (c >> 16) & 0xFF,
            c3 == (c >> 24) & 0xFF,
    ;
    lemma_zero_steps_linear((c0 ^ (c1 << 8)) ^ (c2 << 16), c3 << 24, 16);
    lemma_zero_steps_linear(c0 ^ (c1 << 8), c2 << 16, 16);
    lemma_zero_steps_linear(c0, c1 << 8, 16);
    lemma_step_moves_byte(c1);
    lemma_step_moves_byte(c2);
    lemma_step_moves_byte(c3);
    lemma_zero_steps_shift(c1 << 8, 15);
    lemma_zero_steps_shift(c2 << 16, 15);
    lemma_zero_steps_shift(c2 << 8, 14);
    lemma_zero_steps_shift(c3 << 24, 15);
    lemma_zero_steps_shift(c3 << 16, 14);
    lemma_zero_steps_shift(c3 << 8, 13);
    // Past the fourth byte nothing is added: a byte of zero leaves zero.
    assert(register_sum(c, 4) == ((crc_zero_steps(c0, 16) ^ crc_zero_steps(c1, 15))
        ^ crc_zero_steps(c2, 14)) ^ crc_zero_steps(c3, 13)) by {
        reveal_with_fuel(register_sum, 5);
        lemma_xor_pairs(crc_zero_steps(c0, 16), 0, 0, 0);
    }
    lemma_register_sum_tail(c, 16);
}

/// A byte of zero leaves the register at zero, however many bytes follow.
proof fn lemma_zero_stays(k: nat)
    ensures
        crc_zero_steps(0, k) == 0,
    decreases k,
{
    if k > 0 {
        lemma_zero_stays((k - 1) as nat);
        assert(crc_byte_step(0) == 0) by (bit_vector);
    }
}

/// The sum over the bytes of the register is that over its four bytes.
proof fn lemma_register_sum_tail(c: u32, j: int)
    requires
        4 <= j <= 16,
    ensures
        register_sum(c, j) == register_sum(c, 4),
    decreases j,
{
    if j > 4 {
        lemma_register_sum_tail(c, j - 1);
        lemma_zero_stays((17 - j) as nat);
        lemma_xor_pairs(register_sum(c, 4), 0, 0, 0);
    }
}

/// The register after the first `n` bytes of a block of 16 and the bytes
/// of zeros that make 16 of them is the register after 16 bytes of zeros
/// and the sum over those bytes.
proof fn lemma_spread_is_plain_sum(c: u32, block: Seq<u8>, n: int)
    requires
        block.len() == 16,
        0 <= n <= 16,
    ensures
        crc_spread(c, block.subrange(0, n), (16 - n) as nat) == crc_zero_steps(c, 16) ^ plain_sum(
            block,
            n,
        ),
    decreases n,
{
    if n > 0 {
        let upto = block.subrange(0, n);
        assert(upto.drop_last() =~= block.subrange(0, n - 1));
        assert(upto.last() == block[n - 1]);
        lemma_spread_is_plain_sum(c, block, n - 1);
        lemma_xor_pairs(
            crc_zero_steps(c, 16),
            plain_sum(block, n - 1),
            crc_zero_steps(block[n - 1] as u32, (17 - n) as nat),
            0,
        );
    } else {
        lemma_xor_pairs(crc_zero_steps(c, 16), 0, 0, 0);
    }
}

/// Sixteen bytes at once: the register after a block of 16 bytes is the
/// sum of what is looked up for each of them.
pub proof fn lemma_block_of_sixteen(c: u32, block: Seq<u8>)
    requires
        block.len() == 16,
    ensures
        crc_update(c, block) == crc_lane_sum(c, block, 16),
{
    lemma_update_is_spread(c, block, 0);
    assert(block.subrange(0, 16) =~= block);
    lemma_spread_is_plain_sum(c, block, 16);
    lemma_lane_sum_splits(c, block, 16);
    lemma_register_sum(c);
    lemma_xor_pairs(crc_zero_steps(c, 16), plain_sum(block, 16), 0, 0);
}

/// The register after the 16 bytes of `data` that start at `at`.
fn block_step(table: &Vec<Vec<u32>>, data: &[u8], at: usize, crc: u32) -> (r: u32)
    requires
        is_crc_table(table@),
        at + 16 <= data@.len(),
    ensures
        r == crc_update(crc, data@.subrange(at as int, at + 16)),
{
    let ghost block = data@.subrange(at as int, at + 16);
    let _len: usize = data.len();
    let mut sum: u32 = 0;
    let mut t: usize = 0;
    while t < 16
        invariant
            t <= 16,
            is_crc_table(table@),
            at + 16 <= data@.len(),
            data@.len() <= usize::MAX,
            block == data@.subrange(at as int, at + 16),
            sum == crc_lane_sum(crc, block, t as int),
        decreases 16 - t,
    {
        let byte: u32 = data[at + t] as u32;
        let lane: u32 = if t == 0 {
            crc & 0xFF
        } else if t == 1 {
            (crc >> 8) & 0xFF
        } else if t == 2 {
            (crc >> 16) & 0xFF
        } else if t == 3 {
            (crc >> 24) & 0xFF
        } else {
            0
        };
        let index: u32 = byte ^ lane;
        proof {
            assert(byte < 0x100 && (lane == 0 || lane == crc & 0xFF || lane == (crc >> 8) & 0xFF
                || lane == (crc >> 16) & 0xFF || lane == (crc >> 24) & 0xFF) ==> (byte ^ lane)
                < 0x100) by (bit_vector);
            assert(block[t as int] == data@[at + t]);
            assert(index == crc_lane_input(crc, block, t as int));
            assert(table@[15 - t]@[index as int] == crc_zero_steps(index, (16 - t) as nat));
        }
        sum = sum ^ table[15 - t][index as usize];
        t += 1;
    }
    proof {
        lemma_block_of_sixteen(crc, block);
    }
    sum
}

/// Continues the checksum `prev` over `data`, with a table at hand: 16
/// bytes at a time as long as there are so many, then byte by byte.
pub fn crc32_chunk_with(table: &Vec<Vec<u32>>, data: &[u8], prev: u32) -> (r: u32)
    requires
        is_crc_table(table@),
    ensures
        r == crc32_chunk_spec(data@, prev),
{
    let mut crc: u32 = !prev;
    let mut i: usize = 0;
    let n = data.len();
    assert(data@.subrange(0, 0) =~= Seq::<u8>::empty());
    while n - i >= 16
        invariant
            i <= n,
            n == data@.len(),
            is_crc_table(table@),
            crc == crc_update(!prev, data@.subrange(0, i as int)),
        decreases n - i,
    {
        proof {
            lemma_crc_update_concat(
                !prev,
                data@.subrange(0, i as int),
                data@.subrange(i as int, i + 16),
            );
            assert(data@.subrange(0, i as int) + data@.subrange(i as int, i + 16)
                =~= data@.subrange(0, i + 16));
        }
        crc = block_step(table, data, i, crc);
        i += 16;
    }
    while i < n
        invariant
            i <= n,
            n == data@.len(),
            is_crc_table(table@),
            crc == crc_update(!prev, data@.subrange(0, i as int)),
        decreases n - i,
    {
        let x: u32 = data[i] as u32;
        let index: u32 = (x ^ crc) & 0xFF;
        proof {
            lemma_byte_step_by_table(crc ^ x);
            assert((crc ^ x) & 0xFF == (x ^ crc) & 0xFF) by (bit_vector);
            assert(x < 256 ==> (crc ^ x) >> 8 == crc >> 8) by (bit_vector);
            assert(table@[0]@[index as int] == crc_zero_steps(index, 1));
            reveal_with_fuel(crc_zero_steps, 2);
            let upto = data@.subrange(0, i + 1);
            assert(upto.drop_last() =~= data@.subrange(0, i as int));
            assert(upto.last() == data@[i as int]);
        }
        crc = (crc >> 8) ^ table[0][index as usize];
        i += 1;
    }
    assert(data@.subrange(0, n as int) =~= data@);
    !crc
}

/// Continues the checksum `prev` over `data`.
///
/// The checksum of data that comes in chunks is had by handing each chunk's
/// result on to the next, starting from 0.
pub fn crc32_chunk(data: &[u8], prev: u32) -> (r: u32)
    ensures
        r == crc32_chunk_spec(data@, prev),
{
    if data.len() == 0 {
        proof {
            lemma_crc32_empty(prev);
            assert(data@ =~= Seq::<u8>::empty());
        }
        return prev;
    }
    let table = gen_crc_table();
    crc32_chunk_with(&table, data, prev)
}

/// Compute the CRC32 (IEEE) of a byte slice.
///
/// This serves data that is held in memory as a whole. For data that is
/// inflated piece by piece, a verifier of the archive keeps the checksum.
pub fn crc32(data: &[u8]) -> (r: u32)
    ensures
        r == crc32_spec(data@),
{
    crc32_chunk(data, 0)
}

} // verus!
