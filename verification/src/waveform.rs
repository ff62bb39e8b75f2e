//! The integer side of the waveform: where in a file the energy samples are
//! read, the energy of 16-bit little-endian PCM data, and the pseudo-random
//! sequence behind the stand-in waveform of unreadable files.

use vstd::prelude::*;

verus! {

/// Number of bars of the waveform.
pub const NUM_BARS: usize = 80;

/// Where to read: `chunk` bytes at each of the `offsets`, one per bar.
#[derive(Debug, Clone)]
pub struct ReadPlan {
    pub chunk: usize,
    pub offsets: Vec<u64>,
}

/// The start of the file that is skipped (headers): a fourteenth of it, at
/// most 16 KiB.
pub open spec fn plan_skip(file_size: nat) -> nat {
    if file_size / 14 < 16384 {
        file_size / 14
    } else {
        16384
    }
}

/// The bytes after the skipped start.
pub open spec fn plan_data_len(file_size: nat) -> nat {
    (file_size - plan_skip(file_size)) as nat
}

/// Bytes read per bar: a bar's share of the data, between 64 and 2048.
pub open spec fn plan_chunk(file_size: nat) -> nat {
    let share = plan_data_len(file_size) / NUM_BARS as nat;
    let capped: nat = if share < 2048 {
        share
    } else {
        2048
    };
    if capped > 64 {
        capped
    } else {
        64
    }
}

/// Where bar `i` is read: evenly spread over the data, but never so late
/// that a whole chunk would not fit.
pub open spec fn plan_offset(file_size: nat, i: nat) -> nat {
    let at = plan_skip(file_size) + plan_data_len(file_size) * i / NUM_BARS as nat;
    let last: nat = if file_size > plan_chunk(file_size) {
        (file_size - plan_chunk(file_size)) as nat
    } else {
        0
    };
    if at < last {
        at
    } else {
        last
    }
}

/// Files below 32 bytes per bar are too small to read a waveform from.
pub open spec fn too_small(file_size: nat) -> bool {
    file_size < NUM_BARS * 32
}

/// The reading plan for a file of `file_size` bytes; `None` for a file too
/// small to read a waveform from.
pub fn read_plan(file_size: u64) -> (r: Option<ReadPlan>)
    ensures
        r is None <==> too_small(file_size as nat),
        r matches Some(p) ==> {
            &&& p.chunk == plan_chunk(file_size as nat)
            &&& p.offsets.len() == NUM_BARS
            &&& forall|i: int|
                0 <= i < NUM_BARS ==> #[trigger] p.offsets@[i] == plan_offset(
                    file_size as nat,
                    i as nat,
                )
        },
{
    if file_size < (NUM_BARS as u64) * 32 {
        return None;
    }
    let skip: u64 = if file_size / 14 < 16384 {
        file_size / 14
    } else {
        16384
    };
    let data_len: u64 = file_size - skip;
    let share: u64 = data_len / (NUM_BARS as u64);
    let capped: u64 = if share < 2048 {
        share
    } else {
        2048
    };
    let chunk: u64 = if capped > 64 {
        capped
    } else {
        64
    };
    let last: u64 = if file_size > chunk {
        file_size - chunk
    } else {
        0
    };
    let mut offsets: Vec<u64> = Vec::new();
    let mut i: usize = 0;
    while i < NUM_BARS
        invariant
            i <= NUM_BARS,
            offsets.len() == i,
            skip == plan_skip(file_size as nat),
            data_len == plan_data_len(file_size as nat),
            chunk == plan_chunk(file_size as nat),
            last == (if file_size > chunk {
                (file_size - chunk) as nat
            } else {
                0
            }),
            forall|j: int|
                0 <= j < i ==> #[trigger] offsets@[j] == plan_offset(file_size as nat, j as nat),
        decreases NUM_BARS - i,
    {
        assert((data_len as nat) * (i as nat) <= 0x1_0000_0000_0000_0000 * 80) by (nonlinear_arith)
            requires
                data_len < 0x1_0000_0000_0000_0000,
                i < 80,
        ;
        let spread: u128 = (data_len as u128) * (i as u128) / (NUM_BARS as u128);
        assert(spread <= data_len) by (nonlinear_arith)
            requires
                spread == (data_len as nat) * (i as nat) / 80,
                i < 80,
        ;
        let at: u128 = skip as u128 + spread;
        let off: u64 = if at < last as u128 {
            at as u64
        } else {
            last
        };
        offsets.push(off);
        i = i + 1;
    }
    Some(ReadPlan { chunk: chunk as usize, offsets })
}

/// The sample that two bytes encode as a 16-bit little-endian signed integer.
pub open spec fn le_sample(lo: u8, hi: u8) -> int {
    if hi < 128 {
        hi * 256 + lo
    } else {
        hi * 256 + lo - 65536
    }
}

/// The sum of the squares of the first `pairs` samples of `b`.
pub open spec fn energy(b: Seq<u8>, pairs: nat) -> nat
    decreases pairs,
{
    if pairs == 0 {
        0
    } else {
        let j = (pairs - 1) as nat;
        let s = le_sample(b[2 * j as int], b[2 * j as int + 1]);
        energy(b, j) + (s * s) as nat
    }
}

/// The energy of the first `read` bytes of `buf` taken as 16-bit
/// little-endian samples (a trailing odd byte is ignored): the sum of the
/// squares of the samples.
pub fn pcm_energy(buf: &[u8], read: usize) -> (r: u128)
    requires
        read <= buf@.len(),
    ensures
        r == energy(buf@, (read / 2) as nat),
{
    let pairs = read / 2;
    let mut acc: u128 = 0;
    let mut j: usize = 0;
    while j < pairs
        invariant
            j <= pairs,
            pairs == read / 2,
            read <= buf@.len(),
            acc == energy(buf@, j as nat),
            acc <= j * 0x4000_0000,
        decreases pairs - j,
    {
        let lo = buf[2 * j];
        let hi = buf[2 * j + 1];
        let s: i64 = if hi < 128 {
            (hi as i64) * 256 + lo as i64
        } else {
            (hi as i64) * 256 + lo as i64 - 65536
        };
        assert(-32768 <= s < 32768);
        assert(0 <= s * s <= 0x4000_0000) by (nonlinear_arith)
            requires
                -32768 <= s < 32768,
        ;
        let sq: i64 = s * s;
        assert(acc + sq <= (j + 1) * 0x4000_0000) by (nonlinear_arith)
            requires
                acc <= j * 0x4000_0000,
                sq <= 0x4000_0000,
        ;
        assert(j + 1 <= 0x1_0000_0000_0000_0000);
        assert((j + 1) * 0x4000_0000 <= 0x1_0000_0000_0000_0000 * 0x4000_0000) by (nonlinear_arith)
            requires
                j + 1 <= 0x1_0000_0000_0000_0000,
        ;
        acc = acc + sq as u128;
        j = j + 1;
    }
    acc
}

/// One step of the linear congruential generator behind the stand-in
/// waveform: `x * 6364136223846793005 + 1442695040888963407`, wrapping.
pub open spec fn lcg_next(x: u64) -> u64 {
    (((x as nat * 6364136223846793005) % 0x1_0000_0000_0000_0000 + 1442695040888963407)
        % 0x1_0000_0000_0000_0000) as u64
}

/// The generator's state after `k` steps from `seed`.
pub open spec fn lcg_state(seed: u64, k: nat) -> u64
    decreases k,
{
    if k == 0 {
        seed
    } else {
        lcg_next(lcg_state(seed, (k - 1) as nat))
    }
}

/// The first `n` noise values drawn from `seed`: the top 31 bits of each
/// successive state.
pub fn noise_values(seed: u64, n: usize) -> (r: Vec<u32>)
    ensures
        r.len() == n,
        forall|k: int| 0 <= k < n ==> #[trigger] r@[k] == lcg_state(seed, (k + 1) as nat) >> 33,
{
    let mut r: Vec<u32> = Vec::new();
    let mut x = seed;
    let mut k: usize = 0;
    while k < n
        invariant
            k <= n,
            r.len() == k,
            x == lcg_state(seed, k as nat),
            forall|j: int| 0 <= j < k ==> #[trigger] r@[j] == lcg_state(seed, (j + 1) as nat) >> 33,
        decreases n - k,
    {
        x = x.wrapping_mul(6364136223846793005).wrapping_add(1442695040888963407);
        assert(x == lcg_next(lcg_state(seed, k as nat)));
        let top: u64 = x >> 33;
        assert(top < 0x8000_0000) by (bit_vector)
            requires
                top == x >> 33,
        ;
        r.push(top as u32);
        k = k + 1;
    }
    r
}

/// Two bytes read as a 16-bit little-endian signed sample: a value from
/// -32768 to 32767 whose two's-complement bits are `hi` then `lo`.
pub proof fn lemma_le_sample(lo: u8, hi: u8)
    ensures
        -32768 <= le_sample(lo, hi) < 32768,
        (le_sample(lo, hi) + 65536) % 65536 == hi * 256 + lo,
        hi < 128 ==> le_sample(lo, hi) >= 0,
        hi >= 128 ==> le_sample(lo, hi) < 0,
{
}

} // verus!
