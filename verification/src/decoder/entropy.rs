//! Boolean arithmetic decoder and CDF symbol reading.
use vstd::prelude::*;
use super::partition::{BlockSize, PartitionType, partition_variants, spec_partition_variants, spec_partition_is_legal, spec_candidates};
use super::symbols::{
    PARTITION_BINARY_CDF, PARTITION_CDF_CTX0, PARTITION_CDF_CTX1, PARTITION_CDF_CTX2, SKIP_CDF, Y_MODE_SET_CDF,
    ALL_ZERO_CDF, spec_cdf_wf, spec_runtime_variants, spec_runtime_defined, runtime_partition_variants,
    partition_cdf_for_variants,
};

verus! {

/// Error of a symbol reader that meets syntax the walking skeleton does not implement.
#[derive(Debug, Clone, Copy, PartialEq, Eq, Structural)]
pub enum EntropyError {
    UnimplementedInM0,
}

/// Reader state after pulling whole bytes into the window while fewer than zero bits are
/// buffered: position, window value, buffered bits and the error flag (set when the buffer ran out).
pub open spec fn spec_refill(buf: Seq<u8>, pos: int, value: u32, bits_left: int, error: bool) -> (int, u32, int, bool)
    decreases (if bits_left < 0 { -bits_left } else { 0 }),
{
    if bits_left >= 0 || bits_left < -24 {
        (pos, value, bits_left, error)
    } else {
        let (byte, next, err) = if 0 <= pos < buf.len() { (buf[pos] as u32, pos + 1, error) } else { (0u32, pos, true) };
        spec_refill(buf, next, value | (byte << ((-bits_left + 8) as u32)), bits_left + 8, err)
    }
}

/// Range, value and buffered-bit count after doubling the range until it reaches `0x8000`.
pub open spec fn spec_renorm(range: u32, value: u32, bits_left: int) -> (u32, u32, int)
    decreases (if range >= 0x8000 { 0 } else { 0x8000 - range }),
{
    if range >= 0x8000 || range == 0 {
        (range, value, bits_left)
    } else {
        proof {
            assert(((2 * range) as u32) == 2 * range);
        }
        spec_renorm((2 * range) as u32, value << 1u32, bits_left - 1)
    }
}

/// The binary decision boundary for probability `p` (in 1/32768 units) and the current range.
pub open spec fn spec_split(range: u32, p: u32) -> u32 {
    (1 + (((range - 1) * p) as u32 >> 15u32)) as u32
}

/// The state of a boolean decoder: buffer position, window value, range, buffered bits, error flag.
pub struct BacModel {
    pub pos: int,
    pub value: u32,
    pub range: u32,
    pub bits_left: int,
    pub error: bool,
}

/// The state of a reader freshly set on `buf`: the first bytes loaded, the full range.
pub open spec fn spec_initial_reader(buf: Seq<u8>) -> BacModel {
    let (pos, value, bits_left, error) = spec_refill(buf, 0, 0, -15, false);
    BacModel { pos, value, range: 0x8000, bits_left, error }
}

/// One binary decision with probability `p` of a zero: the decoded bit and the next state.
pub open spec fn spec_decode_bit(buf: Seq<u8>, m: BacModel, p: u32) -> (bool, BacModel) {
    let split = spec_split(m.range, p);
    let bit = m.value >= split << 15u32;
    let (r1, v1) = if bit {
        ((m.range - split) as u32, (m.value - (split << 15u32)) as u32)
    } else {
        (split, m.value)
    };
    let (r2, v2, b2) = spec_renorm(r1, v1, m.bits_left);
    let (pos, v3, b3, error) = spec_refill(buf, m.pos, v2, b2, m.error);
    (bit, BacModel { pos, value: v3, range: r2, bits_left: b3, error })
}

/// Decoding against the cumulative distribution `cdf` from entry `i` on, where `low` is the
/// previous entry: the index of the first entry whose decision is zero (the last index if none is)
/// and the state after it.
pub open spec fn spec_symbol_from(buf: Seq<u8>, m: BacModel, cdf: Seq<u16>, i: int, low: int) -> (int, BacModel)
    decreases cdf.len() - i,
{
    if i >= cdf.len() || i < 0 {
        (cdf.len() - 1, m)
    } else {
        let high = cdf[i] as int;
        let p = (if high >= low { (high - low) / 2 } else { 0 }) as u32;
        let (bit, m2) = spec_decode_bit(buf, m, p);
        if !bit {
            (i, m2)
        } else {
            spec_symbol_from(buf, m2, cdf, i + 1, high)
        }
    }
}

/// The symbol decoded against `cdf` and the state after it.
pub open spec fn spec_read_symbol(buf: Seq<u8>, m: BacModel, cdf: Seq<u16>) -> (int, BacModel) {
    spec_symbol_from(buf, m, cdf, 0, 0)
}

/// Boolean arithmetic decoder reading bits from a byte buffer.
pub struct BacReader<'a> {
    pub buf: &'a [u8],
    pub pos: usize,
    pub value: u32,
    pub range: u32,
    pub bits_left: i32,
    pub error: bool,
}

impl<'a> BacReader<'a> {
    pub open spec fn model(&self) -> BacModel {
        BacModel {
            pos: self.pos as int,
            value: self.value,
            range: self.range,
            bits_left: self.bits_left as int,
            error: self.error,
        }
    }

    /// The reader's range is normalized and its window holds between zero and seven spare bits.
    pub open spec fn wf(&self) -> bool {
        &&& 0x8000 <= self.range <= 0xffff
        &&& 0 <= self.bits_left <= 7
        &&& self.pos <= self.buf@.len()
    }

    fn refill(&mut self)
        requires
            old(self).pos <= old(self).buf@.len(),
            -16 <= old(self).bits_left <= 7,
        ensures
            final(self).buf@ == old(self).buf@,
            final(self).range == old(self).range,
            (final(self).pos as int, final(self).value, final(self).bits_left as int, final(self).error)
                == spec_refill(old(self).buf@, old(self).pos as int, old(self).value, old(self).bits_left as int, old(self).error),
            0 <= final(self).bits_left <= 7,
            final(self).pos <= final(self).buf@.len(),
    {
        while self.bits_left < 0
            invariant
                self.buf@ == old(self).buf@,
                self.range == old(self).range,
                self.pos <= self.buf@.len(),
                -16 <= self.bits_left <= 7,
                spec_refill(old(self).buf@, old(self).pos as int, old(self).value, old(self).bits_left as int, old(self).error)
                    == spec_refill(self.buf@, self.pos as int, self.value, self.bits_left as int, self.error),
            decreases 8 - self.bits_left,
        {
            let byte: u32 = if self.pos < self.buf.len() {
                let b = self.buf[self.pos];
                self.pos = self.pos + 1;
                b as u32
            } else {
                self.error = true;
                0
            };
            let shift = ((-self.bits_left) as u32) + 8;
            self.value = self.value | (byte << shift);
            self.bits_left = self.bits_left + 8;
        }
    }

    pub fn new(buf: &'a [u8]) -> (r: Self)
        ensures
            r.wf(),
            r.model() == spec_initial_reader(buf@),
            r.buf@ == buf@,
            (r.pos as int, r.value, r.bits_left as int, r.error) == spec_refill(buf@, 0, 0, -15, false),
            r.range == 0x8000,
    {
        let mut reader = BacReader { buf, pos: 0, value: 0, range: 0x8000, bits_left: -15, error: false };
        reader.refill();
        reader
    }

    /// Whether the reader has needed bytes past the end of its buffer.
    pub fn had_error(&self) -> (b: bool)
        ensures
            b == self.error,
    {
        self.error
    }

    fn read_symbol_binary(&mut self, p: u32) -> (bit: bool)
        requires
            old(self).wf(),
            p <= 16384,
        ensures
            final(self).wf(),
            final(self).buf@ == old(self).buf@,
            (bit, final(self).model()) == spec_decode_bit(old(self).buf@, old(self).model(), p),
    {
        let range = self.range;
        assert((range - 1) * p <= (range - 1) * 16384) by (nonlinear_arith)
            requires 1 <= range <= 0xffff, p <= 16384;
        let prod = (range - 1) * p;
        let q = prod >> 15;
        assert(q == prod / 32768) by (bit_vector)
            requires q == prod >> 15u32;
        assert(q <= (range - 1) / 2);
        let split = 1 + q;
        let bigsplit = split << 15;
        assert(bigsplit == split * 32768) by (bit_vector)
            requires bigsplit == split << 15u32, split < 0x10000u32;
        let bit = if self.value < bigsplit {
            self.range = split;
            false
        } else {
            self.range = self.range - split;
            self.value = self.value - bigsplit;
            true
        };
        let ghost r1 = self.range;
        let ghost v1 = self.value;
        let ghost b1 = self.bits_left as int;
        proof {
            vstd::arithmetic::power2::lemma2_to64();
            assert(vstd::arithmetic::power2::pow2(0) == 1);
            assert((b1 - self.bits_left) as nat == 0);
            assert(r1 as int * 1 == r1 as int);
        }
        while self.range < 0x8000
            invariant
                1 <= self.range <= 0xffff,
                -16 <= self.bits_left <= 7,
                self.bits_left <= b1,
                self.bits_left >= b1 - 15,
                self.range as int == r1 as int * vstd::arithmetic::power2::pow2((b1 - self.bits_left) as nat),
                1 <= r1,
                spec_renorm(r1, v1, b1) == spec_renorm(self.range, self.value, self.bits_left as int),
                self.buf@ == old(self).buf@,
                self.pos <= self.buf@.len(),
                self.pos == old(self).pos,
                self.error == old(self).error,
                0 <= b1 <= 7,
            decreases 0x10000 - self.range,
        {
            let ghost k = (b1 - self.bits_left) as nat;
            proof {
                vstd::arithmetic::power2::lemma_pow2_unfold(k + 1);
                vstd::arithmetic::power2::lemma2_to64();
                if k >= 15 {
                    if k > 15 {
                        vstd::arithmetic::power2::lemma_pow2_strictly_increases(15, k);
                    }
                    assert(r1 as int * vstd::arithmetic::power2::pow2(k) >= vstd::arithmetic::power2::pow2(k)) by (nonlinear_arith)
                        requires r1 >= 1, vstd::arithmetic::power2::pow2(k) >= 0;
                }
            }
            let old_range = self.range;
            let new_range = old_range << 1;
            assert(new_range == 2 * old_range) by (bit_vector)
                requires new_range == old_range << 1u32, old_range < 0x8000u32;
            self.range = new_range;
            self.value = self.value << 1;
            self.bits_left = self.bits_left - 1;
            assert(self.range as int == r1 as int * vstd::arithmetic::power2::pow2((b1 - self.bits_left) as nat)) by (nonlinear_arith)
                requires self.range as int == 2 * old_range, old_range as int == r1 as int * vstd::arithmetic::power2::pow2(k),
                    vstd::arithmetic::power2::pow2(k + 1) == 2 * vstd::arithmetic::power2::pow2(k), (b1 - self.bits_left) == k + 1;
        }
        self.refill();
        bit
    }

    /// Read a single equally-likely bit.
    pub fn read_bool_unbiased(&mut self) -> (bit: bool)
        requires
            old(self).wf(),
        ensures
            final(self).wf(),
            final(self).buf@ == old(self).buf@,
            (bit, final(self).model()) == spec_decode_bit(old(self).buf@, old(self).model(), 16384),
    {
        self.read_symbol_binary(16384)
    }

    /// Read a symbol against an N-entry cumulative distribution.
    pub fn read_symbol(&mut self, cdf: &[u16]) -> (symbol: usize)
        requires
            old(self).wf(),
            crate::decoder::symbols::spec_cdf_wf(cdf@),
        ensures
            final(self).wf(),
            final(self).buf@ == old(self).buf@,
            symbol < cdf@.len(),
            (symbol as int, final(self).model()) == spec_read_symbol(old(self).buf@, old(self).model(), cdf@),
    {
        let mut low: u32 = 0;
        let mut i: usize = 0;
        while i < cdf.len()
            invariant
                self.wf(),
                self.buf@ == old(self).buf@,
                i <= cdf@.len(),
                crate::decoder::symbols::spec_cdf_wf(cdf@),
                low <= 32767,
                i > 0 ==> low == cdf@[i - 1],
                i == 0 ==> low == 0,
                spec_read_symbol(old(self).buf@, old(self).model(), cdf@)
                    == spec_symbol_from(self.buf@, self.model(), cdf@, i as int, low as int),
            decreases cdf@.len() - i,
        {
            let high = cdf[i] as u32;
            assert(high <= 32767) by {
                assert(cdf@[i as int] <= cdf@[cdf@.len() - 1]);
            };
            assert(high >= low) by {
                if i > 0 {
                    assert(cdf@[i - 1] <= cdf@[i as int]);
                }
            };
            let mid = low + (high - low) / 2;
            let p = mid - low;
            let bit = self.read_symbol_binary(p);
            if !bit {
                return i;
            }
            low = high;
            i = i + 1;
        }
        cdf.len() - 1
    }

    /// Read a partition type for a block of size `bsize` whose neighbours give context `ctx`.
    pub fn read_partition(&mut self, bsize: BlockSize, ctx: usize) -> (t: PartitionType)
        requires
            old(self).wf(),
        ensures
            final(self).wf(),
            final(self).buf@ == old(self).buf@,
            ({
                let variants = spec_partition_variants(bsize);
                if variants.len() == 1 {
                    t == variants[0] && final(self).model() == old(self).model()
                } else {
                    let (sym, m) = spec_read_symbol(old(self).buf@, old(self).model(), PARTITION_BINARY_CDF@);
                    t == spec_runtime_variants(variants)[sym] && final(self).model() == m
                }
            }),
            spec_partition_variants(bsize).contains(t),
    {
        let variants = partition_variants(bsize);
        proof {
            lemma_variants_start_whole(bsize);
        }
        if variants.len() == 1 {
            return variants[0];
        }
        let runtime = runtime_partition_variants(variants.as_slice());
        if runtime.len() == 2 {
            proof {
                lemma_constant_cdfs_wf();
            }
            let symbol = self.read_symbol(PARTITION_BINARY_CDF.as_slice());
            return runtime[symbol];
        }
        let c = if ctx < 2 { ctx } else { 2 };
        let base_cdf: [u16; 10] = if c == 0 { PARTITION_CDF_CTX0 } else if c == 1 { PARTITION_CDF_CTX1 } else { PARTITION_CDF_CTX2 };
        let cdf = partition_cdf_for_variants(base_cdf.as_slice(), runtime.len());
        let symbol = self.read_symbol(cdf.as_slice());
        runtime[symbol]
    }

    /// Read the skip flag.
    pub fn read_skip(&mut self) -> (skip: bool)
        requires
            old(self).wf(),
        ensures
            final(self).wf(),
            final(self).buf@ == old(self).buf@,
            ({
                let (sym, m) = spec_read_symbol(old(self).buf@, old(self).model(), SKIP_CDF@);
                skip == (sym == 1) && final(self).model() == m
            }),
    {
        proof {
            lemma_constant_cdfs_wf();
        }
        self.read_symbol(SKIP_CDF.as_slice()) == 1
    }

    /// Read the luma intra-mode selector.
    pub fn read_intra_mode(&mut self) -> (mode: u8)
        requires
            old(self).wf(),
        ensures
            final(self).wf(),
            final(self).buf@ == old(self).buf@,
            mode < 4,
            ({
                let (sym, m) = spec_read_symbol(old(self).buf@, old(self).model(), Y_MODE_SET_CDF@);
                mode as int == sym && final(self).model() == m
            }),
    {
        proof {
            lemma_constant_cdfs_wf();
        }
        self.read_symbol(Y_MODE_SET_CDF.as_slice()) as u8
    }

    /// Read a 4x4 coefficient block: only the all-zero block is supported.
    pub fn read_coeffs_4x4(&mut self, out: &mut [i16; 16]) -> (res: Result<(), EntropyError>)
        requires
            old(self).wf(),
        ensures
            final(self).wf(),
            final(self).buf@ == old(self).buf@,
            ({
                let (sym, m) = spec_read_symbol(old(self).buf@, old(self).model(), ALL_ZERO_CDF@);
                &&& final(self).model() == m
                &&& sym == 0 ==> res is Ok && forall|i: int| 0 <= i < 16 ==> final(out)@[i] == 0
                &&& sym != 0 ==> res == Err::<(), EntropyError>(EntropyError::UnimplementedInM0) && *final(out) == *old(out)
            }),
    {
        proof {
            lemma_constant_cdfs_wf();
        }
        let all_zero = self.read_symbol(ALL_ZERO_CDF.as_slice()) == 0;
        if all_zero {
            *out = [0i16; 16];
            return Ok(());
        }
        Err(EntropyError::UnimplementedInM0)
    }
}

proof fn lemma_variants_start_whole(b: BlockSize)
    ensures
        spec_partition_variants(b).len() >= 1,
        spec_partition_variants(b).contains(PartitionType::NoSplit),
        spec_partition_variants(b).len() >= 2 ==> spec_runtime_defined(spec_partition_variants(b)),
        spec_partition_variants(b).len() >= 2 ==> forall|i: int| 0 <= i < 2 ==>
            spec_partition_variants(b).contains(#[trigger] spec_runtime_variants(spec_partition_variants(b))[i]),
{
    let v = spec_partition_variants(b);
    if b.spec_is_min() {
        assert(v[0] == PartitionType::NoSplit);
    }
    if !b.spec_is_min() {
        let pred = |p: PartitionType| spec_partition_is_legal(b, p);
        let c = spec_candidates(b);
        assert(pred(c[0]));
        broadcast use vstd::seq_lib::group_filter_ensures;
        assert(c.filter(pred).contains(PartitionType::NoSplit)) by {
            assert(c.contains(PartitionType::NoSplit)) by { assert(c[0] == PartitionType::NoSplit); };
        };
    }
    if v.len() >= 2 {
        assert(v.contains(v[1]));
    }
}

/// Every listed partition of a block is legal for it, and the smallest block is never split.
pub proof fn lemma_variant_is_legal(b: BlockSize, p: PartitionType)
    requires
        spec_partition_variants(b).contains(p),
    ensures
        spec_partition_is_legal(b, p),
        b.spec_is_min() ==> p == PartitionType::NoSplit,
{
    broadcast use vstd::seq_lib::group_filter_ensures;
    if b.spec_is_min() {
        assert(seq![PartitionType::NoSplit].contains(p));
        let i = choose|i: int| 0 <= i < 1 && seq![PartitionType::NoSplit][i] == p;
    }
}

proof fn lemma_constant_cdfs_wf()
    ensures
        spec_cdf_wf(PARTITION_BINARY_CDF@),
        spec_cdf_wf(SKIP_CDF@),
        spec_cdf_wf(Y_MODE_SET_CDF@),
        spec_cdf_wf(ALL_ZERO_CDF@),
{
}

} // verus!
