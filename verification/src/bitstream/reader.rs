//! MSB-first bit reading over a byte buffer, and LEB128 integers.
use vstd::prelude::*;

verus! {

/// Bitstream packet parse error.
#[derive(Debug, Clone, Copy, PartialEq, Eq, Structural)]
pub enum ParseError {
    TruncatedHeader,
    InvalidHeader,
    TruncatedExtension,
    InvalidExtension,
    TruncatedSize,
    SizeOverflow,
    TruncatedPayload,
    TruncatedSequenceHeader,
    UnsupportedSequenceHeader,
    TruncatedFrameHeader,
    UnsupportedFrameHeader,
    TruncatedTileGroup,
}

/// Bit `pos` of `data`, counting from the most significant bit of byte 0.
pub open spec fn bit_at(data: Seq<u8>, pos: int) -> bool {
    ((data[pos / 8] >> ((7 - pos % 8) as u8)) & 1u8) == 1u8
}

/// The unsigned integer formed by the `n` bits of `data` starting at `pos`, most significant first.
pub open spec fn bits_value(data: Seq<u8>, pos: int, n: nat) -> nat
    decreases n,
{
    if n == 0 {
        0
    } else {
        2 * bits_value(data, pos, (n - 1) as nat) + (if bit_at(data, pos + n - 1) { 1nat } else { 0nat })
    }
}

/// Reading `n` bits at `pos` succeeds exactly when they lie within `data`.
pub open spec fn spec_read_bits(data: Seq<u8>, pos: int, n: nat) -> Option<(nat, int)> {
    if 0 <= pos && pos + n <= 8 * data.len() {
        Some((bits_value(data, pos, n), pos + n))
    } else {
        None
    }
}

pub proof fn lemma_bits_value_bound(data: Seq<u8>, pos: int, n: nat)
    ensures
        bits_value(data, pos, n) < vstd::arithmetic::power2::pow2(n),
    decreases n,
{
    if n > 0 {
        lemma_bits_value_bound(data, pos, (n - 1) as nat);
        vstd::arithmetic::power2::lemma_pow2_unfold(n);
    } else {
        vstd::arithmetic::power2::lemma2_to64();
    }
}

/// The `n` bits of `v`, most significant first: what a writer puts in an `n`-bit field.
pub open spec fn spec_uint_bits(v: nat, n: nat) -> Seq<bool> {
    Seq::new(n, |i: int| (v / vstd::arithmetic::power2::pow2((n - 1 - i) as nat)) % 2 == 1)
}

/// `data` holds the bits `b` from bit position `pos` on.
pub open spec fn spec_holds_bits(data: Seq<u8>, pos: int, b: Seq<bool>) -> bool {
    &&& 0 <= pos
    &&& pos + b.len() <= 8 * data.len()
    &&& forall|i: int| 0 <= i < b.len() ==> bit_at(data, pos + i) == #[trigger] b[i]
}

/// Bits written as the `n`-bit field of a value below `2^n` read back as that value.
pub proof fn lemma_uint_bits_read_back(data: Seq<u8>, pos: int, v: nat, n: nat)
    requires
        v < vstd::arithmetic::power2::pow2(n),
        spec_holds_bits(data, pos, spec_uint_bits(v, n)),
    ensures
        bits_value(data, pos, n) == v,
    decreases n,
{
    if n == 0 {
        vstd::arithmetic::power2::lemma2_to64();
    } else {
        let m = (n - 1) as nat;
        let h = v / 2;
        vstd::arithmetic::power2::lemma_pow2_unfold(n);
        assert(h < vstd::arithmetic::power2::pow2(m));
        assert forall|i: int| 0 <= i < m implies bit_at(data, pos + i) == #[trigger] spec_uint_bits(h, m)[i] by {
            let k = (m - 1 - i) as nat;
            assert(spec_uint_bits(v, n)[i] == ((v / vstd::arithmetic::power2::pow2((k + 1) as nat)) % 2 == 1));
            vstd::arithmetic::power2::lemma_pow2_unfold((k + 1) as nat);
            vstd::arithmetic::power2::lemma_pow2_pos(k);
            vstd::arithmetic::div_mod::lemma_div_denominator(v as int, 2, vstd::arithmetic::power2::pow2(k) as int);
            assert(v / vstd::arithmetic::power2::pow2((k + 1) as nat) == h / vstd::arithmetic::power2::pow2(k));
        }
        lemma_uint_bits_read_back(data, pos, h, m);
        assert(spec_uint_bits(v, n)[m as int] == ((v / vstd::arithmetic::power2::pow2(0)) % 2 == 1));
        vstd::arithmetic::power2::lemma2_to64();
        assert(bit_at(data, pos + m) == (v % 2 == 1));
    }
}

/// Number of leading zero bits starting at `pos` before the first one bit, if the
/// one bit occurs within `data` and after at most `limit` zeros.
pub open spec fn spec_leading_zeros(data: Seq<u8>, pos: int, limit: nat) -> Option<nat>
    decreases limit,
{
    if !(0 <= pos && pos < 8 * data.len()) {
        None
    } else if bit_at(data, pos) {
        Some(0)
    } else if limit == 0 {
        None
    } else {
        match spec_leading_zeros(data, pos + 1, (limit - 1) as nat) {
            Some(z) => Some(z + 1),
            None => None,
        }
    }
}

/// Exp-Golomb (`uvlc`) code at `pos`: the value and the position after it.
pub open spec fn spec_read_uvlc(data: Seq<u8>, pos: int) -> Option<(nat, int)> {
    match spec_leading_zeros(data, pos, 31) {
        None => None,
        Some(z) => match spec_read_bits(data, pos + z + 1, z) {
            None => None,
            Some((suffix, end)) => Some(
                ((vstd::arithmetic::power2::pow2(z) - 1 + suffix) as nat, end),
            ),
        },
    }
}

/// The exp-Golomb code of `v` with `z` leading zeros, where `2^z <= v + 1 < 2^(z + 1)`: `z`
/// zeros, a one, then `v + 1 - 2^z` in `z` bits.
pub open spec fn spec_uvlc_bits(v: nat, z: nat) -> Seq<bool> {
    Seq::new(z, |i: int| false) + seq![true] + spec_uint_bits((v + 1 - vstd::arithmetic::power2::pow2(z)) as nat, z)
}

/// `z` zero bits then a one bit count as `z` leading zeros.
proof fn lemma_leading_zeros_of(data: Seq<u8>, pos: int, z: nat, limit: nat)
    requires
        z <= limit,
        spec_holds_bits(data, pos, Seq::new(z, |i: int| false).push(true)),
    ensures
        spec_leading_zeros(data, pos, limit) == Some(z),
    decreases z,
{
    let b = Seq::new(z, |i: int| false).push(true);
    if z > 0 {
        assert(b[0] == false);
        assert(bit_at(data, pos + 0) == b[0]);
        let c = Seq::new((z - 1) as nat, |i: int| false).push(true);
        assert forall|i: int| 0 <= i < c.len() implies bit_at(data, (pos + 1) + i) == #[trigger] c[i] by {
            assert(b[i + 1] == c[i]);
            assert(bit_at(data, pos + (i + 1)) == b[i + 1]);
        }
        lemma_leading_zeros_of(data, pos + 1, (z - 1) as nat, (limit - 1) as nat);
    } else {
        assert(b[0] == true);
        assert(bit_at(data, pos + 0) == b[0]);
    }
}

/// An exp-Golomb code written for `v` (with at most 31 leading zeros) reads back as `v`.
pub proof fn lemma_uvlc_read_back(data: Seq<u8>, pos: int, v: nat, z: nat)
    requires
        z <= 31,
        vstd::arithmetic::power2::pow2(z) <= v + 1 < vstd::arithmetic::power2::pow2(z + 1),
        spec_holds_bits(data, pos, spec_uvlc_bits(v, z)),
    ensures
        spec_read_uvlc(data, pos) == Some((v, pos + 2 * z + 1)),
{
    let b = spec_uvlc_bits(v, z);
    let s = (v + 1 - vstd::arithmetic::power2::pow2(z)) as nat;
    let zs = Seq::new(z, |i: int| false).push(true);
    assert forall|i: int| 0 <= i < zs.len() implies bit_at(data, pos + i) == #[trigger] zs[i] by {
        assert(b[i] == zs[i]);
    }
    lemma_leading_zeros_of(data, pos, z, 31);
    vstd::arithmetic::power2::lemma_pow2_unfold(z + 1);
    assert(s < vstd::arithmetic::power2::pow2(z));
    let u = spec_uint_bits(s, z);
    assert(spec_holds_bits(data, pos + z + 1, u)) by {
        assert forall|i: int| 0 <= i < u.len() implies bit_at(data, (pos + z + 1) + i) == #[trigger] u[i] by {
            assert(b[z + 1 + i] == u[i]);
            assert(bit_at(data, pos + (z + 1 + i)) == b[z + 1 + i]);
        }
    }
    lemma_uint_bits_read_back(data, pos + z + 1, s, z);
}

/// A cursor over the bits of a byte slice.
pub struct BitReader<'a> {
    pub data: &'a [u8],
    pub bit_offset: usize,
}

impl<'a> BitReader<'a> {
    /// The cursor lies within the data, whose bit count fits a `usize`.
    pub open spec fn wf(&self) -> bool {
        &&& self.bit_offset <= 8 * self.data@.len()
        &&& 8 * self.data@.len() <= usize::MAX
    }

    pub fn new(data: &'a [u8]) -> (r: Self)
        requires
            8 * data@.len() <= usize::MAX,
        ensures
            r.wf(),
            r.data@ == data@,
            r.bit_offset == 0,
    {
        BitReader { data, bit_offset: 0 }
    }

    pub fn read_bit_with(&mut self, err: ParseError) -> (res: Result<bool, ParseError>)
        requires
            old(self).wf(),
        ensures
            final(self).data@ == old(self).data@,
            final(self).wf(),
            old(self).bit_offset < 8 * old(self).data@.len() ==> {
                &&& res == Ok::<bool, ParseError>(bit_at(old(self).data@, old(self).bit_offset as int))
                &&& final(self).bit_offset == old(self).bit_offset + 1
            },
            old(self).bit_offset >= 8 * old(self).data@.len() ==> res == Err::<bool, ParseError>(err),
    {
        let byte_index = self.bit_offset / 8;
        let bit_index = 7 - (self.bit_offset % 8);
        if byte_index >= self.data.len() {
            return Err(err);
        }
        let byte = self.data[byte_index];
        let ghost pos = self.bit_offset as int;
        assert(byte_index as int == pos / 8);
        assert(bit_index as u8 == (7 - pos % 8) as u8);
        self.bit_offset = self.bit_offset + 1;
        let bit = (byte >> (bit_index as u8)) & 1;
        assert(bit == 0 || bit == 1) by (bit_vector)
            requires bit == (byte >> (bit_index as u8)) & 1;
        Ok(bit != 0)
    }

    pub fn read_bits_with(&mut self, count: u8, err: ParseError) -> (res: Result<u32, ParseError>)
        requires
            old(self).wf(),
            count <= 32,
        ensures
            final(self).data@ == old(self).data@,
            final(self).wf(),
            match spec_read_bits(old(self).data@, old(self).bit_offset as int, count as nat) {
                Some((v, end)) => res == Ok::<u32, ParseError>(v as u32) && final(self).bit_offset == end
                    && v < vstd::arithmetic::power2::pow2(count as nat),
                None => res == Err::<u32, ParseError>(err),
            },
    {
        let ghost data = self.data@;
        let ghost pos = self.bit_offset as int;
        let mut value: u32 = 0;
        let mut i: u8 = 0;
        proof {
            vstd::arithmetic::power2::lemma2_to64();
        }
        while i < count
            invariant
                self.data@ == data,
                data == old(self).data@,
                pos == old(self).bit_offset,
                self.wf(),
                i <= count,
                count <= 32,
                self.bit_offset == pos + i,
                value as nat == bits_value(data, pos, i as nat),
                value < vstd::arithmetic::power2::pow2(i as nat),
            decreases count - i,
        {
            let bit = self.read_bit_with(err)?;
            proof {
                vstd::arithmetic::power2::lemma_pow2_unfold((i + 1) as nat);
                vstd::arithmetic::power2::lemma_pow2_strictly_increases(i as nat, 32);
                vstd::arithmetic::power2::lemma2_to64();
            }
            let b: u32 = if bit { 1 } else { 0 };
            assert(value < 0x8000_0000);
            assert((value << 1) | b == 2 * value + b) by (bit_vector)
                requires value < 0x8000_0000u32, b <= 1u32;
            value = (value << 1) | b;
            i = i + 1;
        }
        proof {
            lemma_bits_value_bound(data, pos, count as nat);
            vstd::arithmetic::power2::lemma_pow2_strictly_increases(count as nat, 33);
            vstd::arithmetic::power2::lemma2_to64();
        }
        Ok(value)
    }

    pub fn read_uvlc(&mut self, err: ParseError) -> (res: Result<u32, ParseError>)
        requires
            old(self).wf(),
        ensures
            final(self).data@ == old(self).data@,
            final(self).wf(),
            match spec_read_uvlc(old(self).data@, old(self).bit_offset as int) {
                Some((v, end)) => res == Ok::<u32, ParseError>(v as u32) && final(self).bit_offset == end
                    && v <= u32::MAX,
                None => res is Err,
            },
            res is Err ==> res == Err::<u32, ParseError>(err),
    {
        let ghost data = self.data@;
        let ghost pos = self.bit_offset as int;
        let mut leading_zeros: u32 = 0;
        loop
            invariant_except_break
                self.bit_offset == pos + leading_zeros,
                spec_leading_zeros(data, pos, 31) == match spec_leading_zeros(data, self.bit_offset as int, (31 - leading_zeros) as nat) {
                    Some(z) => Some((z + leading_zeros) as nat),
                    None => None::<nat>,
                },
            invariant
                self.data@ == data,
                data == old(self).data@,
                pos == old(self).bit_offset,
                self.wf(),
                leading_zeros <= 31,
            ensures
                spec_leading_zeros(data, pos, 31) == Some(leading_zeros as nat),
                self.bit_offset == pos + leading_zeros + 1,
            decreases 32 - leading_zeros,
        {
            let bit = self.read_bit_with(err)?;
            if bit {
                break;
            }
            if leading_zeros == 31 {
                return Err(err);
            }
            leading_zeros = leading_zeros + 1;
        }
        if leading_zeros == 0 {
            assert(spec_read_bits(data, pos + 1, 0) == Some((0nat, pos + 1)));
            proof {
                vstd::arithmetic::power2::lemma2_to64();
            }
            return Ok(0);
        }
        let suffix = self.read_bits_with(leading_zeros as u8, err)?;
        proof {
            vstd::arithmetic::power2::lemma2_to64();
            vstd::arithmetic::power2::lemma_pow2_strictly_increases(leading_zeros as nat, 32);
        }
        assert((1u32 << leading_zeros) == vstd::arithmetic::power2::pow2(leading_zeros as nat)) by {
            vstd::bits::lemma_u32_shl_is_mul(1, leading_zeros);
            vstd::arithmetic::power2::lemma_pow2(leading_zeros as nat);
        };
        Ok(((1u32 << leading_zeros) - 1) + suffix)
    }
}


/// LEB128 size field at byte `off`, continuing an accumulation `acc` of 7-bit
/// groups already placed below `shift`: the value and the offset after it.
pub open spec fn spec_leb128_from(data: Seq<u8>, off: int, shift: nat, acc: usize) -> Result<(usize, int), ParseError>
    decreases usize::BITS - shift,
{
    if !(0 <= off < data.len()) {
        Err(ParseError::TruncatedSize)
    } else if shift >= usize::BITS {
        Err(ParseError::SizeOverflow)
    } else {
        let byte = data[off];
        let low = (byte & 0x7fu8) as usize;
        let value = acc | (low << (shift as usize));
        if byte & 0x80u8 == 0 {
            Ok((value, off + 1))
        } else if shift + 7 > usize::BITS - 1 {
            Err(ParseError::SizeOverflow)
        } else {
            spec_leb128_from(data, off + 1, shift + 7, value)
        }
    }
}

/// LEB128 size field starting at byte `off`.
pub open spec fn spec_leb128(data: Seq<u8>, off: int) -> Result<(usize, int), ParseError> {
    spec_leb128_from(data, off, 0, 0)
}

pub proof fn lemma_leb128_from_advances(data: Seq<u8>, off: int, shift: nat, acc: usize)
    ensures
        spec_leb128_from(data, off, shift, acc) matches Ok((_, end)) ==> off < end <= data.len(),
    decreases usize::BITS - shift,
{
    if 0 <= off < data.len() && shift < usize::BITS {
        let byte = data[off];
        let low = (byte & 0x7fu8) as usize;
        let value = acc | (low << (shift as usize));
        if byte & 0x80u8 != 0 && shift + 7 <= usize::BITS - 1 {
            lemma_leb128_from_advances(data, off + 1, shift + 7, value);
        }
    }
}

/// Read a LEB128 size field at `*offset`, advancing the offset past it.
pub fn parse_leb128(data: &[u8], offset: &mut usize) -> (res: Result<usize, ParseError>)
    ensures
        match spec_leb128(data@, *old(offset) as int) {
            Ok((v, end)) => res == Ok::<usize, ParseError>(v) && *final(offset) == end,
            Err(e) => res == Err::<usize, ParseError>(e),
        },
{
    let ghost start = *offset as int;
    let mut value: usize = 0;
    let mut shift: u32 = 0;
    loop
        invariant
            start == *old(offset) as int,
            shift < usize::BITS,
            shift % 7 == 0,
            spec_leb128(data@, start) == spec_leb128_from(data@, *offset as int, shift as nat, value),
        decreases usize::BITS - shift,
    {
        if *offset >= data.len() {
            return Err(ParseError::TruncatedSize);
        }
        let byte = data[*offset];
        *offset = *offset + 1;
        let low = (byte & 0x7f) as usize;
        value = value | (low << shift);
        if byte & 0x80 == 0 {
            return Ok(value);
        }
        if shift + 7 > usize::BITS - 1 {
            return Err(ParseError::SizeOverflow);
        }
        shift = shift + 7;
    }
}

} // verus!
