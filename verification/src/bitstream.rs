//! Big-endian, MSB-first bit-level cursor over a byte buffer.
//!
//! Supplies the fixed-width reads, the byte-aligned bulk read, and the
//! variable-length unsigned-integer decode that the decompressor consumes.
use vstd::prelude::*;

verus! {

use crate::DecodeError;
use vstd::arithmetic::power2::pow2;
use vstd::arithmetic::power2::lemma2_to64;
use vstd::arithmetic::power2::lemma_pow2_unfold;
use vstd::arithmetic::power2::lemma_pow2_strictly_increases;

/// Bit `i` of `data` (0 or 1), counting bits MSB-first within each byte.
pub open spec fn bit_at(data: Seq<u8>, i: int) -> u32
    recommends
        0 <= i < 8 * data.len(),
{
    ((data[i / 8] >> ((7 - (i % 8)) as u8)) & 1) as u32
}

/// The value of the `n` bits of `data` starting at bit `pos`, MSB first.
pub open spec fn bits_val(data: Seq<u8>, pos: int, n: nat) -> nat
    decreases n,
{
    if n == 0 {
        0
    } else {
        bits_val(data, pos, (n - 1) as nat) * 2 + bit_at(data, pos + n - 1) as nat
    }
}

/// Value and end position of the variable-length integer decode run from
/// bit `pos` with accumulator `acc`: a control bit 0 shifts in one data
/// bit, a control bit 1 (or the end of the stream) stops the number.
pub open spec fn uie_rec(data: Seq<u8>, pos: int, acc: nat) -> (nat, int)
    decreases 8 * data.len() - pos,
{
    if pos < 0 || pos >= 8 * data.len() {
        (acc, pos)
    } else if bit_at(data, pos) == 1 {
        (acc, pos + 1)
    } else if pos + 1 >= 8 * data.len() {
        (acc, pos + 1)
    } else {
        uie_rec(data, pos + 2, acc * 2 + bit_at(data, pos + 1) as nat)
    }
}

/// The value of the variable-length integer starting at bit `pos`.
pub open spec fn uie_val(data: Seq<u8>, pos: int) -> nat {
    uie_rec(data, pos, 1).0
}

/// The bit position just after the variable-length integer at `pos`.
pub open spec fn uie_end(data: Seq<u8>, pos: int) -> int {
    uie_rec(data, pos, 1).1
}

proof fn lemma_bit_at_le_one(data: Seq<u8>, i: int)
    ensures
        bit_at(data, i) <= 1,
{
    let b = data[i / 8];
    let s = (7 - (i % 8)) as u8;
    assert((b >> s) & 1 <= 1) by (bit_vector);
}

/// An `n`-bit field is always smaller than `2^n`.
pub proof fn lemma_bits_val_bound(data: Seq<u8>, pos: int, n: nat)
    ensures
        bits_val(data, pos, n) < pow2(n),
    decreases n,
{
    if n == 0 {
        lemma2_to64();
    } else {
        lemma_bits_val_bound(data, pos, (n - 1) as nat);
        lemma_pow2_unfold(n);
        lemma_bit_at_le_one(data, pos + n - 1);
    }
}

proof fn lemma_bits_val_single(data: Seq<u8>, pos: int)
    ensures
        bits_val(data, pos, 1) == bit_at(data, pos),
{
    assert(bits_val(data, pos, 0) == 0);
}

/// Big-endian, MSB-first bit cursor over an owned byte buffer.
pub struct BitReader {
    data: Vec<u8>,
    pos: usize,
}

impl BitReader {
    /// The underlying bytes.
    pub closed spec fn spec_data(&self) -> Seq<u8> {
        self.data@
    }

    /// The cursor, in bits from the start of the buffer.
    pub closed spec fn spec_pos(&self) -> int {
        self.pos as int
    }

    /// The cursor never passes the end of the buffer, and every bit
    /// position of the buffer fits comfortably in a `usize`.
    pub open spec fn wf(&self) -> bool {
        &&& self.spec_pos() <= 8 * self.spec_data().len()
        &&& 8 * self.spec_data().len() + 64 <= usize::MAX
    }

    pub fn new(data: Vec<u8>) -> (r: BitReader)
        requires
            8 * data@.len() + 64 <= usize::MAX,
        ensures
            r.wf(),
            r.spec_data() == data@,
            r.spec_pos() == 0,
    {
        BitReader { data, pos: 0 }
    }

    /// Reads the next `n` bits as an unsigned integer, MSB first, or
    /// `StreamUnderrun` (leaving the cursor in place) if fewer than `n`
    /// bits remain.
    pub fn read_bits(&mut self, n: usize) -> (r: Result<u32, DecodeError>)
        requires
            old(self).wf(),
            n <= 32,
        ensures
            final(self).wf(),
            final(self).spec_data() == old(self).spec_data(),
            old(self).spec_pos() + n <= 8 * old(self).spec_data().len() ==> ({
                &&& r is Ok
                &&& r->Ok_0 as nat == bits_val(old(self).spec_data(), old(self).spec_pos(), n as nat)
                &&& final(self).spec_pos() == old(self).spec_pos() + n
            }),
            old(self).spec_pos() + n > 8 * old(self).spec_data().len() ==> ({
                &&& r == Err::<u32, DecodeError>(DecodeError::StreamUnderrun)
                &&& final(self).spec_pos() == old(self).spec_pos()
            }),
    {
        let total: usize = 8 * self.data.len();
        if n > total - self.pos {
            return Err(DecodeError::StreamUnderrun);
        }
        let ghost data0 = self.data@;
        let ghost pos0 = self.pos as int;
        let mut v: u32 = 0;
        let mut k: usize = 0;
        while k < n
            invariant
                self.data@ == data0,
                self.spec_pos() == pos0,
                self.wf(),
                k <= n,
                n <= 32,
                pos0 + n <= 8 * data0.len(),
                v as nat == bits_val(data0, pos0, k as nat),
            decreases n - k,
        {
            proof {
                lemma_bits_val_bound(data0, pos0, k as nat);
                if (k as nat) < 31 {
                    lemma_pow2_strictly_increases(k as nat, 31);
                }
                lemma2_to64();
            }
            let idx = self.pos + k;
            let byte = self.data[idx / 8];
            let sh = (7 - (idx % 8)) as u8;
            let b = ((byte >> sh) & 1) as u32;
            assert((byte >> sh) & 1 <= 1) by (bit_vector);
            assert(b == bit_at(data0, pos0 + k));
            v = 2 * v + b;
            k = k + 1;
        }
        self.pos = self.pos + n;
        Ok(v)
    }

    /// Byte-aligned bulk copy of the next `n` bytes, or `StreamUnderrun`
    /// (leaving the cursor in place) if fewer than `n` bytes remain.
    pub fn read_bytes(&mut self, n: usize) -> (r: Result<Vec<u8>, DecodeError>)
        requires
            old(self).wf(),
            old(self).spec_pos() % 8 == 0,
        ensures
            final(self).wf(),
            final(self).spec_data() == old(self).spec_data(),
            old(self).spec_pos() + 8 * n <= 8 * old(self).spec_data().len() ==> ({
                &&& r is Ok
                &&& r->Ok_0@ == old(self).spec_data().subrange(
                    old(self).spec_pos() / 8,
                    old(self).spec_pos() / 8 + n,
                )
                &&& final(self).spec_pos() == old(self).spec_pos() + 8 * n
            }),
            old(self).spec_pos() + 8 * n > 8 * old(self).spec_data().len() ==> ({
                &&& r == Err::<Vec<u8>, DecodeError>(DecodeError::StreamUnderrun)
                &&& final(self).spec_pos() == old(self).spec_pos()
            }),
    {
        let base = self.pos / 8;
        if n > self.data.len() - base {
            return Err(DecodeError::StreamUnderrun);
        }
        let ghost data0 = self.data@;
        let ghost pos0 = self.pos as int;
        let mut out: Vec<u8> = Vec::new();
        let mut i: usize = 0;
        while i < n
            invariant
                self.data@ == data0,
                self.spec_pos() == pos0,
                self.wf(),
                base == pos0 / 8,
                base + n <= data0.len(),
                i <= n,
                out@.len() == i,
                forall|j: int| 0 <= j < i ==> out@[j] == data0[base + j],
            decreases n - i,
        {
            let byte = self.data[base + i];
            out.push(byte);
            i = i + 1;
        }
        assert(out@ =~= data0.subrange(pos0 / 8, pos0 / 8 + n));
        self.pos = self.pos + 8 * n;
        Ok(out)
    }

    /// Decodes one variable-length unsigned integer: starting from 1,
    /// each control bit 0 shifts in one data bit; a control bit 1 stops.
    /// Exhaustion of the stream also stops the number and returns the
    /// value accumulated so far; values beyond `u32::MAX` saturate.
    pub fn read_uie(&mut self) -> (r: u32)
        requires
            old(self).wf(),
        ensures
            final(self).wf(),
            final(self).spec_data() == old(self).spec_data(),
            r as nat == ({
                let v = uie_val(old(self).spec_data(), old(self).spec_pos());
                if v <= u32::MAX as nat {
                    v
                } else {
                    u32::MAX as nat
                }
            }),
            final(self).spec_pos() == uie_end(old(self).spec_data(), old(self).spec_pos()),
    {
        let ghost data0 = self.data@;
        let ghost pos0 = self.pos as int;
        let mut result: u32 = 1;
        let ghost mut acc: nat = 1;
        loop
            invariant_except_break
                uie_rec(data0, self.spec_pos(), acc) == uie_rec(data0, pos0, 1),
            invariant
                self.data@ == data0,
                self.wf(),
                result as nat == if acc <= u32::MAX as nat {
                    acc
                } else {
                    u32::MAX as nat
                },
            ensures
                self.data@ == data0,
                self.wf(),
                uie_rec(data0, pos0, 1) == (acc, self.spec_pos()),
                result as nat == if acc <= u32::MAX as nat {
                    acc
                } else {
                    u32::MAX as nat
                },
            decreases 8 * self.data@.len() - self.spec_pos(),
        {
            let ghost pos_c = self.spec_pos();
            let control = match self.read_bits(1) {
                Err(_) => {
                    proof {
                        assert(uie_rec(data0, pos_c, acc) == (acc, pos_c));
                    }
                    break ;
                },
                Ok(c) => c,
            };
            proof {
                lemma_bits_val_single(data0, pos_c);
                lemma_bit_at_le_one(data0, pos_c);
            }
            if control == 1 {
                proof {
                    assert(uie_rec(data0, pos_c, acc) == (acc, pos_c + 1));
                }
                break ;
            }
            let ghost pos_d = self.spec_pos();
            let data_bit = match self.read_bits(1) {
                Err(_) => {
                    proof {
                        assert(uie_rec(data0, pos_c, acc) == (acc, pos_c + 1));
                    }
                    break ;
                },
                Ok(d) => d,
            };
            proof {
                lemma_bits_val_single(data0, pos_d);
                lemma_bit_at_le_one(data0, pos_d);
                assert(uie_rec(data0, pos_c, acc) == uie_rec(
                    data0,
                    pos_c + 2,
                    acc * 2 + bit_at(data0, pos_c + 1) as nat,
                ));
                acc = acc * 2 + data_bit as nat;
            }
            if result >= 0x8000_0000 {
                result = u32::MAX;
            } else {
                result = 2 * result + data_bit;
            }
        }
        result
    }
}

} // verus!
