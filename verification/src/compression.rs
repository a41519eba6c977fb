//! LZ-style decompressor for length-prefixed compressed blocks.
//!
//! A block is a 2-byte big-endian uncompressed length, a 2-byte big-endian
//! payload length (which counts its own two bytes), the literal payload,
//! and then a bitstream of commands: a literal command copies the next
//! run of payload bytes through, a back-reference command re-reads bytes
//! already written to the output, byte by byte, so that source and
//! destination may overlap.
use vstd::prelude::*;

verus! {

use crate::DecodeError;
use crate::bitstream::BitReader;
use crate::bitstream::bit_at;
use crate::bitstream::bits_val;
use crate::bitstream::uie_val;
use crate::bitstream::uie_end;
use vstd::arithmetic::power2::pow2;
use vstd::arithmetic::power2::lemma2_to64;

/// Declared uncompressed length: the big-endian word at bytes 0 and 1.
pub open spec fn spec_uncompressed_len(block: Seq<u8>) -> nat
    recommends
        block.len() >= 2,
{
    (block[0] as nat) * 256 + block[1] as nat
}

/// Payload length field: the big-endian word at bytes 2 and 3. It counts
/// its own two bytes, so the literal payload holds two bytes fewer.
pub open spec fn spec_payload_field(block: Seq<u8>) -> nat
    recommends
        block.len() >= 4,
{
    (block[2] as nat) * 256 + block[3] as nat
}

/// Bits needed to address any output position below `n`:
/// 0 for an empty output, else `floor(log2(n)) + 1`.
pub open spec fn bit_width(n: nat) -> nat
    decreases n,
{
    if n == 0 {
        0
    } else {
        1 + bit_width(n / 2)
    }
}

/// Byte `i` of a back-reference copy of the region starting at `src`:
/// the copy proceeds byte by byte, so once it passes the end of the
/// original output it re-reads its own earlier bytes, repeating the
/// region between `src` and the old end.
pub open spec fn backref_byte(out: Seq<u8>, src: int, i: int) -> u8
    recommends
        0 <= src < out.len(),
        0 <= i,
    decreases i,
{
    if i < 0 || src + i < out.len() || out.len() - src <= 0 {
        out[src + i]
    } else {
        backref_byte(out, src, i - (out.len() - src))
    }
}

/// The output after a back-reference copy of `n` bytes from `src`.
pub open spec fn backref_copy(out: Seq<u8>, src: int, n: nat) -> Seq<u8> {
    out + Seq::new(n, |i: int| backref_byte(out, src, i))
}

/// One decompression round, starting with a literal command if `lit`,
/// always followed by a back-reference command, then the next command
/// bit. `out` is the output written so far, `dpos` the literal-payload
/// cursor, `bpos` the bit cursor into `bits`. A stream that runs out
/// before the output is complete is corrupt: the declared and produced
/// lengths would differ.
pub open spec fn run(
    ulen: nat,
    payload: Seq<u8>,
    bits: Seq<u8>,
    out: Seq<u8>,
    dpos: int,
    bpos: int,
    lit: bool,
) -> Result<Seq<u8>, DecodeError>
    decreases ulen - out.len(), (if lit {
        1int
    } else {
        0int
    }),
    when out.len() < ulen && 0 <= dpos
{
    if lit {
        let a = uie_val(bits, bpos);
        let bpos1 = uie_end(bits, bpos);
        let rem = (ulen - out.len()) as nat;
        let amount = if a <= rem {
            a
        } else {
            rem
        };
        if dpos + amount > payload.len() {
            Err(DecodeError::CorruptStream)
        } else {
            let out1 = out + payload.subrange(dpos, dpos + amount);
            if out1.len() == ulen {
                Ok(out1)
            } else {
                run(ulen, payload, bits, out1, dpos + amount, bpos1, false)
            }
        }
    } else {
        let w = bit_width(out.len());
        if bpos + w > 8 * bits.len() {
            Err(DecodeError::CorruptStream)
        } else {
            let src = bits_val(bits, bpos, w) as int;
            let a = uie_val(bits, bpos + w);
            let bpos1 = uie_end(bits, bpos + w);
            let rem = (ulen - out.len()) as nat;
            let amount = if a + 2 <= rem {
                (a + 2) as nat
            } else {
                rem
            };
            if src >= out.len() {
                Err(DecodeError::CorruptStream)
            } else {
                let out1 = backref_copy(out, src, amount);
                if out1.len() == ulen {
                    Ok(out1)
                } else if bpos1 + 1 > 8 * bits.len() {
                    Err(DecodeError::CorruptStream)
                } else {
                    run(ulen, payload, bits, out1, dpos, bpos1 + 1, bit_at(bits, bpos1) == 0)
                }
            }
        }
    }
}

/// What decompressing `block` yields: the header checks, then the
/// command rounds, starting with a literal command.
pub open spec fn spec_decompress(block: Seq<u8>) -> Result<Seq<u8>, DecodeError> {
    if block.len() < 4 {
        Err(DecodeError::StreamUnderrun)
    } else {
        let ulen = spec_uncompressed_len(block);
        let pfield = spec_payload_field(block);
        if pfield < 2 {
            Err(DecodeError::CorruptStream)
        } else if 4 + (pfield - 2) > block.len() {
            Err(DecodeError::LengthMismatch)
        } else if ulen == 0 {
            Ok(Seq::empty())
        } else {
            run(
                ulen,
                block.subrange(4, 4 + pfield - 2),
                block.subrange(4 + pfield - 2, block.len() as int),
                Seq::empty(),
                0,
                0,
                true,
            )
        }
    }
}

proof fn lemma_bit_width_le(n: nat, k: nat)
    requires
        n < pow2(k),
    ensures
        bit_width(n) <= k,
    decreases n,
{
    if n > 0 {
        if k == 0 {
            lemma2_to64();
        } else {
            assert(pow2(k) == 2 * pow2((k - 1) as nat)) by {
                vstd::arithmetic::power2::lemma_pow2_unfold(k);
            }
            lemma_bit_width_le(n / 2, (k - 1) as nat);
        }
    }
}

/// Number of bits needed to address any position below `n`.
fn exec_bit_width(n: usize) -> (w: usize)
    ensures
        w as nat == bit_width(n as nat),
{
    proof {
        lemma2_to64();
        lemma_bit_width_le(n as nat, 64);
    }
    let mut t = n;
    let mut w: usize = 0;
    while t > 0
        invariant
            bit_width(n as nat) == bit_width(t as nat) + w,
            bit_width(n as nat) <= 64,
        decreases t,
    {
        assert(bit_width(t as nat) == 1 + bit_width((t / 2) as nat));
        t = t / 2;
        w = w + 1;
    }
    w
}

/// Copies `data[start..end]` into a fresh vector.
fn copy_range(data: &[u8], start: usize, end: usize) -> (r: Vec<u8>)
    requires
        start <= end <= data@.len(),
    ensures
        r@ == data@.subrange(start as int, end as int),
{
    let mut out: Vec<u8> = Vec::new();
    let mut i: usize = start;
    while i < end
        invariant
            start <= i <= end <= data@.len(),
            out@.len() == i - start,
            forall|j: int| 0 <= j < out@.len() ==> out@[j] == data@[start + j],
        decreases end - i,
    {
        let b = data[i];
        out.push(b);
        i = i + 1;
    }
    assert(out@ =~= data@.subrange(start as int, end as int));
    out
}

/// Decompresses one length-prefixed compressed block and returns exactly
/// the declared number of bytes, or the decode error that
/// `spec_decompress` assigns to this block.
#[verifier::rlimit(50)]
pub fn decompress(data: &[u8]) -> (r: Result<Vec<u8>, DecodeError>)
    requires
        8 * data@.len() + 64 <= usize::MAX,
    ensures
        r is Ok ==> spec_decompress(data@) == Ok::<Seq<u8>, DecodeError>(r->Ok_0@),
        r is Err ==> spec_decompress(data@) == Err::<Seq<u8>, DecodeError>(r->Err_0),
        r is Ok ==> r->Ok_0@.len() == spec_uncompressed_len(data@),
{
    if data.len() < 4 {
        return Err(DecodeError::StreamUnderrun);
    }
    let ulen: usize = (data[0] as usize) * 256 + (data[1] as usize);
    let pfield: usize = (data[2] as usize) * 256 + (data[3] as usize);
    if pfield < 2 {
        return Err(DecodeError::CorruptStream);
    }
    let dlen: usize = pfield - 2;
    if dlen > data.len() - 4 {
        return Err(DecodeError::LengthMismatch);
    }
    if ulen == 0 {
        let empty: Vec<u8> = Vec::new();
        assert(empty@ =~= Seq::<u8>::empty());
        return Ok(empty);
    }
    let payload_end: usize = 4 + dlen;
    let ghost payload_s = data@.subrange(4, 4 + dlen as int);
    let ghost bits_s = data@.subrange(payload_end as int, data@.len() as int);
    let ghost run0 = run(ulen as nat, payload_s, bits_s, Seq::empty(), 0, 0, true);
    proof {
        assert(spec_decompress(data@) == run0);
    }
    let tail = copy_range(data, payload_end, data.len());
    let mut reader = BitReader::new(tail);
    let mut out: Vec<u8> = Vec::new();
    let mut dpos: usize = 0;
    let mut lit = true;
    loop
        invariant
            reader.wf(),
            reader.spec_data() == bits_s,
            ulen <= 0xffff,
            0 < ulen,
            ulen as nat == spec_uncompressed_len(data@),
            out@.len() < ulen,
            dpos <= dlen,
            dlen <= 0xffff,
            dlen + 4 <= data@.len(),
            payload_s == data@.subrange(4, 4 + dlen as int),
            payload_s.len() == dlen,
            run(
                ulen as nat,
                payload_s,
                bits_s,
                out@,
                dpos as int,
                reader.spec_pos(),
                lit,
            ) == run0,
            spec_decompress(data@) == run0,
            8 * data@.len() + 64 <= usize::MAX,
        decreases ulen - out@.len(), (if lit {
            1int
        } else {
            0int
        }),
    {
        if lit {
            let ghost bpos_a = reader.spec_pos();
            let a = reader.read_uie();
            let remaining = ulen - out.len();
            let amount = if (a as usize) < remaining {
                a as usize
            } else {
                remaining
            };
            proof {
                let av = uie_val(bits_s, bpos_a);
                let rem_s = (ulen - out@.len()) as nat;
                assert(amount as nat == if av <= rem_s {
                    av
                } else {
                    rem_s
                });
            }
            if amount > dlen - dpos {
                assert(run0 == Err::<Seq<u8>, DecodeError>(DecodeError::CorruptStream));
                return Err(DecodeError::CorruptStream);
            }
            let ghost out_snap = out@;
            let mut i: usize = 0;
            while i < amount
                invariant
                    i <= amount,
                    dpos + amount <= dlen,
                    dlen <= 0xffff,
                    dlen + 4 <= data@.len(),
                    payload_s == data@.subrange(4, 4 + dlen as int),
                    payload_s.len() == dlen,
                    out@ == out_snap + payload_s.subrange(dpos as int, dpos as int + i),
                decreases amount - i,
            {
                let b = data[4 + dpos + i];
                proof {
                    assert(payload_s[dpos + i] == data@[4 + dpos + i]);
                    assert(payload_s.subrange(dpos as int, dpos as int + i + 1) =~= payload_s
                        .subrange(dpos as int, dpos as int + i).push(payload_s[dpos + i]));
                    assert(out_snap + payload_s.subrange(dpos as int, dpos as int + i + 1)
                        =~= (out_snap + payload_s.subrange(dpos as int, dpos as int + i)).push(
                        payload_s[dpos + i],
                    ));
                }
                out.push(b);
                i = i + 1;
            }
            dpos = dpos + amount;
            if out.len() == ulen {
                assert(run0 == Ok::<Seq<u8>, DecodeError>(out@));
                return Ok(out);
            }
            proof {
                assert(run(
                    ulen as nat,
                    payload_s,
                    bits_s,
                    out@,
                    dpos as int,
                    reader.spec_pos(),
                    false,
                ) == run0);
            }
        }
        // Back-reference command: always follows a literal command, and is
        // entered directly when the previous command bit chose it.
        let w = exec_bit_width(out.len());
        proof {
            lemma2_to64();
            lemma_bit_width_le(out@.len(), 16);
        }
        let src32 = match reader.read_bits(w) {
            Ok(v) => v,
            Err(_) => {
                assert(run0 == Err::<Seq<u8>, DecodeError>(DecodeError::CorruptStream));
                return Err(DecodeError::CorruptStream);
            },
        };
        let ghost bpos_a = reader.spec_pos();
        let a = reader.read_uie();
        let remaining = ulen - out.len();
        let au = a as usize;
        let amount = if au >= remaining {
            remaining
        } else if au + 2 <= remaining {
            au + 2
        } else {
            remaining
        };
        proof {
            let av = uie_val(bits_s, bpos_a);
            let rem_s = (ulen - out@.len()) as nat;
            assert(amount as nat == if av + 2 <= rem_s {
                (av + 2) as nat
            } else {
                rem_s
            });
        }
        if src32 as usize >= out.len() {
            assert(run0 == Err::<Seq<u8>, DecodeError>(DecodeError::CorruptStream));
            return Err(DecodeError::CorruptStream);
        }
        let src = src32 as usize;
        let ghost out_snap = out@;
        let mut i: usize = 0;
        while i < amount
            invariant
                i <= amount,
                0 <= src < out_snap.len(),
                out_snap.len() + amount <= ulen,
                ulen <= 0xffff,
                out@ == backref_copy(out_snap, src as int, i as nat),
                out@.len() == out_snap.len() + i,
            decreases amount - i,
        {
            let b = out[src + i];
            proof {
                let f = |j: int| backref_byte(out_snap, src as int, j);
                if src + i < out_snap.len() {
                    assert(out@[src + i] == out_snap[src + i]);
                    assert(b == backref_byte(out_snap, src as int, i as int));
                } else {
                    let p = out_snap.len() - src;
                    assert(out@[src + i] == Seq::new(i as nat, f)[src + i - out_snap.len()]);
                    assert(backref_byte(out_snap, src as int, i as int) == backref_byte(
                        out_snap,
                        src as int,
                        i - p,
                    ));
                    assert(b == backref_byte(out_snap, src as int, i as int));
                }
                assert(Seq::new((i + 1) as nat, f) =~= Seq::new(i as nat, f).push(f(i as int)));
                assert(backref_copy(out_snap, src as int, (i + 1) as nat) =~= backref_copy(
                    out_snap,
                    src as int,
                    i as nat,
                ).push(backref_byte(out_snap, src as int, i as int)));
            }
            out.push(b);
            i = i + 1;
        }
        if out.len() == ulen {
            assert(run0 == Ok::<Seq<u8>, DecodeError>(out@));
            return Ok(out);
        }
        let ghost bpos_c = reader.spec_pos();
        let cmd = match reader.read_bits(1) {
            Ok(c) => c,
            Err(_) => {
                assert(run0 == Err::<Seq<u8>, DecodeError>(DecodeError::CorruptStream));
                return Err(DecodeError::CorruptStream);
            },
        };
        proof {
            assert(bits_val(bits_s, bpos_c, 1) == bit_at(bits_s, bpos_c)) by {
                assert(bits_val(bits_s, bpos_c, 0) == 0);
            }
        }
        lit = cmd == 0;
    }
}

} // verus!
