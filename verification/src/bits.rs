//! Bit-level reading and writing over byte buffers, MSB-first, together
//! with the specification-level account of every primitive: fixed-width
//! reads, unsigned and signed Exp-Golomb codes, and the bits/bytes
//! correspondence the serializer relies on.
use vstd::prelude::*;
use vstd::arithmetic::power2::{
    pow2, lemma_pow2_unfold, lemma_pow2_adds, lemma_pow2_strictly_increases, lemma_pow2_pos,
    lemma2_to64,
};
use vstd::bits::{lemma_u64_shr_is_div, lemma_u64_shl_is_mul, lemma_u64_pow2_no_overflow};

verus! {

use crate::DemuxError;

/// Bit `k` (0 = most significant) of a byte.
pub open spec fn bit_of_byte(b: u8, k: int) -> bool
    recommends
        0 <= k < 8,
{
    (b >> ((7 - k) as u8)) & 1 == 1
}

/// A byte buffer as a sequence of bits, MSB-first within each byte.
pub open spec fn bytes_to_bits(s: Seq<u8>) -> Seq<bool> {
    Seq::new(s.len() * 8, |i: int| bit_of_byte(s[i / 8], i % 8))
}

/// The unsigned value of a bit string, most significant bit first.
pub open spec fn bits_to_nat(s: Seq<bool>) -> nat
    decreases s.len(),
{
    if s.len() == 0 {
        0
    } else {
        bits_to_nat(s.drop_last()) * 2 + (if s.last() {
            1nat
        } else {
            0nat
        })
    }
}

/// The `n` low bits of `v`, most significant first.
pub open spec fn u64_bits(v: u64, n: nat) -> Seq<bool>
    decreases n,
{
    if n == 0 {
        Seq::empty()
    } else {
        u64_bits(v / 2, (n - 1) as nat).push(v % 2 == 1)
    }
}

pub proof fn lemma_u64_bits_len(v: u64, n: nat)
    ensures
        u64_bits(v, n).len() == n,
    decreases n,
{
    if n > 0 {
        lemma_u64_bits_len(v / 2, (n - 1) as nat);
    }
}

pub proof fn lemma_bits_to_nat_bound(s: Seq<bool>)
    ensures
        bits_to_nat(s) < pow2(s.len()),
    decreases s.len(),
{
    if s.len() == 0 {
        assert(pow2(0) == 1) by { lemma2_to64(); }
    } else {
        lemma_bits_to_nat_bound(s.drop_last());
        lemma_pow2_unfold(s.len());
    }
}

pub proof fn lemma_u64_bits_to_nat(v: u64, n: nat)
    ensures
        bits_to_nat(u64_bits(v, n)) == (v as nat) % pow2(n),
    decreases n,
{
    if n == 0 {
        assert(pow2(0) == 1) by { lemma2_to64(); }
        assert(v as int % 1 == 0) by (nonlinear_arith);
    } else {
        lemma_u64_bits_to_nat(v / 2, (n - 1) as nat);
        let s = u64_bits(v, n);
        assert(s.drop_last() =~= u64_bits(v / 2, (n - 1) as nat));
        lemma_pow2_unfold(n);
        // v % 2^n == (v/2 % 2^(n-1)) * 2 + v % 2
        assert((v as int) % (2 * pow2((n - 1) as nat) as int) == 2 * ((v as int / 2) % pow2(
            (n - 1) as nat,
        ) as int) + (v as int) % 2) by {
            lemma_pow2_pos((n - 1) as nat);
            vstd::arithmetic::div_mod::lemma_mod_breakdown(
                v as int,
                2,
                pow2((n - 1) as nat) as int,
            );
        }
    }
}

pub proof fn lemma_u64_bits_of_nat(s: Seq<bool>)
    requires
        s.len() <= 64,
    ensures
        u64_bits(bits_to_nat(s) as u64, s.len()) == s,
    decreases s.len(),
{
    if s.len() == 0 {
        assert(u64_bits(0, 0) =~= s);
    } else {
        let v = bits_to_nat(s);
        lemma_bits_to_nat_bound(s);
        assert(pow2(s.len()) <= pow2(64)) by {
            if s.len() < 64 {
                lemma_pow2_strictly_increases(s.len(), 64);
            }
        }
        lemma2_to64();
        assert(v <= u64::MAX);
        let hi = bits_to_nat(s.drop_last());
        let lo: nat = if s.last() { 1 } else { 0 };
        assert(v == hi * 2 + lo);
        assert((v as u64) / 2 == hi as u64) by (nonlinear_arith)
            requires v == hi * 2 + lo && lo < 2 && v <= u64::MAX;
        assert((v as u64) % 2 == lo as u64) by (nonlinear_arith)
            requires v == hi * 2 + lo && lo < 2 && v <= u64::MAX;
        lemma_u64_bits_of_nat(s.drop_last());
        assert(u64_bits(v as u64, s.len()) =~= s);
    }
}

pub proof fn lemma_bits_to_nat_snoc(s: Seq<bool>, b: bool)
    ensures
        bits_to_nat(s.push(b)) == bits_to_nat(s) * 2 + (if b {
            1nat
        } else {
            0nat
        }),
{
    assert(s.push(b).drop_last() =~= s);
}

/// Closed form for the bits of a value: bit `i` of the `n`-bit string is
/// bit `n - 1 - i` of the value.
pub proof fn lemma_u64_bits_index(v: u64, n: nat, i: int)
    requires
        n <= 64,
        0 <= i < n,
    ensures
        u64_bits(v, n)[i] == ((v >> ((n - 1 - i) as u64)) & 1 == 1),
    decreases n,
{
    lemma_u64_bits_len(v, n);
    lemma_u64_bits_len(v / 2, (n - 1) as nat);
    if i == n - 1 {
        assert((v >> 0u64) & 1 == v % 2) by (bit_vector);
        assert(u64_bits(v, n)[i] == (v % 2 == 1));
    } else {
        lemma_u64_bits_index(v / 2, (n - 1) as nat, i);
        let k = (n - 2 - i) as u64;
        let m = (n - 1 - i) as u64;
        assert(u64_bits(v, n)[i] == u64_bits(v / 2, (n - 1) as nat)[i]);
        assert(v / 2 == v >> 1u64) by (bit_vector);
        assert((v >> 1u64) >> k == v >> m) by (bit_vector)
            requires
                k < 63u64 && m == vstd::prelude::add(k, 1),
        ;
    }
}

/// The result of a fixed-width read: the value of the next `n` bits and
/// the advanced position, or `Truncated` past the end.
pub open spec fn spec_read_n(bits: Seq<bool>, pos: int, n: int) -> Result<(u64, int), DemuxError> {
    if 0 <= pos && pos + n <= bits.len() {
        Ok(((bits_to_nat(bits.subrange(pos, pos + n)) as u64), pos + n))
    } else {
        Err(DemuxError::Truncated)
    }
}

/// The result of a single-bit read.
pub open spec fn spec_read_bit(bits: Seq<bool>, pos: int) -> Result<(bool, int), DemuxError> {
    if 0 <= pos && pos < bits.len() {
        Ok((bits[pos], pos + 1))
    } else {
        Err(DemuxError::Truncated)
    }
}

/// Number of consecutive `false` bits at `pos`, up to the end of the buffer.
pub open spec fn zero_run(bits: Seq<bool>, pos: int) -> int
    recommends
        0 <= pos <= bits.len(),
    decreases bits.len() - pos,
{
    if pos < 0 || pos >= bits.len() {
        0
    } else if bits[pos] {
        0
    } else {
        1 + zero_run(bits, pos + 1)
    }
}

pub proof fn lemma_zero_run_bounds(bits: Seq<bool>, pos: int)
    requires
        0 <= pos <= bits.len(),
    ensures
        0 <= zero_run(bits, pos) <= bits.len() - pos,
    decreases bits.len() - pos,
{
    if pos < bits.len() && !bits[pos] {
        lemma_zero_run_bounds(bits, pos + 1);
    }
}

pub proof fn lemma_zero_run_char(bits: Seq<bool>, pos: int, n: int)
    requires
        0 <= pos,
        0 <= n,
        pos + n <= bits.len(),
        forall|j: int| pos <= j < pos + n ==> !bits[j],
        pos + n == bits.len() || bits[pos + n],
    ensures
        zero_run(bits, pos) == n,
    decreases n,
{
    if n > 0 {
        lemma_zero_run_char(bits, pos + 1, n - 1);
    }
}

/// The result of an unsigned Exp-Golomb read: `n` leading zero bits, a
/// one bit, then `n` more bits `t`; the value is `2^n - 1 + t`. A code
/// whose value would not fit 64 bits is `Malformed`; running out of
/// bits is `Truncated`.
pub open spec fn spec_read_ue(bits: Seq<bool>, pos: int) -> Result<(u64, int), DemuxError> {
    let n = zero_run(bits, pos);
    if pos + n >= bits.len() {
        Err(DemuxError::Truncated)
    } else if n > 63 {
        Err(DemuxError::Malformed)
    } else if pos + 2 * n + 1 > bits.len() {
        Err(DemuxError::Truncated)
    } else {
        Ok(
            (
                ((pow2(n as nat) - 1 + bits_to_nat(
                    bits.subrange(pos + n + 1, pos + 2 * n + 1),
                )) as u64),
                pos + 2 * n + 1,
            ),
        )
    }
}

/// A successful fixed-width read is bounded by the width.
pub proof fn lemma_read_n_bound(bits: Seq<bool>, pos: int, n: int)
    requires
        0 <= n <= 64,
    ensures
        spec_read_n(bits, pos, n) matches Ok(vp) ==> vp.0 < pow2(n as nat) && 0 <= pos && vp.1
            == pos + n <= bits.len(),
{
    if spec_read_n(bits, pos, n) is Ok {
        lemma_bits_to_nat_bound(bits.subrange(pos, pos + n));
        lemma2_to64();
        vstd::arithmetic::power2::lemma2_to64_rest();
        if n < 64 {
            lemma_pow2_strictly_increases(n as nat, 64);
        }
    }
}

/// A successful unsigned Exp-Golomb read never yields `u64::MAX` and
/// always advances the cursor within bounds.
pub proof fn lemma_read_ue_ok(bits: Seq<bool>, pos: int)
    requires
        0 <= pos,
    ensures
        spec_read_ue(bits, pos) matches Ok(vp) ==> vp.0 <= u64::MAX - 1 && pos < vp.1
            <= bits.len(),
{
    let n = zero_run(bits, pos);
    if spec_read_ue(bits, pos) is Ok {
        if pos > bits.len() {
            assert(zero_run(bits, pos) == 0);
            assert(false);
        }
        lemma_zero_run_bounds(bits, pos);
        let t = bits_to_nat(bits.subrange(pos + n + 1, pos + 2 * n + 1));
        lemma_bits_to_nat_bound(bits.subrange(pos + n + 1, pos + 2 * n + 1));
        assert(t < pow2(n as nat));
        lemma2_to64();
        vstd::arithmetic::power2::lemma2_to64_rest();
        if n < 63 {
            lemma_pow2_strictly_increases(n as nat, 63);
        }
        assert(pow2(n as nat) <= pow2(63));
    }
}

/// The result of a signed Exp-Golomb read: unsigned value `k` maps to
/// `(k+1)/2` with sign `+` for odd `k`, `-` for even `k`.
pub open spec fn spec_read_se(bits: Seq<bool>, pos: int) -> Result<(i64, int), DemuxError> {
    match spec_read_ue(bits, pos) {
        Ok(vp) => {
            let k = vp.0;
            let val: int = if k % 2 == 1 {
                (k + 1) as int / 2
            } else {
                -((k / 2) as int)
            };
            Ok(((val as i64), vp.1))
        },
        Err(e) => Err(e),
    }
}

/// `n` zero bits.
pub open spec fn false_bits(n: nat) -> Seq<bool> {
    Seq::new(n, |i: int| false)
}

/// Number of bits in the binary representation of `x`.
pub open spec fn bitlen(x: nat) -> nat
    decreases x,
{
    if x == 0 {
        0
    } else {
        1 + bitlen(x / 2)
    }
}

pub proof fn lemma_bitlen_of_range(x: nat, n: nat)
    requires
        pow2(n) <= x < pow2(n + 1),
    ensures
        bitlen(x) == n + 1,
    decreases n,
{
    lemma_pow2_unfold(n + 1);
    lemma_pow2_pos(n);
    assert(x >= 1);
    if n == 0 {
        lemma2_to64();
        assert(x == 1);
        assert(bitlen(0) == 0);
        assert(bitlen(1) == 1);
    } else {
        lemma_pow2_unfold(n);
        lemma_pow2_pos((n - 1) as nat);
        assert(pow2((n - 1) as nat) <= x / 2 < pow2(n));
        lemma_bitlen_of_range(x / 2, (n - 1) as nat);
    }
}

/// The canonical encoding of an unsigned Exp-Golomb code.
pub open spec fn spec_ue_bits(v: u64) -> Seq<bool>
    recommends
        v < u64::MAX,
{
    let w = (v + 1) as u64;
    let n = (bitlen(w as nat) - 1) as nat;
    false_bits(n) + u64_bits(w, n + 1)
}

/// The unsigned code that a signed Exp-Golomb value maps to.
pub open spec fn se_to_ue(v: i64) -> u64
    recommends
        v > i64::MIN,
{
    if v > 0 {
        (2 * v - 1) as u64
    } else {
        (2 * (-v)) as u64
    }
}

/// The canonical encoding of a signed Exp-Golomb code.
pub open spec fn spec_se_bits(v: i64) -> Seq<bool>
    recommends
        v > i64::MIN,
{
    spec_ue_bits(se_to_ue(v))
}

/// The byte whose bits, MSB-first, are `s`.
pub open spec fn byte_of_bits(s: Seq<bool>) -> u8
    recommends
        s.len() == 8,
{
    bits_to_nat(s) as u8
}

/// A byte-aligned bit string as bytes.
pub open spec fn bits_to_bytes(s: Seq<bool>) -> Seq<u8>
    recommends
        s.len() % 8 == 0,
{
    Seq::new(s.len() / 8, |i: int| byte_of_bits(s.subrange(8 * i, 8 * i + 8)))
}

/// A bit string zero-padded up to the next byte boundary.
pub open spec fn pad_to_byte(s: Seq<bool>) -> Seq<bool> {
    s + false_bits(((8 - s.len() % 8) % 8) as nat)
}

/// Any bit string as bytes, zero-padding the last partial byte.
pub open spec fn bits_to_bytes_padded(s: Seq<bool>) -> Seq<u8> {
    bits_to_bytes(pad_to_byte(s))
}

/// The zero run really is a run of zeros, stopped by a one bit.
pub proof fn lemma_zero_run_props(bits: Seq<bool>, pos: int)
    requires
        0 <= pos <= bits.len(),
    ensures
        forall|j: int| pos <= j < pos + zero_run(bits, pos) ==> !bits[j],
        pos + zero_run(bits, pos) < bits.len() ==> bits[pos + zero_run(bits, pos)],
    decreases bits.len() - pos,
{
    if pos < bits.len() && !bits[pos] {
        lemma_zero_run_props(bits, pos + 1);
    }
}

/// Reading an unsigned Exp-Golomb code and re-encoding the value gives
/// back exactly the bits consumed: the code is canonical.
pub proof fn lemma_ue_bits_char(bits: Seq<bool>, pos: int)
    requires
        0 <= pos,
        spec_read_ue(bits, pos) is Ok,
    ensures
        ({
            let vp = spec_read_ue(bits, pos)->Ok_0;
            spec_ue_bits(vp.0) == bits.subrange(pos, vp.1)
        }),
{
    let n = zero_run(bits, pos);
    if pos > bits.len() {
        assert(zero_run(bits, pos) == 0);
        assert(false);
    }
    lemma_zero_run_bounds(bits, pos);
    lemma_zero_run_props(bits, pos);
    let tseq = bits.subrange(pos + n + 1, pos + 2 * n + 1);
    let t = bits_to_nat(tseq);
    lemma_bits_to_nat_bound(tseq);
    let v = (pow2(n as nat) - 1 + t) as u64;
    lemma2_to64();
    vstd::arithmetic::power2::lemma2_to64_rest();
    if n < 63 {
        lemma_pow2_strictly_increases(n as nat, 63);
    }
    let w = (v + 1) as u64;
    assert(w == pow2(n as nat) + t);
    lemma_pow2_unfold((n + 1) as nat);
    lemma_bitlen_of_range(w as nat, n as nat);
    // w as an (n+1)-bit string: a one bit, then the n bits of t.
    lemma_u64_bits_len(w, (n + 1) as nat);
    lemma_u64_bits_of_nat(tseq);
    let tw = (t as u64);
    let nu = n as u64;
    lemma_u64_pow2_no_overflow(n as nat);
    lemma_u64_shl_is_mul(1u64, nu);
    let pn = 1u64 << nu;
    assert(pn == pow2(n as nat));
    assert(w == pn + tw);
    assert(tw < pn);
    assert(w == (pn | tw)) by (bit_vector)
        requires
            nu < 64,
            pn == (1u64 << nu),
            tw < pn,
            w == vstd::prelude::add(pn, tw),
    ;
    assert forall|i: int| 0 <= i < n + 1 implies #[trigger] u64_bits(w, (n + 1) as nat)[i] == bits[pos
        + n + i] by {
        lemma_u64_bits_index(w, (n + 1) as nat, i);
        if i == 0 {
            assert((w >> nu) & 1 == 1) by (bit_vector)
                requires
                    nu < 64,
                    tw < (1u64 << nu),
                    w == ((1u64 << nu) | tw),
            ;
        } else {
            let s = (n - i) as u64;
            assert((w >> s) & 1 == (tw >> s) & 1) by (bit_vector)
                requires
                    nu < 64,
                    s < nu,
                    tw < (1u64 << nu),
                    w == ((1u64 << nu) | tw),
            ;
            lemma_u64_bits_index(tw, n as nat, i - 1);
            assert(u64_bits(tw, n as nat)[i - 1] == tseq[i - 1]);
        }
    }
    assert(spec_ue_bits(v) =~= bits.subrange(pos, pos + 2 * n + 1));
}

/// The signed Exp-Golomb code is canonical as well.
pub proof fn lemma_se_bits_char(bits: Seq<bool>, pos: int)
    requires
        0 <= pos,
        spec_read_se(bits, pos) is Ok,
    ensures
        ({
            let vp = spec_read_se(bits, pos)->Ok_0;
            spec_se_bits(vp.0) == bits.subrange(pos, vp.1)
        }),
{
    let k = spec_read_ue(bits, pos)->Ok_0.0;
    lemma_read_ue_ok(bits, pos);
    let sv = spec_read_se(bits, pos)->Ok_0.0;
    if k % 2 == 1 {
        assert(sv == (k + 1) as int / 2);
        assert(se_to_ue(sv) == k);
    } else {
        assert(sv as int == -((k / 2) as int));
        assert(se_to_ue(sv) == k);
    }
    lemma_ue_bits_char(bits, pos);
}

/// A bit-level append-only output buffer, MSB-first.
pub struct BitVecWriter {
    bits: Vec<bool>,
}

impl BitVecWriter {
    /// The bits written so far.
    pub closed spec fn spec_bits(&self) -> Seq<bool> {
        self.bits@
    }

    pub fn new() -> (r: BitVecWriter)
        ensures
            r.spec_bits() == Seq::<bool>::empty(),
    {
        let r = BitVecWriter { bits: Vec::new() };
        proof {
            assert(r.spec_bits() =~= Seq::<bool>::empty());
        }
        r
    }

    /// Bits written so far.
    pub fn len(&self) -> (r: usize)
        ensures
            r == self.spec_bits().len(),
    {
        self.bits.len()
    }

    /// Appends one bit.
    pub fn write(&mut self, b: bool)
        ensures
            final(self).spec_bits() == old(self).spec_bits().push(b),
    {
        self.bits.push(b);
    }

    /// Appends the low `n <= 64` bits of `v`, MSB-first.
    pub fn write_n(&mut self, v: u64, n: usize)
        requires
            n <= 64,
        ensures
            final(self).spec_bits() == old(self).spec_bits() + u64_bits(v, n as nat),
    {
        let ghost bits0 = self.spec_bits();
        let mut i: usize = 0;
        while i < n
            invariant
                i <= n <= 64,
                self.spec_bits().len() == bits0.len() + i,
                self.spec_bits().subrange(0, bits0.len() as int) == bits0,
                forall|t: int|
                    0 <= t < i ==> #[trigger] self.spec_bits()[bits0.len() + t] == ((v >> ((n - 1
                        - t) as u64)) & 1 == 1),
            decreases n - i,
        {
            let b = ((v >> ((n - 1 - i) as u64)) & 1) == 1;
            self.bits.push(b);
            proof {
                assert(self.spec_bits().subrange(0, bits0.len() as int) =~= bits0);
            }
            i += 1;
        }
        proof {
            lemma_u64_bits_len(v, n as nat);
            assert forall|j: int| 0 <= j < bits0.len() + n implies #[trigger] self.spec_bits()[j]
                == (bits0 + u64_bits(v, n as nat))[j] by {
                if j < bits0.len() {
                    assert(self.spec_bits().subrange(0, bits0.len() as int)[j]
                        == self.spec_bits()[j]);
                } else {
                    let t = j - bits0.len();
                    lemma_u64_bits_index(v, n as nat, t);
                    assert(self.spec_bits()[bits0.len() + t] == ((v >> ((n - 1 - t) as u64)) & 1
                        == 1));
                }
            }
            assert(self.spec_bits() =~= bits0 + u64_bits(v, n as nat));
        }
    }

    /// Appends the canonical unsigned Exp-Golomb code of `v`.
    pub fn write_ue(&mut self, v: u64)
        requires
            v < u64::MAX,
        ensures
            final(self).spec_bits() == old(self).spec_bits() + spec_ue_bits(v),
    {
        let ghost bits0 = self.spec_bits();
        let w = v + 1;
        // bit length of w
        let mut t = w;
        let mut blen: usize = 0;
        while t > 0
            invariant
                blen <= 64,
                bitlen(w as nat) == bitlen(t as nat) + blen,
                t <= w,
                blen == 0 ==> t == w,
                self.spec_bits() == bits0,
            decreases t,
        {
            proof {
                if blen >= 64 {
                    lemma_bitlen_u64(w);
                    assert(false);
                }
            }
            t = t / 2;
            blen += 1;
        }
        proof {
            lemma_bitlen_u64(w);
            assert(blen == bitlen(w as nat));
            assert(blen >= 1);
        }
        let n = blen - 1;
        let mut i: usize = 0;
        while i < n
            invariant
                i <= n,
                self.spec_bits() == bits0 + false_bits(i as nat),
            decreases n - i,
        {
            self.bits.push(false);
            proof {
                assert(bits0 + false_bits((i + 1) as nat) =~= (bits0 + false_bits(i as nat)).push(
                    false,
                ));
            }
            i += 1;
        }
        self.write_n(w, n + 1);
        proof {
            assert(self.spec_bits() =~= bits0 + spec_ue_bits(v));
        }
    }

    /// Appends the canonical signed Exp-Golomb code of `v`.
    pub fn write_se(&mut self, v: i64)
        requires
            v > i64::MIN,
        ensures
            final(self).spec_bits() == old(self).spec_bits() + spec_se_bits(v),
    {
        let k: u64 = if v > 0 {
            2 * (v as u64) - 1
        } else {
            2 * ((-v) as u64)
        };
        self.write_ue(k);
    }

    /// Appends `src[from..]`, for splicing a parsed buffer's tail.
    pub fn write_bitslice(&mut self, src: &Vec<bool>, from: usize)
        requires
            from <= src@.len(),
        ensures
            final(self).spec_bits() == old(self).spec_bits() + src@.skip(from as int),
    {
        let ghost bits0 = self.spec_bits();
        let mut i: usize = from;
        while i < src.len()
            invariant
                from <= i <= src@.len(),
                self.spec_bits() == bits0 + src@.subrange(from as int, i as int),
            decreases src@.len() - i,
        {
            let b = src[i];
            self.bits.push(b);
            proof {
                assert(bits0 + src@.subrange(from as int, i + 1) =~= (bits0 + src@.subrange(
                    from as int,
                    i as int,
                )).push(b));
            }
            i += 1;
        }
        proof {
            assert(self.spec_bits() =~= bits0 + src@.skip(from as int));
        }
    }

    /// The written bits as bytes, the last partial byte zero-padded,
    /// as a serializer hands its buffer on.
    pub fn as_bytes(&self) -> (r: Vec<u8>)
        ensures
            r@ == bits_to_bytes_padded(self.spec_bits()),
    {
        let n = self.bits.len();
        let full = n / 8;
        let rem = n % 8;
        let total = full + (if rem > 0 {
            1
        } else {
            0
        });
        let ghost padded = pad_to_byte(self.spec_bits());
        proof {
            assert(padded.len() == 8 * total);
        }
        let mut out: Vec<u8> = Vec::new();
        let mut i: usize = 0;
        while i < total
            invariant
                i <= total,
                n == self.spec_bits().len(),
                total == n / 8 + (if n % 8 > 0 {
                    1int
                } else {
                    0int
                }),
                padded == pad_to_byte(self.spec_bits()),
                padded.len() == 8 * total,
                out@.len() == i,
                forall|t: int| 0 <= t < i ==> out@[t] == byte_of_bits(padded.subrange(8 * t, 8 * t + 8)),
            decreases total - i,
        {
            let mut val: u8 = 0;
            let mut k: usize = 0;
            proof {
                lemma2_to64();
                assert(padded.subrange(8 * i, 8 * i + 0) =~= Seq::empty());
            }
            let idx8 = 8 * i;
            while k < 8
                invariant
                    k <= 8,
                    i < total,
                    idx8 == 8 * i,
                    n == self.spec_bits().len(),
                    padded == pad_to_byte(self.spec_bits()),
                    padded.len() == 8 * total,
                    val == bits_to_nat(padded.subrange(8 * i, 8 * i + k)),
                    val < pow2(k as nat),
                decreases 8 - k,
            {
                let b = if k < n - idx8 {
                    self.bits[idx8 + k]
                } else {
                    false
                };
                proof {
                    assert(padded[8 * i + k] == b);
                    lemma_bits_to_nat_snoc(padded.subrange(8 * i, 8 * i + k), b);
                    assert(padded.subrange(8 * i, 8 * i + k + 1) =~= padded.subrange(
                        8 * i,
                        8 * i + k,
                    ).push(b));
                    lemma2_to64();
                    lemma_pow2_unfold((k + 1) as nat);
                    if k < 7 {
                        lemma_pow2_strictly_increases(k as nat, 7);
                    }
                }
                val = val * 2 + (if b {
                    1
                } else {
                    0
                });
                k += 1;
            }
            out.push(val);
            i += 1;
        }
        proof {
            assert(out@ =~= bits_to_bytes_padded(self.spec_bits()));
        }
        out
    }
}

/// The bit length of a `u64` value is at most 64.
pub proof fn lemma_bitlen_u64(w: u64)
    ensures
        bitlen(w as nat) <= 64,
        w >= 1 ==> bitlen(w as nat) >= 1,
{
    lemma2_to64();
    vstd::arithmetic::power2::lemma2_to64_rest();
    lemma_bitlen_le(w as nat, 64);
}

pub proof fn lemma_bitlen_le(x: nat, n: nat)
    requires
        x < pow2(n),
    ensures
        bitlen(x) <= n,
    decreases n,
{
    lemma2_to64();
    if x > 0 {
        assert(n >= 1);
        lemma_pow2_unfold(n);
        lemma_bitlen_le(x / 2, (n - 1) as nat);
    }
}

/// Bytes turned to bits and back are unchanged.
pub proof fn lemma_bytes_bits_roundtrip(s: Seq<u8>)
    ensures
        bits_to_bytes(bytes_to_bits(s)) == s,
{
    let bits = bytes_to_bits(s);
    assert forall|i: int| 0 <= i < s.len() implies bits_to_bytes(bits)[i] == s[i] by {
        let c = bits.subrange(8 * i, 8 * i + 8);
        let b = s[i];
        assert forall|k: int| 0 <= k < 8 implies c[k] == u64_bits(b as u64, 8)[k] by {
            lemma_u64_bits_index(b as u64, 8, k);
            let sh = (7 - k) as u64;
            assert(((b as u64) >> sh) & 1 == (((b >> (sh as u8)) & 1) as u64)) by (bit_vector)
                requires
                    sh < 8u64,
            ;
        }
        lemma_u64_bits_len(b as u64, 8);
        assert(c =~= u64_bits(b as u64, 8));
        lemma_u64_bits_to_nat(b as u64, 8);
        lemma2_to64();
        assert(bits_to_nat(c) == (b as nat) % 256);
    }
    assert(bits_to_bytes(bits) =~= s);
}

/// A bit-level cursor over an immutable bit buffer, MSB-first.
pub struct BitVecReader {
    bits: Vec<bool>,
    pos: usize,
}

impl BitVecReader {
    /// The bit buffer under the cursor.
    pub closed spec fn spec_bits(&self) -> Seq<bool> {
        self.bits@
    }

    /// The cursor position, in bits from the start.
    pub closed spec fn spec_pos(&self) -> int {
        self.pos as int
    }

    /// Cursor within bounds, buffer small enough that all position
    /// arithmetic stays inside the machine word.
    pub closed spec fn wf(&self) -> bool {
        self.pos <= self.bits@.len() && self.bits@.len() < 0x2000_0000_0000_0000
    }

    /// What well-formedness gives: the cursor is in bounds and every
    /// bit position fits comfortably in the machine word.
    pub proof fn lemma_wf(&self)
        requires
            self.wf(),
        ensures
            0 <= self.spec_pos() <= self.spec_bits().len(),
            self.spec_bits().len() < 0x2000_0000_0000_0000,
    {
    }

    /// Expose the buffer for tail splicing by the serializer.
    pub fn get_inner(&self) -> (r: &Vec<bool>)
        ensures
            r@ == self.spec_bits(),
    {
        &self.bits
    }

    /// Builds the reader over the bits of `bytes`, MSB-first per byte.
    /// The length cap keeps every bit position inside the machine word.
    pub fn new(bytes: &[u8]) -> (r: BitVecReader)
        requires
            bytes@.len() <= usize::MAX / 64,
        ensures
            r.wf(),
            r.spec_bits() == bytes_to_bits(bytes@),
            r.spec_pos() == 0,
    {
        let total: usize = bytes.len() * 8;
        let mut bits: Vec<bool> = Vec::new();
        let mut j: usize = 0;
        while j < total
            invariant
                total == bytes@.len() * 8,
                bytes@.len() <= usize::MAX / 64,
                j <= total,
                bits@.len() == j,
                forall|t: int| 0 <= t < j ==> bits@[t] == bit_of_byte(bytes@[t / 8], t % 8),
            decreases total - j,
        {
            let byte = bytes[j / 8];
            let k: usize = j % 8;
            let bit = ((byte >> ((7 - k) as u8)) & 1) == 1;
            bits.push(bit);
            j += 1;
        }
        let r = BitVecReader { bits, pos: 0 };
        proof {
            assert(r.spec_bits() =~= bytes_to_bits(bytes@));
        }
        r
    }

    /// Bits left to read.
    pub fn remaining(&self) -> (r: usize)
        requires
            self.wf(),
        ensures
            r == self.spec_bits().len() - self.spec_pos(),
    {
        self.bits.len() - self.pos
    }

    /// The cursor position.
    pub fn pos(&self) -> (r: usize)
        ensures
            r == self.spec_pos(),
    {
        self.pos
    }

    /// Whether the cursor sits on a byte boundary.
    pub fn is_aligned(&self) -> (r: bool)
        ensures
            r == (self.spec_pos() % 8 == 0),
    {
        self.pos % 8 == 0
    }

    /// Reads one bit.
    pub fn get(&mut self) -> (r: Result<bool, DemuxError>)
        requires
            old(self).wf(),
        ensures
            final(self).wf(),
            final(self).spec_bits() == old(self).spec_bits(),
            match spec_read_bit(old(self).spec_bits(), old(self).spec_pos()) {
                Ok(vp) => r == Ok::<bool, DemuxError>(vp.0) && final(self).spec_pos() == vp.1,
                Err(e) => r == Err::<bool, DemuxError>(e) && *final(self) == *old(self),
            },
    {
        if self.pos < self.bits.len() {
            let b = self.bits[self.pos];
            self.pos += 1;
            Ok(b)
        } else {
            Err(DemuxError::Truncated)
        }
    }

    /// Reads `n <= 64` bits as an unsigned value, MSB-first.
    pub fn get_n(&mut self, n: usize) -> (r: Result<u64, DemuxError>)
        requires
            old(self).wf(),
            n <= 64,
        ensures
            final(self).wf(),
            final(self).spec_bits() == old(self).spec_bits(),
            match spec_read_n(old(self).spec_bits(), old(self).spec_pos(), n as int) {
                Ok(vp) => r == Ok::<u64, DemuxError>(vp.0) && final(self).spec_pos() == vp.1,
                Err(e) => r == Err::<u64, DemuxError>(e) && *final(self) == *old(self),
            },
            r matches Ok(v) ==> v < pow2(n as nat),
    {
        proof {
            lemma_read_n_bound(self.spec_bits(), self.spec_pos(), n as int);
        }
        if n > self.bits.len() - self.pos {
            return Err(DemuxError::Truncated);
        }
        let ghost bits0 = self.spec_bits();
        let ghost pos0 = self.spec_pos();
        proof {
            lemma2_to64();
            assert(bits0.subrange(pos0, pos0 + 0) =~= Seq::empty());
        }
        let mut val: u64 = 0;
        let mut i: usize = 0;
        while i < n
            invariant
                self.wf(),
                self.spec_bits() == bits0,
                self.spec_pos() == pos0,
                i <= n <= 64,
                pos0 + n <= bits0.len(),
                bits0.len() <= usize::MAX,
                val == bits_to_nat(bits0.subrange(pos0, pos0 + i)),
                val < pow2(i as nat),
            decreases n - i,
        {
            let b = self.bits[self.pos + i];
            proof {
                lemma_bits_to_nat_snoc(bits0.subrange(pos0, pos0 + i), b);
                assert(bits0.subrange(pos0, pos0 + i + 1) =~= bits0.subrange(pos0, pos0 + i).push(
                    b,
                ));
                lemma2_to64();
                vstd::arithmetic::power2::lemma2_to64_rest();
                if i < 63 {
                    lemma_pow2_strictly_increases(i as nat, 63);
                }
                lemma_pow2_unfold((i + 1) as nat);
            }
            val = val * 2 + (if b {
                1
            } else {
                0
            });
            i += 1;
        }
        self.pos += n;
        proof {
            lemma_bits_to_nat_bound(bits0.subrange(pos0, pos0 + n));
            lemma2_to64();
            if n < 64 {
                lemma_pow2_strictly_increases(n as nat, 64);
            }
        }
        Ok(val)
    }

    /// Reads an unsigned Exp-Golomb code.
    pub fn get_ue(&mut self) -> (r: Result<u64, DemuxError>)
        requires
            old(self).wf(),
        ensures
            final(self).wf(),
            final(self).spec_bits() == old(self).spec_bits(),
            match spec_read_ue(old(self).spec_bits(), old(self).spec_pos()) {
                Ok(vp) => r == Ok::<u64, DemuxError>(vp.0) && final(self).spec_pos() == vp.1,
                Err(e) => r == Err::<u64, DemuxError>(e) && *final(self) == *old(self),
            },
            r matches Ok(v) ==> v <= u64::MAX - 1,
    {
        proof {
            lemma_read_ue_ok(self.spec_bits(), self.spec_pos());
        }
        let ghost bits0 = self.spec_bits();
        let ghost pos0 = self.spec_pos();
        let len = self.bits.len();
        let mut n: usize = 0;
        while self.pos + n < len && !self.bits[self.pos + n]
            invariant
                self.wf(),
                self.spec_bits() == bits0,
                self.spec_pos() == pos0,
                len == bits0.len(),
                pos0 + n <= len,
                forall|j: int| pos0 <= j < pos0 + n ==> !bits0[j],
            decreases len - pos0 - n,
        {
            n += 1;
        }
        proof {
            lemma_zero_run_char(bits0, pos0, n as int);
        }
        if self.pos + n == len {
            return Err(DemuxError::Truncated);
        }
        if n > 63 {
            return Err(DemuxError::Malformed);
        }
        if len - (self.pos + n + 1) < n {
            return Err(DemuxError::Truncated);
        }
        self.pos = self.pos + n + 1;
        let t = match self.get_n(n) {
            Ok(t) => t,
            Err(e) => {
                proof {
                    assert(false);
                }
                return Err(e);
            },
        };
        proof {
            lemma_u64_pow2_no_overflow(n as nat);
            lemma_u64_shl_is_mul(1u64, n as u64);
            lemma_bits_to_nat_bound(bits0.subrange(pos0 + n + 1, pos0 + 2 * n + 1));
            lemma2_to64();
            vstd::arithmetic::power2::lemma2_to64_rest();
            if n < 63 {
                lemma_pow2_strictly_increases(n as nat, 63);
            }
        }
        let v = ((1u64 << (n as u64)) - 1) + t;
        Ok(v)
    }

    /// Reads a signed Exp-Golomb code.
    pub fn get_se(&mut self) -> (r: Result<i64, DemuxError>)
        requires
            old(self).wf(),
        ensures
            final(self).wf(),
            final(self).spec_bits() == old(self).spec_bits(),
            match spec_read_se(old(self).spec_bits(), old(self).spec_pos()) {
                Ok(vp) => r == Ok::<i64, DemuxError>(vp.0) && final(self).spec_pos() == vp.1,
                Err(e) => r == Err::<i64, DemuxError>(e) && *final(self) == *old(self),
            },
    {
        let ghost bits0 = self.spec_bits();
        let ghost pos0 = self.spec_pos();
        let k = match self.get_ue() {
            Ok(k) => k,
            Err(e) => {
                return Err(e);
            },
        };
        proof {
            lemma_read_ue_ok(bits0, pos0);
        }
        if k % 2 == 1 {
            Ok(((k / 2) + 1) as i64)
        } else {
            Ok(-((k / 2) as i64))
        }
    }

    /// Discards `n` bits, as consuming a block's declared padding.
    pub fn skip(&mut self, n: usize) -> (r: Result<(), DemuxError>)
        requires
            old(self).wf(),
        ensures
            final(self).wf(),
            final(self).spec_bits() == old(self).spec_bits(),
            if old(self).spec_pos() + n <= old(self).spec_bits().len() {
                r == Ok::<(), DemuxError>(()) && final(self).spec_pos() == old(self).spec_pos()
                    + n
            } else {
                r == Err::<(), DemuxError>(DemuxError::Truncated) && *final(self) == *old(self)
            },
    {
        if self.bits.len() - self.pos < n {
            return Err(DemuxError::Truncated);
        }
        self.pos = self.pos + n;
        Ok(())
    }

    /// Discards bits until the cursor sits on a byte boundary.
    pub fn align_to_byte(&mut self) -> (r: Result<(), DemuxError>)
        requires
            old(self).wf(),
        ensures
            final(self).wf(),
            final(self).spec_bits() == old(self).spec_bits(),
            ({
                let up = old(self).spec_pos() + ((8 - old(self).spec_pos() % 8) % 8);
                if up <= old(self).spec_bits().len() {
                    r == Ok::<(), DemuxError>(()) && final(self).spec_pos() == up
                } else {
                    r == Err::<(), DemuxError>(DemuxError::Truncated) && *final(self) == *old(
                        self,
                    )
                }
            }),
    {
        let pad = (8 - self.pos % 8) % 8;
        if self.bits.len() - self.pos < pad {
            return Err(DemuxError::Truncated);
        }
        self.pos = self.pos + pad;
        Ok(())
    }
}

} // verus!
