//! Shared building blocks: the error taxonomy, big-endian byte helpers,
//! fixed-width address types, the DSCP/ECN field codecs and the RFC 1071
//! Internet checksum.

use vstd::prelude::*;
use vstd::arithmetic::div_mod::{
    lemma_fundamental_div_mod, lemma_mod_multiples_vanish, lemma_small_mod,
    lemma_add_mod_noop_right,
};

verus! {

/// Why a decode or recalculation request was rejected.
#[derive(Clone, Copy, Debug, PartialEq, Eq, Structural)]
pub enum DecodeError {
    /// The buffer is shorter than a fixed minimum or than a length field demands.
    LengthError,
    /// The IP version nibble does not match the protocol being decoded.
    InvalidVersion,
    /// A closed enum-coded field holds a value outside its legal set.
    InvalidFieldValue,
    /// The next-level protocol number has no decoder in this library.
    UnsupportedProtocol(u8),
    /// Caller-supplied inputs are inconsistent with each other.
    InvalidArgument,
}

/// The view of a fallible decode result: the decoded structure's view on
/// success, the error unchanged on failure.
pub open spec fn res_view<T: View>(r: Result<T, DecodeError>) -> Result<T::V, DecodeError> {
    match r {
        Ok(p) => Ok(p.view()),
        Err(e) => Err(e),
    }
}

// ---------------------------------------------------------------------------
// Big-endian byte helpers
// ---------------------------------------------------------------------------

/// The value of two bytes read as a big-endian 16-bit word.
pub open spec fn spec_u16_of(hi: u8, lo: u8) -> u16 {
    (hi * 256 + lo) as u16
}

/// High byte of a 16-bit value.
pub open spec fn spec_u16_hi(x: u16) -> u8 {
    (x / 256) as u8
}

/// Low byte of a 16-bit value.
pub open spec fn spec_u16_lo(x: u16) -> u8 {
    (x % 256) as u8
}

pub fn u16_of(hi: u8, lo: u8) -> (r: u16)
    ensures
        r == spec_u16_of(hi, lo),
{
    (hi as u16) * 256 + (lo as u16)
}

pub fn u16_hi(x: u16) -> (r: u8)
    ensures
        r == spec_u16_hi(x),
{
    (x / 256) as u8
}

pub fn u16_lo(x: u16) -> (r: u8)
    ensures
        r == spec_u16_lo(x),
{
    (x % 256) as u8
}

/// Splitting a 16-bit value into bytes and reading them back is the identity.
pub proof fn lemma_u16_bytes_round_trip(x: u16)
    ensures
        spec_u16_of(spec_u16_hi(x), spec_u16_lo(x)) == x,
{
    lemma_fundamental_div_mod(x as int, 256);
}

/// Reading two bytes as a word and splitting again recovers the bytes.
pub proof fn lemma_u16_of_bytes(hi: u8, lo: u8)
    ensures
        spec_u16_hi(spec_u16_of(hi, lo)) == hi,
        spec_u16_lo(spec_u16_of(hi, lo)) == lo,
{
    let x = hi * 256 + lo;
    assert(x / 256 == hi && x % 256 == lo) by (nonlinear_arith)
        requires
            0 <= hi < 256,
            0 <= lo < 256,
            x == hi * 256 + lo,
    ;
}

/// The value of four bytes read as a big-endian 32-bit word.
pub open spec fn spec_u32_of(b0: u8, b1: u8, b2: u8, b3: u8) -> u32 {
    (b0 * 0x1000000 + b1 * 0x10000 + b2 * 0x100 + b3) as u32
}

pub open spec fn spec_u32_byte(x: u32, k: int) -> u8 {
    if k == 0 {
        (x / 0x1000000) as u8
    } else if k == 1 {
        ((x / 0x10000) % 256) as u8
    } else if k == 2 {
        ((x / 0x100) % 256) as u8
    } else {
        (x % 256) as u8
    }
}

pub fn u32_of(b0: u8, b1: u8, b2: u8, b3: u8) -> (r: u32)
    ensures
        r == spec_u32_of(b0, b1, b2, b3),
{
    (b0 as u32) * 0x1000000 + (b1 as u32) * 0x10000 + (b2 as u32) * 0x100 + (b3 as u32)
}

pub fn u32_byte(x: u32, k: usize) -> (r: u8)
    requires
        k < 4,
    ensures
        r == spec_u32_byte(x, k as int),
{
    if k == 0 {
        (x / 0x1000000) as u8
    } else if k == 1 {
        ((x / 0x10000) % 256) as u8
    } else if k == 2 {
        ((x / 0x100) % 256) as u8
    } else {
        (x % 256) as u8
    }
}

/// Splitting a 32-bit value into bytes and reading them back is the identity.
pub proof fn lemma_u32_bytes_round_trip(x: u32)
    ensures
        spec_u32_of(spec_u32_byte(x, 0), spec_u32_byte(x, 1), spec_u32_byte(x, 2), spec_u32_byte(x, 3)) == x,
{
    assert(((x / 0x1000000) as u8) * 0x1000000 + (((x / 0x10000) % 256) as u8) * 0x10000
        + (((x / 0x100) % 256) as u8) * 0x100 + ((x % 256) as u8) == x) by (nonlinear_arith);
}

// ---------------------------------------------------------------------------
// Internet checksum (RFC 1071)
// ---------------------------------------------------------------------------

/// Value of one 16-bit big-endian word.
pub open spec fn spec_word(hi: u8, lo: u8) -> int {
    hi * 256 + lo
}

/// Sum of all 16-bit big-endian words of an even-length byte sequence.
pub open spec fn spec_sum_words(s: Seq<u8>) -> int
    decreases s.len(),
{
    if s.len() < 2 {
        0
    } else {
        spec_sum_words(s.take(s.len() - 2)) + spec_word(s[s.len() - 2], s[s.len() - 1])
    }
}

/// A sequence padded with one zero byte if its length is odd.
pub open spec fn spec_checksum_padded(s: Seq<u8>) -> Seq<u8> {
    if s.len() % 2 == 1 {
        s.push(0)
    } else {
        s
    }
}

/// Folds the carries of a 32-bit accumulator back into the low 16 bits
/// until none remain.
pub open spec fn spec_fold_carries(n: int) -> int
    decreases n via spec_fold_carries_decreases
{
    if n > 0xFFFF {
        spec_fold_carries(n / 0x10000 + n % 0x10000)
    } else {
        n
    }
}

#[via_fn]
proof fn spec_fold_carries_decreases(n: int) {
    if n > 0xFFFF {
        lemma_fundamental_div_mod(n, 0x10000);
        let q = n / 0x10000;
        let r = n % 0x10000;
        assert(q >= 1) by (nonlinear_arith)
            requires
                n == 0x10000 * q + r,
                n > 0xFFFF,
                0 <= r < 0x10000,
        ;
        assert(q + r < n) by (nonlinear_arith)
            requires
                n == 0x10000 * q + r,
                q >= 1,
                r >= 0,
        ;
    }
}

/// The RFC 1071 Internet checksum of a byte sequence: the one's complement
/// of the folded 16-bit one's-complement sum, with a zero pad byte appended
/// first when the length is odd.
pub open spec fn spec_checksum(s: Seq<u8>) -> u16 {
    (0xFFFF - spec_fold_carries(spec_sum_words(spec_checksum_padded(s)))) as u16
}

pub proof fn lemma_sum_words_nonneg(s: Seq<u8>)
    ensures
        spec_sum_words(s) >= 0,
    decreases s.len(),
{
    if s.len() >= 2 {
        lemma_sum_words_nonneg(s.take(s.len() - 2));
    }
}

/// Folding computes the residue of the sum modulo 0xFFFF, in the
/// representative range [1, 0xFFFF] (0 only for a zero sum).
pub proof fn lemma_fold_carries_mod(n: int)
    requires
        n >= 0,
    ensures
        spec_fold_carries(n) == if n == 0 { 0int } else { (n - 1) % 0xFFFF + 1 },
    decreases n,
{
    if n > 0xFFFF {
        lemma_fundamental_div_mod(n, 0x10000);
        let q = n / 0x10000;
        let r = n % 0x10000;
        let m = q + r;
        assert(q >= 1) by (nonlinear_arith)
            requires
                n == 0x10000 * q + r,
                n > 0xFFFF,
                0 <= r < 0x10000,
        ;
        assert(m < n) by (nonlinear_arith)
            requires
                n == 0x10000 * q + r,
                m == q + r,
                q >= 1,
                r >= 0,
        ;
        lemma_fold_carries_mod(m);
        assert(n - 1 == 0xFFFF * q + (m - 1)) by (nonlinear_arith)
            requires
                n == 0x10000 * q + r,
                m == q + r,
        ;
        lemma_mod_multiples_vanish(q, m - 1, 0xFFFF);
    } else if n > 0 {
        lemma_small_mod((n - 1) as nat, 0xFFFF);
    }
}

pub proof fn lemma_fold_carries_bounds(n: int)
    requires
        n >= 0,
    ensures
        0 <= spec_fold_carries(n) <= 0xFFFF,
{
    lemma_fold_carries_mod(n);
}

/// Folding may be interleaved with addition: folding a partial sum before
/// adding the next word does not change the final folded value.
pub proof fn lemma_fold_carries_add(a: int, b: int)
    requires
        a >= 0,
        b >= 0,
    ensures
        spec_fold_carries(a + b) == spec_fold_carries(spec_fold_carries(a) + b),
{
    lemma_fold_carries_mod(a);
    lemma_fold_carries_bounds(a);
    let fa = spec_fold_carries(a);
    lemma_fold_carries_mod(a + b);
    lemma_fold_carries_mod(fa + b);
    if a != 0 {
        // fa - 1 == (a - 1) % 0xFFFF, so a + b - 1 and fa + b - 1 share a residue.
        lemma_add_mod_noop_right(b, a - 1, 0xFFFF);
        // (b + (a - 1) % 0xFFFF) % 0xFFFF == (b + a - 1) % 0xFFFF
        if fa + b == 0 {
            // fa >= 1 when a > 0, so this cannot happen
            assert((a - 1) % 0xFFFF >= 0);
            assert(false);
        }
    }
}

/// Adds one word to a folded accumulator and folds the carry back in.
fn checksum_fold_step(sum: u32, w: u32) -> (r: u32)
    requires
        sum <= 0xFFFF,
        w <= 0xFFFF,
    ensures
        r <= 0xFFFF,
        r == spec_fold_carries(sum + w),
{
    let t = sum + w;
    if t > 0xFFFF {
        let r = t / 0x10000 + t % 0x10000;
        proof {
            assert(spec_fold_carries(t as int) == spec_fold_carries(
                t as int / 0x10000 + t as int % 0x10000,
            ));
            assert(spec_fold_carries(r as int) == r);
        }
        r
    } else {
        t
    }
}

/// Computes the Internet checksum over `bytes`: the 16-bit big-endian words
/// are summed with end-around carry (a zero byte is appended virtually when
/// the length is odd) and the one's complement of the result is returned.
pub fn checksum(bytes: Vec<u8>) -> (r: u16)
    ensures
        r == spec_checksum(bytes@),
{
    let n = bytes.len();
    let pairs = n - n % 2;
    let mut sum: u32 = 0;
    let mut i: usize = 0;
    while i < pairs
        invariant
            i <= pairs,
            i % 2 == 0,
            pairs == n - n % 2,
            n == bytes@.len(),
            sum <= 0xFFFF,
            sum == spec_fold_carries(spec_sum_words(bytes@.take(i as int))),
        decreases pairs - i,
    {
        let w: u32 = (bytes[i] as u32) * 256 + (bytes[i + 1] as u32);
        proof {
            let pre = bytes@.take(i as int);
            let ext = bytes@.take(i + 2 as int);
            assert(ext.take(i as int) =~= pre);
            assert(ext[i as int] == bytes@[i as int]);
            assert(ext[i + 1 as int] == bytes@[i + 1 as int]);
            assert(spec_sum_words(ext) == spec_sum_words(pre) + spec_word(bytes@[i as int], bytes@[i + 1]));
            lemma_sum_words_nonneg(pre);
            lemma_fold_carries_add(spec_sum_words(pre), spec_word(bytes@[i as int], bytes@[i + 1]));
        }
        sum = checksum_fold_step(sum, w);
        i = i + 2;
    }
    let ghost padded = spec_checksum_padded(bytes@);
    if n % 2 == 1 {
        let w: u32 = (bytes[n - 1] as u32) * 256;
        proof {
            let pre = bytes@.take(pairs as int);
            assert(padded.len() == n + 1);
            assert(padded.take(n - 1 as int) =~= pre);
            assert(padded[n - 1 as int] == bytes@[n - 1 as int]);
            assert(padded[n as int] == 0);
            assert(padded.take(padded.len() as int) =~= padded);
            assert(spec_sum_words(padded) == spec_sum_words(pre) + spec_word(bytes@[n - 1 as int], 0));
            lemma_sum_words_nonneg(pre);
            lemma_fold_carries_add(spec_sum_words(pre), spec_word(bytes@[n - 1 as int], 0));
        }
        sum = checksum_fold_step(sum, w);
    } else {
        proof {
            assert(bytes@.take(pairs as int) =~= bytes@);
            assert(padded == bytes@);
        }
    }
    (0xFFFF - sum) as u16
}

/// The checksum complement law: writing the checksum of a buffer (computed
/// with its checksum field zeroed) into that zeroed 16-bit-aligned field and
/// summing again yields a checksum of zero.
pub proof fn lemma_checksum_complement(s: Seq<u8>, i: int)
    requires
        s.len() % 2 == 0,
        0 <= i,
        i % 2 == 0,
        i + 1 < s.len(),
        s[i] == 0,
        s[i + 1] == 0,
    ensures
        spec_checksum(
            s.update(i, spec_u16_hi(spec_checksum(s))).update(i + 1, spec_u16_lo(spec_checksum(s))),
        ) == 0,
{
    let c = spec_checksum(s);
    let hi = spec_u16_hi(c);
    let lo = spec_u16_lo(c);
    let s2 = s.update(i, hi).update(i + 1, lo);
    let sum = spec_sum_words(s);
    lemma_sum_words_nonneg(s);
    lemma_fold_carries_mod(sum);
    lemma_fold_carries_bounds(sum);
    let f = spec_fold_carries(sum);
    assert(spec_checksum_padded(s) == s);
    assert(c == 0xFFFF - f);
    lemma_fundamental_div_mod(c as int, 256);
    assert(spec_word(hi, lo) == c as int);
    lemma_sum_words_update2(s, i, hi, lo);
    let sum2 = spec_sum_words(s2);
    assert(sum2 == sum + c);
    // sum2 is a positive multiple of 0xFFFF
    let q = if sum == 0 { 0int } else { (sum - 1) / 0xFFFF };
    if sum == 0 {
        assert(sum2 == 0xFFFF);
    } else {
        lemma_fundamental_div_mod(sum - 1, 0xFFFF);
        assert(sum - 1 == 0xFFFF * q + (sum - 1) % 0xFFFF);
        assert(f == (sum - 1) % 0xFFFF + 1);
        assert(sum2 == 0xFFFF * q + 0xFFFF);
    }
    assert(sum2 == 0xFFFF * (q + 1)) by (nonlinear_arith)
        requires
            sum2 == 0xFFFF * q + 0xFFFF || (q == 0 && sum2 == 0xFFFF),
    ;
    assert(sum2 - 1 == 0xFFFF * (q + 1) - 1);
    assert(0xFFFF * (q + 1) - 1 == 0xFFFF * q + 0xFFFE) by (nonlinear_arith);
    lemma_mod_multiples_vanish(q, 0xFFFE, 0xFFFF);
    lemma_small_mod(0xFFFE, 0xFFFF);
    lemma_sum_words_nonneg(s2);
    lemma_fold_carries_mod(sum2);
    assert(s2.len() % 2 == 0);
    assert(spec_checksum_padded(s2) == s2);
    assert(spec_fold_carries(sum2) == 0xFFFF);
}

/// Overwriting one aligned word changes the word sum by the difference of
/// the word values.
pub proof fn lemma_sum_words_update2(s: Seq<u8>, i: int, hi: u8, lo: u8)
    requires
        s.len() % 2 == 0,
        0 <= i,
        i % 2 == 0,
        i + 1 < s.len(),
    ensures
        spec_sum_words(s.update(i, hi).update(i + 1, lo))
            == spec_sum_words(s) - spec_word(s[i], s[i + 1]) + spec_word(hi, lo),
    decreases s.len(),
{
    let t = s.update(i, hi).update(i + 1, lo);
    let l = s.len() as int;
    if i + 2 == l {
        assert(t.take(l - 2) =~= s.take(l - 2));
        assert(t[l - 2] == hi && t[l - 1] == lo);
    } else {
        let sp = s.take(l - 2);
        assert(t.take(l - 2) =~= sp.update(i, hi).update(i + 1, lo));
        lemma_sum_words_update2(sp, i, hi, lo);
        assert(t[l - 2] == s[l - 2] && t[l - 1] == s[l - 1]);
        assert(sp[i] == s[i] && sp[i + 1] == s[i + 1]);
    }
}

/// Copies a byte vector.
pub fn clone_bytes(v: &Vec<u8>) -> (r: Vec<u8>)
    ensures
        r@ == v@,
{
    let mut r: Vec<u8> = Vec::new();
    let mut i: usize = 0;
    while i < v.len()
        invariant
            i <= v@.len(),
            r@ =~= v@.take(i as int),
        decreases v@.len() - i,
    {
        r.push(v[i]);
        i = i + 1;
    }
    proof {
        assert(v@.take(v@.len() as int) =~= v@);
    }
    r
}

/// A region of `b` that holds a concatenation splits into its two parts.
pub proof fn lemma_concat_region(b: Seq<u8>, i: int, first: Seq<u8>, second: Seq<u8>)
    requires
        0 <= i,
        i + first.len() + second.len() <= b.len(),
        b.subrange(i, i + first.len() + second.len()) == first + second,
    ensures
        b.subrange(i, i + first.len() as int) == first,
        b.subrange(i + first.len() as int, i + first.len() + second.len()) == second,
{
    let whole = b.subrange(i, i + first.len() + second.len());
    assert forall|x: int| 0 <= x < first.len() implies b[i + x] == first[x] by {
        assert(whole[x] == b[i + x]);
        assert((first + second)[x] == first[x]);
    }
    assert(b.subrange(i, i + first.len() as int) =~= first);
    assert forall|x: int| 0 <= x < second.len() implies b[i + first.len() + x] == second[x] by {
        assert(whole[first.len() + x] == b[i + (first.len() + x)]);
        assert((first + second)[first.len() + x] == second[x]);
    }
    assert(b.subrange(i + first.len() as int, i + first.len() + second.len()) =~= second);
}

// ---------------------------------------------------------------------------
// Address types
// ---------------------------------------------------------------------------

/// A 6-byte IEEE 802 MAC address, compared only by its bytes.
#[derive(Clone, Copy, Debug)]
pub struct MacAddress {
    pub bytes: [u8; 6],
}

impl View for MacAddress {
    type V = Seq<u8>;

    open spec fn view(&self) -> Seq<u8> {
        self.bytes@
    }
}

impl DeepView for MacAddress {
    type V = Seq<u8>;

    open spec fn deep_view(&self) -> Seq<u8> {
        self.bytes@
    }
}

impl MacAddress {
    /// The all-zero address.
    pub fn new() -> (r: Self)
        ensures
            r@ =~= seq![0u8, 0u8, 0u8, 0u8, 0u8, 0u8],
    {
        MacAddress { bytes: [0u8; 6] }
    }

    /// Copies the first 6 bytes of `bytes`; fails when fewer are given.
    pub fn from_slice(bytes: &[u8]) -> (r: Result<Self, DecodeError>)
        ensures
            match r {
                Ok(m) => bytes@.len() >= 6 && m@ == bytes@.subrange(0, 6),
                Err(e) => bytes@.len() < 6 && e == DecodeError::LengthError,
            },
    {
        if bytes.len() < 6 {
            return Err(DecodeError::LengthError);
        }
        let a = MacAddress {
            bytes: [bytes[0], bytes[1], bytes[2], bytes[3], bytes[4], bytes[5]],
        };
        proof {
            assert(a@ =~= bytes@.subrange(0, 6));
        }
        Ok(a)
    }

    pub fn from_bytes(bytes: [u8; 6]) -> (r: Self)
        ensures
            r@ == bytes@,
    {
        MacAddress { bytes }
    }

    pub fn to_bytes(&self) -> (r: [u8; 6])
        ensures
            r@ == self@,
    {
        self.bytes
    }

    /// The address bytes as a fresh vector.
    pub fn to_vec(&self) -> (r: Vec<u8>)
        ensures
            r@ == self@,
    {
        let mut r: Vec<u8> = Vec::new();
        r.push(self.bytes[0]);
        r.push(self.bytes[1]);
        r.push(self.bytes[2]);
        r.push(self.bytes[3]);
        r.push(self.bytes[4]);
        r.push(self.bytes[5]);
        proof {
            assert(r@ =~= self@);
        }
        r
    }
}

/// A 4-byte IPv4 address, an opaque identifier compared only by its bytes.
#[derive(Clone, Copy, Debug)]
pub struct Ipv4Address {
    pub bytes: [u8; 4],
}

impl View for Ipv4Address {
    type V = Seq<u8>;

    open spec fn view(&self) -> Seq<u8> {
        self.bytes@
    }
}

impl DeepView for Ipv4Address {
    type V = Seq<u8>;

    open spec fn deep_view(&self) -> Seq<u8> {
        self.bytes@
    }
}

impl Ipv4Address {
    pub fn new(a: u8, b: u8, c: u8, d: u8) -> (r: Self)
        ensures
            r@ =~= seq![a, b, c, d],
    {
        Ipv4Address { bytes: [a, b, c, d] }
    }

    /// Copies the first 4 bytes of `bytes`; fails when fewer are given.
    pub fn from_slice(bytes: &[u8]) -> (r: Result<Self, DecodeError>)
        ensures
            match r {
                Ok(m) => bytes@.len() >= 4 && m@ == bytes@.subrange(0, 4),
                Err(e) => bytes@.len() < 4 && e == DecodeError::LengthError,
            },
    {
        if bytes.len() < 4 {
            return Err(DecodeError::LengthError);
        }
        let a = Ipv4Address { bytes: [bytes[0], bytes[1], bytes[2], bytes[3]] };
        proof {
            assert(a@ =~= bytes@.subrange(0, 4));
        }
        Ok(a)
    }

    pub fn octets(&self) -> (r: [u8; 4])
        ensures
            r@ == self@,
    {
        self.bytes
    }

    /// The address bytes as a fresh vector.
    pub fn to_vec(&self) -> (r: Vec<u8>)
        ensures
            r@ == self@,
    {
        let mut r: Vec<u8> = Vec::new();
        r.push(self.bytes[0]);
        r.push(self.bytes[1]);
        r.push(self.bytes[2]);
        r.push(self.bytes[3]);
        proof {
            assert(r@ =~= self@);
        }
        r
    }
}

/// A 16-byte IPv6 address, an opaque identifier compared only by its bytes.
#[derive(Clone, Copy, Debug)]
pub struct Ipv6Address {
    pub bytes: [u8; 16],
}

impl View for Ipv6Address {
    type V = Seq<u8>;

    open spec fn view(&self) -> Seq<u8> {
        self.bytes@
    }
}

impl DeepView for Ipv6Address {
    type V = Seq<u8>;

    open spec fn deep_view(&self) -> Seq<u8> {
        self.bytes@
    }
}

impl Ipv6Address {
    /// The all-zero address.
    pub fn new() -> (r: Self)
        ensures
            r@.len() == 16,
            forall|i: int| 0 <= i < 16 ==> r@[i] == 0,
    {
        Ipv6Address { bytes: [0u8; 16] }
    }

    /// Copies the first 16 bytes of `bytes`; fails when fewer are given.
    pub fn from_slice(bytes: &[u8]) -> (r: Result<Self, DecodeError>)
        ensures
            match r {
                Ok(m) => bytes@.len() >= 16 && m@ == bytes@.subrange(0, 16),
                Err(e) => bytes@.len() < 16 && e == DecodeError::LengthError,
            },
    {
        if bytes.len() < 16 {
            return Err(DecodeError::LengthError);
        }
        let a = Ipv6Address {
            bytes: [
                bytes[0], bytes[1], bytes[2], bytes[3], bytes[4], bytes[5], bytes[6], bytes[7],
                bytes[8], bytes[9], bytes[10], bytes[11], bytes[12], bytes[13], bytes[14],
                bytes[15],
            ],
        };
        proof {
            assert(a@ =~= bytes@.subrange(0, 16));
        }
        Ok(a)
    }

    pub fn from_bytes(bytes: [u8; 16]) -> (r: Self)
        ensures
            r@ == bytes@,
    {
        Ipv6Address { bytes }
    }

    pub fn octets(&self) -> (r: [u8; 16])
        ensures
            r@ == self@,
    {
        self.bytes
    }

    /// The address bytes as a fresh vector.
    pub fn to_vec(&self) -> (r: Vec<u8>)
        ensures
            r@ == self@,
    {
        let mut r: Vec<u8> = Vec::new();
        let b = self.bytes;
        let mut i: usize = 0;
        while i < 16
            invariant
                i <= 16,
                b@ == self@,
                r@ =~= self@.take(i as int),
            decreases 16 - i,
        {
            r.push(b[i]);
            i = i + 1;
        }
        proof {
            assert(r@ =~= self@);
        }
        r
    }
}

/// An IP address of either family, used where a caller may supply one or
/// the other (the UDP pseudo-header).
#[derive(Clone, Copy, Debug)]
pub enum IpAddress {
    V4(Ipv4Address),
    V6(Ipv6Address),
}

// ---------------------------------------------------------------------------
// DSCP and ECN field codecs
// ---------------------------------------------------------------------------

/// Differentiated Services Code Point: a closed set of 6-bit code points.
#[derive(Clone, Copy, Debug, PartialEq, Eq, Structural)]
pub enum DscpType {
    /// Normal traffic
    CS0,
    /// Low priority
    CS1,
    /// Network control: SNMP, SSH, SCP, RDP and similar
    CS2,
    /// Audio streaming
    CS3,
    /// Video streaming
    CS4,
    /// Connection control messages: SIP, H.323 and similar
    CS5,
    /// Network control, high priority
    CS6,
    /// Network management: ICMP, OSPF, IGMP and similar
    CS7,
    /// VoIP, low latency
    EF,
}

impl DscpType {
    /// The decoding of a 6-bit DSCP field; values outside the closed legal
    /// set are rejected.
    pub open spec fn spec_from_bits(value: u8) -> Result<DscpType, DecodeError> {
        if value == 0 {
            Ok(DscpType::CS0)
        } else if value == 8 {
            Ok(DscpType::CS1)
        } else if value == 16 {
            Ok(DscpType::CS2)
        } else if value == 24 {
            Ok(DscpType::CS3)
        } else if value == 32 {
            Ok(DscpType::CS4)
        } else if value == 40 {
            Ok(DscpType::CS5)
        } else if value == 48 {
            Ok(DscpType::CS6)
        } else if value == 56 {
            Ok(DscpType::CS7)
        } else if value == 46 {
            Ok(DscpType::EF)
        } else {
            Err(DecodeError::InvalidFieldValue)
        }
    }

    pub open spec fn spec_to_bits(self) -> u8 {
        match self {
            DscpType::CS0 => 0,
            DscpType::CS1 => 8,
            DscpType::CS2 => 16,
            DscpType::CS3 => 24,
            DscpType::CS4 => 32,
            DscpType::CS5 => 40,
            DscpType::CS6 => 48,
            DscpType::CS7 => 56,
            DscpType::EF => 46,
        }
    }

    pub fn from_bits(value: u8) -> (r: Result<Self, DecodeError>)
        ensures
            r == Self::spec_from_bits(value),
    {
        match value {
            0 => Ok(DscpType::CS0),
            8 => Ok(DscpType::CS1),
            16 => Ok(DscpType::CS2),
            24 => Ok(DscpType::CS3),
            32 => Ok(DscpType::CS4),
            40 => Ok(DscpType::CS5),
            48 => Ok(DscpType::CS6),
            56 => Ok(DscpType::CS7),
            46 => Ok(DscpType::EF),
            _ => Err(DecodeError::InvalidFieldValue),
        }
    }

    pub fn to_bits(&self) -> (r: u8)
        ensures
            r == self.spec_to_bits(),
    {
        match self {
            DscpType::CS0 => 0,
            DscpType::CS1 => 8,
            DscpType::CS2 => 16,
            DscpType::CS3 => 24,
            DscpType::CS4 => 32,
            DscpType::CS5 => 40,
            DscpType::CS6 => 48,
            DscpType::CS7 => 56,
            DscpType::EF => 46,
        }
    }
}

/// Encoding then decoding any DSCP code point is the identity.
pub proof fn lemma_dscp_round_trip(d: DscpType)
    ensures
        DscpType::spec_from_bits(d.spec_to_bits()) == Ok::<DscpType, DecodeError>(d),
{
}

/// Decoding a legal DSCP bit pattern then re-encoding yields the same bits.
pub proof fn lemma_dscp_bits_round_trip(value: u8)
    requires
        DscpType::spec_from_bits(value) is Ok,
    ensures
        DscpType::spec_from_bits(value)->Ok_0.spec_to_bits() == value,
{
}

/// Explicit Congestion Notification: the four 2-bit code points.
#[derive(Clone, Copy, Debug, PartialEq, Eq, Structural)]
pub enum EcnType {
    NotECT,
    ECT0,
    ECT1,
    CE,
}

impl EcnType {
    /// The decoding of a 2-bit ECN field; wider values are rejected.
    pub open spec fn spec_from_bits(value: u8) -> Result<EcnType, DecodeError> {
        if value == 0 {
            Ok(EcnType::NotECT)
        } else if value == 1 {
            Ok(EcnType::ECT1)
        } else if value == 2 {
            Ok(EcnType::ECT0)
        } else if value == 3 {
            Ok(EcnType::CE)
        } else {
            Err(DecodeError::InvalidFieldValue)
        }
    }

    pub open spec fn spec_to_bits(self) -> u8 {
        match self {
            EcnType::NotECT => 0,
            EcnType::ECT1 => 1,
            EcnType::ECT0 => 2,
            EcnType::CE => 3,
        }
    }

    pub fn from_bits(value: u8) -> (r: Result<Self, DecodeError>)
        ensures
            r == Self::spec_from_bits(value),
    {
        match value {
            0 => Ok(EcnType::NotECT),
            1 => Ok(EcnType::ECT1),
            2 => Ok(EcnType::ECT0),
            3 => Ok(EcnType::CE),
            _ => Err(DecodeError::InvalidFieldValue),
        }
    }

    pub fn to_bits(&self) -> (r: u8)
        ensures
            r == self.spec_to_bits(),
    {
        match self {
            EcnType::NotECT => 0,
            EcnType::ECT1 => 1,
            EcnType::ECT0 => 2,
            EcnType::CE => 3,
        }
    }
}

/// Encoding then decoding any ECN code point is the identity.
pub proof fn lemma_ecn_round_trip(e: EcnType)
    ensures
        EcnType::spec_from_bits(e.spec_to_bits()) == Ok::<EcnType, DecodeError>(e),
{
}

} // verus!
