//! Unsigned integers as big-endian byte strings: the minimal form that the
//! canonical encoding asks for, and the fixed 256-bit form.

use vstd::prelude::*;
use crate::error::DecoderError;

verus! {

/// The number that a big-endian byte string stands for.
pub open spec fn be_value(bytes: Seq<u8>) -> nat
    decreases bytes.len(),
{
    if bytes.len() == 0 {
        0
    } else {
        be_value(bytes.drop_last()) * 256 + bytes.last() as nat
    }
}

/// The shortest big-endian byte string that stands for `n`: it has no
/// leading zero byte, and it is empty for zero.
pub open spec fn minimal_be(n: nat) -> Seq<u8>
    decreases n,
{
    if n == 0 {
        Seq::empty()
    } else {
        minimal_be(n / 256).push((n % 256) as u8)
    }
}

/// A byte string without its leading zero bytes.
pub open spec fn trim(bytes: Seq<u8>) -> Seq<u8>
    decreases bytes.len(),
{
    if bytes.len() > 0 && bytes[0] == 0 {
        trim(bytes.drop_first())
    } else {
        bytes
    }
}

/// A byte string of at most `width` bytes, filled up to `width` bytes with
/// zero bytes in front.
pub open spec fn pad(bytes: Seq<u8>, width: nat) -> Seq<u8> {
    Seq::new((width - bytes.len()) as nat, |i: int| 0u8) + bytes
}

/// Whether a byte string has no leading zero byte.
pub open spec fn is_minimal(bytes: Seq<u8>) -> bool {
    bytes.len() == 0 || bytes[0] != 0
}

/// 256 to the power of `k`.
pub open spec fn pow256(k: nat) -> nat
    decreases k,
{
    if k == 0 {
        1
    } else {
        256 * pow256((k - 1) as nat)
    }
}

/// What reading an unsigned integer of `width` bytes from a byte string
/// gives: the string may not be longer than `width` nor start with a zero
/// byte.
pub open spec fn uint_outcome(bytes: Seq<u8>, width: nat) -> Result<nat, DecoderError> {
    if bytes.len() > width {
        Err(DecoderError::RlpIsTooBig)
    } else if !is_minimal(bytes) {
        Err(DecoderError::RlpInvalidIndirection)
    } else {
        Ok(be_value(bytes))
    }
}

/// The minimal form stands for the number it was made from.
pub proof fn lemma_value_of_minimal(n: nat)
    ensures
        be_value(minimal_be(n)) == n,
        is_minimal(minimal_be(n)),
        n > 0 ==> minimal_be(n).len() > 0,
    decreases n,
{
    if n > 0 {
        lemma_value_of_minimal(n / 256);
        let head = minimal_be(n / 256);
        let low = (n % 256) as u8;
        assert(minimal_be(n) == head.push(low));
        assert(head.push(low).drop_last() =~= head);
        if head.len() > 0 {
            assert(head.push(low)[0] == head[0]);
        } else {
            assert(n / 256 == 0);
        }
    }
}

/// A byte string that is not empty and has no leading zero byte stands for
/// a positive number.
pub proof fn lemma_minimal_is_positive(bytes: Seq<u8>)
    requires
        bytes.len() > 0,
        bytes[0] != 0,
    ensures
        be_value(bytes) > 0,
    decreases bytes.len(),
{
    if bytes.len() > 1 {
        assert(bytes.drop_last()[0] == bytes[0]);
        lemma_minimal_is_positive(bytes.drop_last());
    } else {
        assert(bytes.last() == bytes[0]);
    }
}

/// A byte string without a leading zero byte is the minimal form of the
/// number it stands for.
pub proof fn lemma_minimal_of_value(bytes: Seq<u8>)
    requires
        is_minimal(bytes),
    ensures
        minimal_be(be_value(bytes)) == bytes,
    decreases bytes.len(),
{
    if bytes.len() > 0 {
        let head = bytes.drop_last();
        let low = bytes.last();
        let n = be_value(bytes);
        lemma_minimal_is_positive(bytes);
        if head.len() > 0 {
            assert(head[0] == bytes[0]);
        }
        lemma_minimal_of_value(head);
        assert(n / 256 == be_value(head) && n % 256 == low as nat);
        assert(head.push(low) =~= bytes);
    }
}

/// A byte string of `k` bytes stands for a number below 256 to the `k`.
pub proof fn lemma_value_bound(bytes: Seq<u8>)
    ensures
        be_value(bytes) < pow256(bytes.len()),
    decreases bytes.len(),
{
    if bytes.len() > 0 {
        lemma_value_bound(bytes.drop_last());
    }
}

/// The minimal form of a number below 256 to the `k` has at most `k` bytes.
pub proof fn lemma_minimal_len(n: nat, k: nat)
    requires
        n < pow256(k),
    ensures
        minimal_be(n).len() <= k,
    decreases n,
{
    if n > 0 {
        assert(k > 0);
        lemma_minimal_len(n / 256, (k - 1) as nat);
    }
}

/// A zero byte in front does not change the number.
pub proof fn lemma_value_leading_zero(bytes: Seq<u8>)
    requires
        bytes.len() > 0,
        bytes[0] == 0,
    ensures
        be_value(bytes) == be_value(bytes.drop_first()),
    decreases bytes.len(),
{
    if bytes.len() > 1 {
        let head = bytes.drop_last();
        assert(head[0] == 0);
        lemma_value_leading_zero(head);
        assert(head.drop_first() =~= bytes.drop_first().drop_last());
        assert(bytes.drop_first().last() == bytes.last());
        assert(be_value(bytes) == be_value(head) * 256 + bytes.last() as nat);
        assert(be_value(bytes.drop_first()) == be_value(head.drop_first()) * 256
            + bytes.last() as nat);
    } else {
        assert(bytes.last() == 0);
        assert(be_value(bytes.drop_first()) == 0);
        assert(be_value(bytes.drop_last()) == 0);
    }
}

/// Trimming keeps the number and gives its minimal form.
pub proof fn lemma_trim_is_minimal(bytes: Seq<u8>)
    ensures
        is_minimal(trim(bytes)),
        trim(bytes).len() <= bytes.len(),
        be_value(trim(bytes)) == be_value(bytes),
        trim(bytes) == minimal_be(be_value(bytes)),
    decreases bytes.len(),
{
    if bytes.len() > 0 && bytes[0] == 0 {
        lemma_trim_is_minimal(bytes.drop_first());
        lemma_value_leading_zero(bytes);
    } else {
        lemma_minimal_of_value(bytes);
    }
}

/// Padding a trimmed string gives the string back.
pub proof fn lemma_pad_of_trim(bytes: Seq<u8>)
    ensures
        pad(trim(bytes), bytes.len()) == bytes,
    decreases bytes.len(),
{
    lemma_trim_is_minimal(bytes);
    if bytes.len() > 0 && bytes[0] == 0 {
        let tail = bytes.drop_first();
        lemma_pad_of_trim(tail);
        lemma_trim_is_minimal(tail);
        assert(pad(trim(bytes), bytes.len()) =~= seq![0u8] + pad(trim(tail), tail.len()));
        assert(seq![0u8] + tail =~= bytes);
    } else {
        assert(pad(bytes, bytes.len()) =~= bytes);
    }
}

/// Trimming a padded string without a leading zero byte gives the string
/// back.
pub proof fn lemma_trim_of_pad(bytes: Seq<u8>, width: nat)
    requires
        is_minimal(bytes),
        bytes.len() <= width,
    ensures
        trim(pad(bytes, width)) == bytes,
    decreases width - bytes.len(),
{
    if bytes.len() < width {
        let padded = pad(bytes, width);
        assert(padded[0] == 0);
        assert(padded.drop_first() =~= pad(bytes, (width - 1) as nat));
        lemma_trim_of_pad(bytes, (width - 1) as nat);
    } else {
        assert(pad(bytes, width) =~= bytes);
    }
}

/// The minimal big-endian form of a 64-bit number.
pub fn minimal_be_u64(x: u64) -> (out: Vec<u8>)
    ensures
        out@ == minimal_be(x as nat),
        out@.len() <= 8,
{
    let mut out: Vec<u8> = Vec::new();
    let mut rest: u64 = x;
    while rest > 0
        invariant
            minimal_be(x as nat) == minimal_be(rest as nat) + out@,
        decreases rest,
    {
        let low: u8 = (rest % 256) as u8;
        proof {
            let head = minimal_be((rest / 256) as nat);
            assert(minimal_be(rest as nat) == head.push(low));
            assert(head.push(low) + out@ =~= head + out@.insert(0, low));
        }
        out.insert(0, low);
        rest = rest / 256;
    }
    proof {
        assert(minimal_be(0) + out@ =~= out@);
        lemma_pow256_widths();
        lemma_minimal_len(x as nat, 8);
    }
    out
}

/// A byte string without its leading zero bytes.
pub fn trim_leading_zeros(bytes: &[u8]) -> (out: Vec<u8>)
    ensures
        out@ == trim(bytes@),
{
    let mut start: usize = 0;
    proof {
        assert(bytes@.skip(0) =~= bytes@);
    }
    while start < bytes.len() && bytes[start] == 0
        invariant
            start <= bytes.len(),
            trim(bytes@) == trim(bytes@.skip(start as int)),
        decreases bytes.len() - start,
    {
        proof {
            let tail = bytes@.skip(start as int);
            assert(tail[0] == 0);
            assert(tail.drop_first() =~= bytes@.skip(start + 1));
        }
        start = start + 1;
    }
    let mut out: Vec<u8> = Vec::new();
    let mut i: usize = start;
    while i < bytes.len()
        invariant
            start <= i <= bytes.len(),
            out@ == bytes@.subrange(start as int, i as int),
        decreases bytes.len() - i,
    {
        out.push(bytes[i]);
        proof {
            assert(out@ =~= bytes@.subrange(start as int, i + 1));
        }
        i = i + 1;
    }
    proof {
        let tail = bytes@.skip(start as int);
        assert(out@ =~= tail);
        if tail.len() > 0 {
            assert(tail[0] == bytes@[start as int]);
        }
    }
    out
}

/// Reads a 64-bit number from its minimal big-endian form.
pub fn u64_from_minimal_be(bytes: &[u8]) -> (r: Result<u64, DecoderError>)
    ensures
        match r {
            Ok(x) => uint_outcome(bytes@, 8) == Ok::<nat, DecoderError>(x as nat),
            Err(e) => uint_outcome(bytes@, 8) == Err::<nat, DecoderError>(e),
        },
{
    if bytes.len() > 8 {
        return Err(DecoderError::RlpIsTooBig);
    }
    if bytes.len() > 0 && bytes[0] == 0 {
        return Err(DecoderError::RlpInvalidIndirection);
    }
    let mut acc: u64 = 0;
    let mut i: usize = 0;
    proof {
        assert(bytes@.take(0).len() == 0);
    }
    while i < bytes.len()
        invariant
            i <= bytes.len() <= 8,
            acc as nat == be_value(bytes@.take(i as int)),
        decreases bytes.len() - i,
    {
        proof {
            let next = bytes@.take(i + 1);
            assert(next.drop_last() =~= bytes@.take(i as int));
            assert(next.last() == bytes@[i as int]);
            lemma_value_bound(next);
            lemma_pow256_widths();
            lemma_pow256_monotonic(next.len(), 8);
        }
        acc = acc * 256 + bytes[i] as u64;
        i = i + 1;
    }
    proof {
        assert(bytes@.take(bytes.len() as int) =~= bytes@);
    }
    Ok(acc)
}

/// A larger exponent gives no smaller power.
pub proof fn lemma_pow256_monotonic(a: nat, b: nat)
    requires
        a <= b,
    ensures
        pow256(a) <= pow256(b),
        pow256(a) > 0,
    decreases b,
{
    if a < b {
        lemma_pow256_monotonic(a, (b - 1) as nat);
    } else if a > 0 {
        lemma_pow256_monotonic((a - 1) as nat, (a - 1) as nat);
    }
}

/// An unsigned integer of 256 bits, held as its 32 big-endian bytes.
#[derive(Debug, Clone, Copy, PartialEq, Eq)]
pub struct U256(pub [u8; 32]);

impl View for U256 {
    type V = nat;

    /// The number that the 32 bytes stand for.
    open spec fn view(&self) -> nat {
        be_value(self.0@)
    }
}

/// A byte string of at most 32 bytes, filled up to 32 bytes with zero bytes
/// in front.
pub(crate) fn left_pad_32(bytes: &[u8]) -> (out: [u8; 32])
    requires
        bytes@.len() <= 32,
    ensures
        out@ == pad(bytes@, 32),
{
    let mut out = [0u8; 32];
    let shift: usize = 32 - bytes.len();
    let mut i: usize = 0;
    while i < bytes.len()
        invariant
            i <= bytes.len() <= 32,
            shift == 32 - bytes.len(),
            forall|j: int| 0 <= j < shift ==> out@[j] == 0,
            forall|j: int| 0 <= j < i ==> out@[shift + j] == bytes@[j],
        decreases bytes.len() - i,
    {
        out[shift + i] = bytes[i];
        i = i + 1;
    }
    proof {
        assert(out@ =~= pad(bytes@, 32));
    }
    out
}

/// Padding a byte string without a leading zero byte keeps the number it
/// stands for.
pub proof fn lemma_value_of_pad(bytes: Seq<u8>, width: nat)
    requires
        is_minimal(bytes),
        bytes.len() <= width,
    ensures
        be_value(pad(bytes, width)) == be_value(bytes),
{
    lemma_trim_of_pad(bytes, width);
    lemma_trim_is_minimal(pad(bytes, width));
}

impl U256 {
    /// The number zero.
    pub fn zero() -> (r: U256)
        ensures
            r@ == 0,
            r.0@ == pad(Seq::<u8>::empty(), 32),
    {
        let empty: Vec<u8> = Vec::new();
        let r = U256(left_pad_32(empty.as_slice()));
        proof {
            lemma_value_of_pad(Seq::<u8>::empty(), 32);
        }
        r
    }

    /// The 256-bit form of a 64-bit number.
    pub fn from_u64(x: u64) -> (r: U256)
        ensures
            r@ == x as nat,
            r.0@ == pad(minimal_be(x as nat), 32),
    {
        let digits = minimal_be_u64(x);
        let r = U256(left_pad_32(digits.as_slice()));
        proof {
            lemma_value_of_minimal(x as nat);
            lemma_value_of_pad(digits@, 32);
        }
        r
    }

    /// The number that 32 big-endian bytes stand for.
    pub fn from_big_endian(bytes: &[u8; 32]) -> (r: U256)
        ensures
            r.0 == *bytes,
            r@ == be_value(bytes@),
    {
        U256(*bytes)
    }

    /// The number as 32 big-endian bytes, zero-padded in front.
    pub fn to_big_endian(&self) -> (out: [u8; 32])
        ensures
            out == self.0,
            be_value(out@) == self@,
    {
        self.0
    }

    /// The minimal big-endian form of the number.
    pub fn to_minimal_be(&self) -> (out: Vec<u8>)
        ensures
            out@ == minimal_be(self@),
            out@.len() <= 32,
    {
        proof {
            lemma_trim_is_minimal(self.0@);
        }
        trim_leading_zeros(self.0.as_slice())
    }

    /// Reads the number from its minimal big-endian form.
    pub fn from_minimal_be(bytes: &[u8]) -> (r: Result<U256, DecoderError>)
        ensures
            match r {
                Ok(x) => uint_outcome(bytes@, 32) == Ok::<nat, DecoderError>(x@) && x.0@ == pad(
                    bytes@,
                    32,
                ),
                Err(e) => uint_outcome(bytes@, 32) == Err::<nat, DecoderError>(e),
            },
    {
        if bytes.len() > 32 {
            return Err(DecoderError::RlpIsTooBig);
        }
        if bytes.len() > 0 && bytes[0] == 0 {
            return Err(DecoderError::RlpInvalidIndirection);
        }
        proof {
            lemma_value_of_pad(bytes@, 32);
        }
        Ok(U256(left_pad_32(bytes)))
    }
}

/// Two 256-bit integers that stand for the same number are the same.
pub proof fn lemma_u256_view_injective(a: U256, b: U256)
    requires
        a@ == b@,
    ensures
        a == b,
{
    lemma_trim_is_minimal(a.0@);
    lemma_trim_is_minimal(b.0@);
    lemma_pad_of_trim(a.0@);
    lemma_pad_of_trim(b.0@);
    assert(a.0@ == b.0@);
    assert(a.0 =~= b.0);
}

/// A 256-bit integer is below 256 to the 32, and its minimal form has at
/// most 32 bytes.
pub proof fn lemma_u256_bound(a: U256)
    ensures
        a@ < pow256(32),
        minimal_be(a@).len() <= 32,
        uint_outcome(minimal_be(a@), 32) == Ok::<nat, DecoderError>(a@),
{
    lemma_value_bound(a.0@);
    lemma_minimal_len(a@, 32);
    lemma_value_of_minimal(a@);
}

/// The powers of 256 that bound the integers of 8, 32 and 64 bits.
pub proof fn lemma_pow256_widths()
    ensures
        pow256(1) == 0x100,
        pow256(4) == 0x1_0000_0000,
        pow256(8) == 0x1_0000_0000_0000_0000,
{
    reveal_with_fuel(pow256, 9);
}

/// The minimal form of a number of `width` bytes reads back as the number.
pub proof fn lemma_uint_round_trip(n: nat, width: nat)
    requires
        n < pow256(width),
    ensures
        uint_outcome(minimal_be(n), width) == Ok::<nat, DecoderError>(n),
{
    lemma_value_of_minimal(n);
    lemma_minimal_len(n, width);
}

/// What was read as a number of `width` bytes is the minimal form of that
/// number, and the number is below 256 to the `width`.
pub proof fn lemma_uint_canonical(bytes: Seq<u8>, width: nat)
    requires
        uint_outcome(bytes, width) is Ok,
    ensures
        minimal_be(uint_outcome(bytes, width)->Ok_0) == bytes,
        uint_outcome(bytes, width)->Ok_0 < pow256(width),
{
    lemma_minimal_of_value(bytes);
    lemma_value_bound(bytes);
    lemma_pow256_monotonic(bytes.len(), width);
}

/// Reads a 32-bit number from its minimal big-endian form.
pub fn u32_from_minimal_be(bytes: &[u8]) -> (r: Result<u32, DecoderError>)
    ensures
        match r {
            Ok(x) => uint_outcome(bytes@, 4) == Ok::<nat, DecoderError>(x as nat),
            Err(e) => uint_outcome(bytes@, 4) == Err::<nat, DecoderError>(e),
        },
{
    if bytes.len() > 4 {
        return Err(DecoderError::RlpIsTooBig);
    }
    match u64_from_minimal_be(bytes) {
        Err(e) => Err(e),
        Ok(x) => {
            proof {
                lemma_value_bound(bytes@);
                lemma_pow256_monotonic(bytes@.len(), 4);
                lemma_pow256_widths();
            }
            Ok(x as u32)
        },
    }
}

/// Reads an 8-bit number from its minimal big-endian form.
pub fn u8_from_minimal_be(bytes: &[u8]) -> (r: Result<u8, DecoderError>)
    ensures
        match r {
            Ok(x) => uint_outcome(bytes@, 1) == Ok::<nat, DecoderError>(x as nat),
            Err(e) => uint_outcome(bytes@, 1) == Err::<nat, DecoderError>(e),
        },
{
    if bytes.len() > 1 {
        return Err(DecoderError::RlpIsTooBig);
    }
    match u64_from_minimal_be(bytes) {
        Err(e) => Err(e),
        Ok(x) => {
            proof {
                lemma_value_bound(bytes@);
                lemma_pow256_monotonic(bytes@.len(), 1);
                lemma_pow256_widths();
            }
            Ok(x as u8)
        },
    }
}

} // verus!
