//! The prefill device run's own logic: the golden logits' little-endian hex
//! byte stream, the bit-exact half-precision decode, the K-major weight
//! splits, the kernel assembler's buffer and launch bookkeeping, the
//! program's input buffers, the chained dependency facts of the assembled
//! program, and its receipt labels.
use vstd::prelude::*;
use vstd::arithmetic::power2::pow2;
use vstd::arithmetic::power2::lemma_pow2_adds;
use vstd::arithmetic::power2::lemma2_to64;
use vstd::arithmetic::power2::lemma_pow2_strictly_increases;
use vstd::bits::lemma_u32_shl_is_mul;
use crate::device::program::ResourceKind;
use crate::device::schema::Binding;
use crate::device::schema::BufferIdentity;
use crate::device::schema::BufferLifetime;
use crate::device::schema::BufferRole;
use crate::device::schema::BufferVersion;
use crate::device::schema::DependencyEdge;
use crate::device::schema::DeviceProgram;
use crate::device::schema::DeviceSemantics;
use crate::device::schema::DeviceResource;
use crate::device::schema::KernelLaunchPlan;
use crate::device::schema::KernelPlan;
use crate::device::schema::KernelUnit;
use crate::device::schema::LaunchUnit;
use crate::device::schema::ReducedProjection;
use crate::device::schema::ResourceAccess;
use crate::device::schema::ResultBuffer;
use crate::device::schema::StorageLayout;
use crate::device::facts::roots_of;
use crate::device::facts::root_launches;
use crate::device::wire::WireDeviceProgram;
use crate::device::wire::WireDeviceResource;
use crate::device::wire::WireKernelUnit;
use crate::naming::decimal;
use crate::naming::decimal_text;
use crate::naming::owned;
use crate::naming::text_eq;

verus! {

broadcast use vstd::string::group_string_axioms;

/// The hidden width of the pinned row.
pub const HIDDEN_SIZE: u64 = 960;
/// The query head count.
pub const HEAD_COUNT: u64 = 15;
/// The key/value head count.
pub const KV_HEAD_COUNT: u64 = 5;
/// The per-head width.
pub const HEAD_DIM: u64 = 64;
/// The feed-forward hidden width.
pub const FFN_SIZE: u64 = 2560;
/// The vocabulary size.
pub const VOCAB_SIZE: u64 = 49152;
/// The pinned prompt's token count.
pub const PROMPT_TOKEN_COUNT: u64 = 9;
/// The decoder layer count.
pub const LAYER_COUNT: u64 = 32;

/// Why a little-endian hex byte stream was refused.
#[derive(Clone, Copy, Debug, PartialEq, Eq, Structural)]
pub enum HexError {
    /// The stream has an odd number of characters.
    OddLength,
    /// A two-character pair is not a hexadecimal byte.
    Malformed,
    /// The decoded byte count is not a multiple of four.
    NotWords { bytes: usize },
}

/// The value of one hexadecimal digit, when the byte is one.
pub open spec fn hex_digit(b: u8) -> Option<int> {
    if 48 <= b <= 57 {
        Some(b - 48)
    } else if 97 <= b <= 102 {
        Some(b - 87)
    } else if 65 <= b <= 70 {
        Some(b - 55)
    } else {
        None
    }
}

/// The byte a two-character pair spells in base 16: two digits, or a `+`
/// sign before a single digit.
pub open spec fn pair_value(hi: u8, lo: u8) -> Option<int> {
    if hi == 43 {
        hex_digit(lo)
    } else {
        match (hex_digit(hi), hex_digit(lo)) {
            (Some(h), Some(l)) => Some(h * 16 + l),
            _ => None,
        }
    }
}

/// Whether no pair of the stream starts inside a multi-byte character.
pub open spec fn pairs_on_boundaries(s: Seq<u8>) -> bool {
    forall|i: int| 0 <= i < s.len() && i % 2 == 0 ==> !(0x80 <= #[trigger] s[i] < 0xc0)
}

/// Whether every pair of the stream spells a byte.
pub open spec fn all_pairs_valid(s: Seq<u8>) -> bool {
    forall|k: int| 0 <= k < s.len() / 2 ==> (#[trigger] pair_value(s[2 * k], s[2 * k + 1])) is Some
}

/// The bytes the pairs of a stream spell.
pub open spec fn pair_bytes(s: Seq<u8>) -> Seq<int> {
    Seq::new(s.len() / 2, |k: int| pair_value(s[2 * k], s[2 * k + 1]).unwrap())
}

/// The little-endian word of four bytes starting at byte `4 * w`.
pub open spec fn le_word(bytes: Seq<int>, w: int) -> int {
    bytes[4 * w] + 256 * bytes[4 * w + 1] + 65536 * bytes[4 * w + 2] + 16777216 * bytes[4 * w + 3]
}

/// What a hex byte stream decodes to: the refusal for an odd length, a
/// malformed pair, or a byte count that is not a multiple of four; else the
/// little-endian 32-bit words of the bytes, in order.
pub open spec fn hex_words_of(s: Seq<u8>) -> Result<Seq<u32>, HexError> {
    if s.len() % 2 != 0 {
        Err(HexError::OddLength)
    } else if !all_pairs_valid(s) {
        Err(HexError::Malformed)
    } else if (s.len() / 2) % 4 != 0 {
        Err(HexError::NotWords { bytes: (s.len() / 2) as usize })
    } else {
        Ok(Seq::new(s.len() / 8, |w: int| le_word(pair_bytes(s), w) as u32))
    }
}

fn digit_of(b: u8) -> (r: Option<u8>)
    ensures
        match hex_digit(b) {
            Some(d) => r == Some(d as u8),
            None => r is None,
        },
{
    if 48 <= b && b <= 57 {
        Some(b - 48)
    } else if 97 <= b && b <= 102 {
        Some(b - 87)
    } else if 65 <= b && b <= 70 {
        Some(b - 55)
    } else {
        None
    }
}

fn pair_byte(hi: u8, lo: u8) -> (r: Option<u8>)
    ensures
        match pair_value(hi, lo) {
            Some(v) => r == Some(v as u8) && 0 <= v < 256,
            None => r is None,
        },
{
    if hi == 43 {
        digit_of(lo)
    } else {
        match (digit_of(hi), digit_of(lo)) {
            (Some(h), Some(l)) => Some(h * 16 + l),
            _ => None,
        }
    }
}

/// Decode a golden's little-endian hex byte stream (the UTF-8 bytes of the
/// text) into 32-bit words. Each pair of characters is one byte in base 16;
/// the stream must hold whole words.
pub fn hex_le_words(hex: &[u8]) -> (r: Result<Vec<u32>, HexError>)
    requires
        hex@.len() % 2 == 0 ==> pairs_on_boundaries(hex@),
    ensures
        match (r, hex_words_of(hex@)) {
            (Ok(words), Ok(spec)) => words@ == spec,
            (Err(e), Err(spec)) => e == spec,
            _ => false,
        },
{
    if hex.len() % 2 != 0 {
        return Err(HexError::OddLength);
    }
    let ghost s = hex@;
    let n = hex.len() / 2;
    let mut bytes: Vec<u8> = Vec::new();
    let mut k: usize = 0;
    while k < n
        invariant
            n == s.len() / 2,
            s.len() % 2 == 0,
            s == hex@,
            k <= n,
            bytes@.len() == k,
            forall|j: int| 0 <= j < k ==> (#[trigger] pair_value(s[2 * j], s[2 * j + 1])) is Some,
            forall|j: int| 0 <= j < k ==> bytes@[j] == pair_value(s[2 * j], s[2 * j + 1]).unwrap(),
        decreases n - k,
    {
        assert(2 * k + 1 < hex.len());
        match pair_byte(hex[2 * k], hex[2 * k + 1]) {
            Some(b) => {
                bytes.push(b);
            },
            None => {
                assert(!all_pairs_valid(s)) by {
                    assert(pair_value(s[2 * (k as int)], s[2 * (k as int) + 1]) is None);
                }
                return Err(HexError::Malformed);
            },
        }
        k = k + 1;
    }
    assert(all_pairs_valid(s));
    if n % 4 != 0 {
        return Err(HexError::NotWords { bytes: n });
    }
    let ghost pb = pair_bytes(s);
    let count = n / 4;
    let mut words: Vec<u32> = Vec::new();
    let mut w: usize = 0;
    while w < count
        invariant
            count == s.len() / 8,
            n == s.len() / 2,
            n == 4 * count,
            pb == pair_bytes(s),
            bytes@.len() == n,
            forall|j: int| 0 <= j < n ==> bytes@[j] == pb[j],
            w <= count,
            words@ == Seq::new(w as nat, |x: int| le_word(pb, x) as u32),
        decreases count - w,
    {
        let b0 = bytes[4 * w] as u32;
        let b1 = bytes[4 * w + 1] as u32;
        let b2 = bytes[4 * w + 2] as u32;
        let b3 = bytes[4 * w + 3] as u32;
        let word = b0 + 256 * b1 + 65536 * b2 + 16777216 * b3;
        assert(word == le_word(pb, w as int));
        words.push(word);
        w = w + 1;
        assert(words@ =~= Seq::new(w as nat, |x: int| le_word(pb, x) as u32));
    }
    Ok(words)
}

/// The sign bit of a half-precision value.
pub open spec fn half_sign(bits: u16) -> u16 {
    bits >> 15u16
}

/// The exponent field of a half-precision value.
pub open spec fn half_exponent(bits: u16) -> u16 {
    (bits >> 10u16) & 0x1fu16
}

/// The fraction field of a half-precision value.
pub open spec fn half_fraction(bits: u16) -> u16 {
    bits & 0x3ffu16
}

/// The magnitude of a finite half-precision value, times 2^150: a
/// subnormal is `fraction * 2^-24`, a normal `(1 + fraction / 2^10) *
/// 2^(exponent - 15)`.
pub open spec fn half_magnitude(bits: u16) -> nat {
    let exp = half_exponent(bits) as nat;
    let frac = half_fraction(bits) as nat;
    if exp == 0 {
        frac * pow2(126)
    } else {
        (1024 + frac) * pow2(exp + 125)
    }
}

/// The exponent field of a single-precision value.
pub open spec fn single_exponent(bits: u32) -> u32 {
    (bits >> 23u32) & 0xffu32
}

/// The mantissa field of a single-precision value.
pub open spec fn single_mantissa(bits: u32) -> u32 {
    bits & 0x7fffffu32
}

/// The magnitude of a finite single-precision value, times 2^150: a
/// subnormal is `mantissa * 2^-149`, a normal `(1 + mantissa / 2^23) *
/// 2^(exponent - 127)`.
pub open spec fn single_magnitude(bits: u32) -> nat {
    let e = single_exponent(bits) as nat;
    let m = single_mantissa(bits) as nat;
    if e == 0 {
        m * 2
    } else {
        (0x800000 + m) * pow2(e)
    }
}

proof fn lemma_normal_decode(exp: nat, frac: nat)
    ensures
        (0x800000 + frac * 8192) * pow2(exp + 112) == (1024 + frac) * pow2(exp + 125),
{
    lemma_pow2_adds(exp + 112, 13);
    lemma2_to64();
    let a = pow2(exp + 112);
    assert((0x800000 + frac * 8192) * a == (1024 + frac) * (a * 8192)) by (nonlinear_arith);
}

proof fn lemma_subnormal_decode(frac: u32, p: u32)
    requires
        1 <= p <= 10,
        pow2((p - 1) as nat) <= frac < pow2(p as nat),
    ensures
        0x800000 <= frac << ((24 - p) as u32) < 0x1000000,
        (frac << ((24 - p) as u32)) * pow2((p + 102) as nat) == frac * pow2(126),
{
    let s: u32 = (24 - p) as u32;
    lemma_pow2_adds(p as nat, s as nat);
    lemma_pow2_adds((p - 1) as nat, s as nat);
    lemma_pow2_adds(s as nat, (p + 102) as nat);
    lemma2_to64();
    assert(pow2(24) == 0x1000000) by {
        vstd::arithmetic::power2::lemma2_to64_rest();
    }
    let ps = pow2(s as nat);
    assert(frac * ps < pow2(p as nat) * ps) by (nonlinear_arith)
        requires frac < pow2(p as nat), ps > 0;
    assert(pow2((p - 1) as nat) * ps <= frac * ps) by (nonlinear_arith)
        requires pow2((p - 1) as nat) <= frac;
    vstd::arithmetic::power2::lemma_pow2_pos(s as nat);
    lemma_u32_shl_is_mul(frac, s);
    assert(frac * ps * pow2((p + 102) as nat) == frac * (ps * pow2((p + 102) as nat))) by (nonlinear_arith);
}

/// The single-precision bits of a half-precision value, decoded bit-exactly:
/// the sign carries over, a finite value keeps its magnitude (a subnormal
/// half becomes a normal single), and infinities and NaNs keep their
/// fraction as the top mantissa bits.
pub fn half_to_single_bits(bits: u16) -> (r: u32)
    ensures
        r >> 31u32 == half_sign(bits) as u32,
        half_exponent(bits) != 31 ==> single_exponent(r) != 0xff && single_magnitude(r) == half_magnitude(bits),
        half_exponent(bits) == 31 ==> single_exponent(r) == 0xff && single_mantissa(r) == (half_fraction(bits) as u32) << 13u32,
{
    let sign: u32 = ((bits >> 15u16) as u32) & 1;
    let exp: u32 = ((bits >> 10u16) as u32) & 0x1f;
    let frac: u32 = (bits & 0x3ff) as u32;
    assert(sign == half_sign(bits) as u32 && exp == half_exponent(bits) as u32 && frac == half_fraction(bits) as u32) by (bit_vector)
        requires
            sign == ((bits >> 15u16) as u32) & 1,
            exp == ((bits >> 10u16) as u32) & 0x1f,
            frac == (bits & 0x3ff) as u32,
    ;
    assert(sign <= 1 && exp <= 31 && frac <= 1023) by (bit_vector)
        requires
            sign == ((bits >> 15u16) as u32) & 1,
            exp == ((bits >> 10u16) as u32) & 0x1f,
            frac == (bits & 0x3ff) as u32,
    ;
    if exp == 0 {
        if frac == 0 {
            let r = sign << 31u32;
            assert(r >> 31u32 == sign && single_exponent(r) == 0 && single_mantissa(r) == 0) by (bit_vector)
                requires r == sign << 31u32, sign <= 1;
            r
        } else {
            let lz = frac.leading_zeros();
            proof {
                vstd::std_specs::bits::axiom_u32_leading_zeros(frac);
            }
            let top: u32 = 31 - lz;
            let p: u32 = 32 - lz;
            assert((frac >> top) & 1u32 != 0u32 && frac >> p == 0);
            assert(1 <= p <= 10) by (bit_vector)
                requires
                    1 <= frac <= 1023,
                    top == p - 1,
                    1 <= p <= 32,
                    (frac >> top) & 1u32 != 0u32,
            ;
            let below: u32 = p - 1;
            assert((1u32 << below) <= frac && frac < (1u32 << p)) by (bit_vector)
                requires
                    1 <= p <= 10,
                    below == top,
                    below == p - 1,
                    (frac >> top) & 1u32 != 0u32,
                    frac >> p == 0,
            ;
            proof {
                vstd::bits::lemma_u32_pow2_no_overflow(p as nat);
                vstd::bits::lemma_u32_pow2_no_overflow(below as nat);
                lemma_u32_shl_is_mul(1, below);
                lemma_u32_shl_is_mul(1, p);
                lemma_subnormal_decode(frac, p);
            }
            let t = frac << (24 - p);
            assert(t == frac << ((24 - p) as u32));
            assert((1u32 << 23u32) == 0x800000u32) by (bit_vector);
            let m = t - (1u32 << 23u32);
            let biased: u32 = p + 102;
            let r = (sign << 31u32) | (biased << 23u32) | m;
            assert(r >> 31u32 == sign && single_exponent(r) == biased && single_mantissa(r) == m) by (bit_vector)
                requires
                    r == (sign << 31u32) | (biased << 23u32) | m,
                    sign <= 1,
                    103 <= biased <= 112,
                    m < 0x800000,
            ;
            r
        }
    } else if exp == 0x1f {
        let r = (sign << 31u32) | (0xffu32 << 23u32) | (frac << 13u32);
        assert(r >> 31u32 == sign && single_exponent(r) == 0xff && single_mantissa(r) == frac << 13u32) by (bit_vector)
            requires
                r == (sign << 31u32) | (0xffu32 << 23u32) | (frac << 13u32),
                sign <= 1,
                frac <= 1023,
        ;
        r
    } else {
        let biased: u32 = exp + 112;
        let r = (sign << 31u32) | (biased << 23u32) | (frac << 13u32);
        assert(r >> 31u32 == sign && single_exponent(r) == biased && single_mantissa(r) == frac * 8192) by (bit_vector)
            requires
                r == (sign << 31u32) | (biased << 23u32) | (frac << 13u32),
                sign <= 1,
                113 <= biased <= 142,
                frac <= 1023,
        ;
        proof {
            lemma_normal_decode(exp as nat, frac as nat);
        }
        r
    }
}

/// Head `head`'s column slice of a K-major `[in_dim, out_dim]` weight:
/// entry `k * head_dim + n` is input `k` of output column
/// `head * head_dim + n`.
pub open spec fn column_slice<T>(source: Seq<T>, in_dim: int, head_dim: int, head: int) -> Seq<T> {
    Seq::new((in_dim * head_dim) as nat, |i: int| source[i / head_dim + in_dim * (head * head_dim + i % head_dim)])
}

/// Head `head`'s row slice of a K-major `[in_dim, out_dim]` weight: entry
/// `k * out_dim + d` is input row `head * head_dim + k` of output `d`.
pub open spec fn row_slice<T>(source: Seq<T>, in_dim: int, out_dim: int, head_dim: int, head: int) -> Seq<T> {
    Seq::new((head_dim * out_dim) as nat, |i: int| source[(i % out_dim) * in_dim + head * head_dim + i / out_dim])
}

/// The row-major `[in_dim, out_dim]` layout of a K-major weight: entry
/// `k * out_dim + n` is input `k` of output `n`.
pub open spec fn transposed<T>(source: Seq<T>, in_dim: int, out_dim: int) -> Seq<T> {
    Seq::new((in_dim * out_dim) as nat, |i: int| source[i / out_dim + in_dim * (i % out_dim)])
}

proof fn lemma_split_position(k: int, n: int, width: int)
    requires
        0 <= k,
        0 <= n < width,
    ensures
        (k * width + n) / width == k,
        (k * width + n) % width == n,
{
    vstd::arithmetic::div_mod::lemma_fundamental_div_mod_converse(k * width + n, width, k, n);
}

/// Split a K-major `[in_dim, out_dim]` weight into per-head column slices
/// of `head_dim` outputs each: one slice per whole head.
pub fn split_columns<T: Copy>(source: &[T], in_dim: usize, out_dim: usize, head_dim: usize) -> (r: Vec<Vec<T>>)
    requires
        head_dim > 0,
        in_dim * ((out_dim / head_dim) * head_dim) <= source@.len(),
    ensures
        r@.len() == out_dim / head_dim,
        forall|h: int| 0 <= h < r@.len() ==> (#[trigger] r@[h])@ == column_slice(source@, in_dim as int, head_dim as int, h),
{
    let head_count = out_dim / head_dim;
    let total = source.len();
    let ghost span = head_count * head_dim;
    assert(span <= out_dim) by (nonlinear_arith)
        requires span == (out_dim / head_dim) * head_dim, head_dim > 0;
    let mut heads: Vec<Vec<T>> = Vec::new();
    let mut h: usize = 0;
    while h < head_count
        invariant
            head_count == out_dim / head_dim,
            span == head_count * head_dim,
            span <= out_dim,
            head_dim > 0,
            in_dim * span <= source@.len(),
            total == source@.len(),
            h <= head_count,
            heads@.len() == h,
            forall|x: int| 0 <= x < h ==> (#[trigger] heads@[x])@ == column_slice(source@, in_dim as int, head_dim as int, x),
        decreases head_count - h,
    {
        let mut slice: Vec<T> = Vec::new();
        let mut k: usize = 0;
        while k < in_dim
            invariant
                head_count == out_dim / head_dim,
                span == head_count * head_dim,
                span <= out_dim,
                head_dim > 0,
                in_dim * span <= source@.len(),
                total == source@.len(),
            total == source@.len(),
                h < head_count,
                k <= in_dim,
                slice@ =~= column_slice(source@, in_dim as int, head_dim as int, h as int).take(k * head_dim),
                k * head_dim <= in_dim * head_dim,
            decreases in_dim - k,
        {
            let mut n: usize = 0;
            while n < head_dim
                invariant
                    head_count == out_dim / head_dim,
                    span == head_count * head_dim,
                    span <= out_dim,
                    head_dim > 0,
                    in_dim * span <= source@.len(),
                    total == source@.len(),
                total == source@.len(),
            total == source@.len(),
                    h < head_count,
                    k < in_dim,
                    n <= head_dim,
                    slice@ =~= column_slice(source@, in_dim as int, head_dim as int, h as int).take(k * head_dim + n),
                decreases head_dim - n,
            {
                let ghost j = h * head_dim + n;
                assert(j < span && k + in_dim * j < in_dim * span) by (nonlinear_arith)
                    requires
                        j == h * head_dim + n,
                        h < head_count,
                        n < head_dim,
                        span == head_count * head_dim,
                        k < in_dim,
                ;
                assert(k * head_dim + n < in_dim * head_dim) by (nonlinear_arith)
                    requires k < in_dim, n < head_dim;
                let index = k + in_dim * (h * head_dim + n);
                proof {
                    lemma_split_position(k as int, n as int, head_dim as int);
                }
                slice.push(source[index]);
                n = n + 1;
            }
            assert((k + 1) * head_dim == k * head_dim + head_dim) by (nonlinear_arith);
            assert((k + 1) * head_dim <= in_dim * head_dim) by (nonlinear_arith)
                requires k < in_dim;
            k = k + 1;
        }
        assert(slice@ =~= column_slice(source@, in_dim as int, head_dim as int, h as int));
        heads.push(slice);
        h = h + 1;
    }
    heads
}

/// Split a K-major `[in_dim, out_dim]` weight into per-head row slices of
/// `head_dim` inputs each: one slice per whole head.
pub fn split_rows<T: Copy>(source: &[T], in_dim: usize, out_dim: usize, head_dim: usize) -> (r: Vec<Vec<T>>)
    requires
        head_dim > 0,
        in_dim / head_dim > 0 && out_dim > 0 ==> (out_dim - 1) * in_dim + (in_dim / head_dim) * head_dim <= source@.len(),
    ensures
        r@.len() == in_dim / head_dim,
        forall|h: int| 0 <= h < r@.len() ==> (#[trigger] r@[h])@ == row_slice(source@, in_dim as int, out_dim as int, head_dim as int, h),
{
    let head_count = in_dim / head_dim;
    let total = source.len();
    let ghost span = head_count * head_dim;
    let mut heads: Vec<Vec<T>> = Vec::new();
    let mut h: usize = 0;
    while h < head_count
        invariant
            head_count == in_dim / head_dim,
            span == head_count * head_dim,
            head_dim > 0,
            head_count > 0 && out_dim > 0 ==> (out_dim - 1) * in_dim + span <= source@.len(),
            total == source@.len(),
            h <= head_count,
            heads@.len() == h,
            forall|x: int| 0 <= x < h ==> (#[trigger] heads@[x])@ == row_slice(source@, in_dim as int, out_dim as int, head_dim as int, x),
        decreases head_count - h,
    {
        let mut slice: Vec<T> = Vec::new();
        let mut k: usize = 0;
        while k < head_dim
            invariant
                head_count == in_dim / head_dim,
                span == head_count * head_dim,
                head_dim > 0,
                head_count > 0 && out_dim > 0 ==> (out_dim - 1) * in_dim + span <= source@.len(),
                total == source@.len(),
                h < head_count,
                k <= head_dim,
                slice@ =~= row_slice(source@, in_dim as int, out_dim as int, head_dim as int, h as int).take(k * out_dim),
                k * out_dim <= head_dim * out_dim,
            decreases head_dim - k,
        {
            let mut d: usize = 0;
            while d < out_dim
                invariant
                    head_count == in_dim / head_dim,
                    span == head_count * head_dim,
                    head_dim > 0,
                    head_count > 0 && out_dim > 0 ==> (out_dim - 1) * in_dim + span <= source@.len(),
                    total == source@.len(),
                    h < head_count,
                    k < head_dim,
                    d <= out_dim,
                    slice@ =~= row_slice(source@, in_dim as int, out_dim as int, head_dim as int, h as int).take(k * out_dim + d),
                decreases out_dim - d,
            {
                assert(d * in_dim + (h * head_dim + k) < (out_dim - 1) * in_dim + span) by (nonlinear_arith)
                    requires
                        d < out_dim,
                        h < head_count,
                        k < head_dim,
                        span == head_count * head_dim,
                ;
                assert(k * out_dim + d < head_dim * out_dim) by (nonlinear_arith)
                    requires k < head_dim, d < out_dim;
                let index = d * in_dim + h * head_dim + k;
                proof {
                    lemma_split_position(k as int, d as int, out_dim as int);
                }
                slice.push(source[index]);
                d = d + 1;
            }
            assert((k + 1) * out_dim == k * out_dim + out_dim) by (nonlinear_arith);
            assert((k + 1) * out_dim <= head_dim * out_dim) by (nonlinear_arith)
                requires k < head_dim;
            k = k + 1;
        }
        assert(slice@ =~= row_slice(source@, in_dim as int, out_dim as int, head_dim as int, h as int));
        heads.push(slice);
        h = h + 1;
    }
    heads
}

/// Transpose a K-major `[in_dim, out_dim]` weight to the row-major layout.
pub fn transpose_kmajor<T: Copy>(source: &[T], in_dim: usize, out_dim: usize) -> (r: Vec<T>)
    requires
        in_dim * out_dim <= source@.len(),
    ensures
        r@ == transposed(source@, in_dim as int, out_dim as int),
{
    let total = source.len();
    let mut out: Vec<T> = Vec::new();
    let mut k: usize = 0;
    while k < in_dim
        invariant
            in_dim * out_dim <= source@.len(),
            total == source@.len(),
            k <= in_dim,
            out@ =~= transposed(source@, in_dim as int, out_dim as int).take(k * out_dim),
            k * out_dim <= in_dim * out_dim,
        decreases in_dim - k,
    {
        let mut n: usize = 0;
        while n < out_dim
            invariant
                in_dim * out_dim <= source@.len(),
                total == source@.len(),
                k < in_dim,
                n <= out_dim,
                out@ =~= transposed(source@, in_dim as int, out_dim as int).take(k * out_dim + n),
            decreases out_dim - n,
        {
            assert(k + in_dim * n < in_dim * out_dim && k * out_dim + n < in_dim * out_dim) by (nonlinear_arith)
                requires k < in_dim, n < out_dim;
            proof {
                lemma_split_position(k as int, n as int, out_dim as int);
            }
            out.push(source[k + in_dim * n]);
            n = n + 1;
        }
        assert((k + 1) * out_dim == k * out_dim + out_dim) by (nonlinear_arith);
        assert((k + 1) * out_dim <= in_dim * out_dim) by (nonlinear_arith)
            requires k < in_dim;
        k = k + 1;
    }
    out
}

// ---------------------------------------------------------------------------
// The kernel assembler
// ---------------------------------------------------------------------------

/// One kernel slot's buffer facts.
#[derive(Debug, PartialEq, Eq)]
pub struct BufferFacts {
    pub id: u32,
    pub name: String,
    pub role: BufferRole,
    pub lifetime: BufferLifetime,
}

impl Clone for BufferFacts {
    fn clone(&self) -> (r: Self)
        ensures
            r == *self,
    {
        BufferFacts { id: self.id, name: self.name.clone(), role: self.role, lifetime: self.lifetime }
    }
}

/// Whether facts describe a weight or prompt input: read-only, per program.
pub open spec fn is_input_facts(f: BufferFacts, id: u32, name: Seq<char>) -> bool {
    f.id == id && f.name@ == name && f.role == BufferRole::Input && f.lifetime == BufferLifetime::PerProgram
}

/// Whether facts describe an activation: in-out, per step.
pub open spec fn is_activation_facts(f: BufferFacts, id: u32, name: Seq<char>) -> bool {
    f.id == id && f.name@ == name && f.role == BufferRole::InOut && f.lifetime == BufferLifetime::PerStep
}

impl BufferFacts {
    pub fn input(id: u32, name: &str) -> (f: BufferFacts)
        ensures
            is_input_facts(f, id, name@),
    {
        BufferFacts { id, name: owned(name), role: BufferRole::Input, lifetime: BufferLifetime::PerProgram }
    }

    pub fn activation(id: u32, name: &str) -> (f: BufferFacts)
        ensures
            is_activation_facts(f, id, name@),
    {
        BufferFacts { id, name: owned(name), role: BufferRole::InOut, lifetime: BufferLifetime::PerStep }
    }

    /// The program identity of the buffer: device-resident storage.
    pub fn identity(&self) -> (b: BufferIdentity)
        ensures
            b.id == self.id,
            b.name@ == self.name@,
            b.role == self.role,
            b.storage == StorageLayout::DeviceHandle,
            b.lifetime == self.lifetime,
    {
        BufferIdentity {
            id: self.id,
            name: self.name.clone(),
            role: self.role,
            storage: StorageLayout::DeviceHandle,
            lifetime: self.lifetime,
        }
    }
}

/// The registry of inputs as (id, name) rows.
pub open spec fn registry(known: Seq<BufferFacts>) -> Seq<(u32, Seq<char>)> {
    known.map_values(|f: BufferFacts| (f.id, f.name@))
}

/// The position of the last row named `name`, when there is one.
pub open spec fn name_index(rows: Seq<(u32, Seq<char>)>, name: Seq<char>) -> Option<int>
    decreases rows.len(),
{
    if rows.len() == 0 {
        None
    } else if rows.last().1 == name {
        Some(rows.len() - 1)
    } else {
        name_index(rows.drop_last(), name)
    }
}

/// The position of the registered input named `name`, when there is one.
pub open spec fn known_index(known: Seq<BufferFacts>, name: Seq<char>) -> Option<int> {
    name_index(registry(known), name)
}

/// What registering an input does to the registry rows and the next free
/// buffer id, and the id it answers: a known name keeps both and answers
/// its id; a new name takes the next id and is appended.
pub open spec fn registration(rows: Seq<(u32, Seq<char>)>, next_buffer: u32, name: Seq<char>) -> (Seq<(u32, Seq<char>)>, u32, u32) {
    match name_index(rows, name) {
        Some(i) => (rows, next_buffer, rows[i].0),
        None => (rows.push((next_buffer, name)), (next_buffer + 1) as u32, next_buffer),
    }
}

/// The kernel assembler's bookkeeping: the kernels and launches pushed so
/// far, the declared observation rows, the next free buffer and launch ids,
/// and the registered input buffers.
pub struct KernelAssembler {
    pub kernels: Vec<KernelUnit>,
    pub launches: Vec<LaunchUnit>,
    pub results: Vec<ResultBuffer>,
    pub next_buffer: u32,
    pub next_launch: u32,
    pub known: Vec<BufferFacts>,
}

impl KernelAssembler {
    /// The assembler's invariant: every registered input is an input buffer
    /// with a distinct name and a distinct id below the next free id (ids
    /// start at 1), and launch `i` is kernel `i`'s only launch, with id
    /// `i + 1`.
    pub open spec fn wf(&self) -> bool {
        &&& 1 <= self.next_buffer
        &&& forall|i: int| 0 <= i < self.known@.len() ==> {
            &&& 1 <= (#[trigger] self.known@[i]).id < self.next_buffer
            &&& self.known@[i].role == BufferRole::Input
            &&& self.known@[i].lifetime == BufferLifetime::PerProgram
        }
        &&& forall|i: int, j: int| 0 <= i < j < self.known@.len() ==> {
            &&& (#[trigger] self.known@[i]).id != (#[trigger] self.known@[j]).id
            &&& self.known@[i].name@ != self.known@[j].name@
        }
        &&& self.launches@.len() == self.kernels@.len()
        &&& self.next_launch == self.launches@.len() + 1
        &&& forall|i: int| 0 <= i < self.launches@.len() ==> #[trigger] self.launches@[i] == LaunchUnit { id: (i + 1) as u32, kernel_index: i as usize }
    }

    pub fn new() -> (a: KernelAssembler)
        ensures
            a.wf(),
            a.kernels@.len() == 0,
            a.results@.len() == 0,
            a.known@.len() == 0,
            a.next_buffer == 1,
    {
        KernelAssembler {
            kernels: Vec::new(),
            launches: Vec::new(),
            results: Vec::new(),
            next_buffer: 1,
            next_launch: 1,
            known: Vec::new(),
        }
    }

    fn find_known(&self, name: &str) -> (r: Option<usize>)
        ensures
            match r {
                Some(j) => known_index(self.known@, name@) == Some(j as int) && j < self.known@.len() && self.known@[j as int].name@ == name@,
                None => known_index(self.known@, name@) is None,
            },
    {
        proof {
            lemma_known_index_found(self.known@, name@);
        }
        let mut i = self.known.len();
        assert(registry(self.known@).take(i as int) =~= registry(self.known@));
        while i > 0
            invariant
                i <= self.known@.len(),
                known_index(self.known@, name@) == name_index(registry(self.known@).take(i as int), name@),
            decreases i,
        {
            assert(registry(self.known@).take(i as int).drop_last() =~= registry(self.known@).take(i - 1));
            if text_eq(self.known[i - 1].name.as_str(), name) {
                return Some(i - 1);
            }
            i = i - 1;
        }
        None
    }

    /// Register a weight or prompt input buffer by name: a name registered
    /// before answers its id, a new name takes the next free id.
    pub fn register_input(&mut self, name: &str) -> (id: u32)
        requires
            old(self).wf(),
            known_index(old(self).known@, name@) is None ==> old(self).next_buffer < u32::MAX,
        ensures
            final(self).wf(),
            registry(final(self).known@) == registration(registry(old(self).known@), old(self).next_buffer, name@).0,
            final(self).next_buffer == registration(registry(old(self).known@), old(self).next_buffer, name@).1,
            id == registration(registry(old(self).known@), old(self).next_buffer, name@).2,
            final(self).kernels@ == old(self).kernels@,
            final(self).launches@ == old(self).launches@,
            final(self).results@ == old(self).results@,
            final(self).next_launch == old(self).next_launch,
    {
        match self.find_known(name) {
            Some(i) => {
                let id = self.known[i].id;
                id
            },
            None => {
                let id = self.next_buffer;
                proof {
                    lemma_known_index_absent(self.known@, name@);
                }
                self.next_buffer = self.next_buffer + 1;
                let facts = BufferFacts::input(id, name);
                self.known.push(facts);
                assert(registry(self.known@) =~= registry(old(self).known@).push((id, name@)));
                id
            },
        }
    }

    /// Register every name, in order.
    pub fn register_inputs(&mut self, names: &Vec<String>)
        requires
            old(self).wf(),
            old(self).next_buffer + names@.len() < u32::MAX,
        ensures
            final(self).wf(),
            (registry(final(self).known@), final(self).next_buffer)
                == register_all(registry(old(self).known@), old(self).next_buffer, names@.map_values(|s: String| s@)),
            final(self).next_buffer <= old(self).next_buffer + names@.len(),
            final(self).kernels@ == old(self).kernels@,
            final(self).launches@ == old(self).launches@,
            final(self).results@ == old(self).results@,
            final(self).next_launch == old(self).next_launch,
    {
        let ghost views = names@.map_values(|s: String| s@);
        let mut i: usize = 0;
        while i < names.len()
            invariant
                self.wf(),
                i <= names@.len(),
                views == names@.map_values(|s: String| s@),
                (registry(self.known@), self.next_buffer) == register_all(registry(old(self).known@), old(self).next_buffer, views.take(i as int)),
                self.next_buffer <= old(self).next_buffer + i,
                old(self).next_buffer + names@.len() < u32::MAX,
                self.kernels@ == old(self).kernels@,
                self.launches@ == old(self).launches@,
                self.results@ == old(self).results@,
                self.next_launch == old(self).next_launch,
            decreases names@.len() - i,
        {
            assert(views.take(i + 1).drop_last() =~= views.take(i as int));
            assert(views.take(i + 1).last() == names@[i as int]@);
            self.register_input(names[i].as_str());
            i = i + 1;
        }
        assert(views.take(names@.len() as int) =~= views);
    }

    /// The facts of a registered input buffer.
    pub fn input_facts(&self, name: &str) -> (f: BufferFacts)
        requires
            known_index(self.known@, name@) is Some,
        ensures
            f == self.known@[known_index(self.known@, name@).unwrap()],
    {
        let i = self.find_known(name);
        match i {
            Some(i) => {
                self.known[i].clone()
            },
            None => {
                proof {
                    assert(false);
                }
                self.known[0].clone()
            },
        }
    }

    /// A fresh activation buffer: the next free id, in-out, per step.
    pub fn fresh_activation(&mut self, name: &str) -> (f: BufferFacts)
        requires
            old(self).wf(),
            old(self).next_buffer < u32::MAX,
        ensures
            final(self).wf(),
            is_activation_facts(f, old(self).next_buffer, name@),
            final(self).next_buffer == old(self).next_buffer + 1,
            final(self).known@ == old(self).known@,
            final(self).kernels@ == old(self).kernels@,
            final(self).launches@ == old(self).launches@,
            final(self).results@ == old(self).results@,
            final(self).next_launch == old(self).next_launch,
    {
        let id = self.next_buffer;
        self.next_buffer = self.next_buffer + 1;
        BufferFacts::activation(id, name)
    }

    /// Append one kernel and its launch, which takes the next launch id.
    pub fn push_kernel(
        &mut self,
        function: u32,
        entry: String,
        plan: KernelPlan,
        resources: Vec<DeviceResource>,
        launch: KernelLaunchPlan,
    ) -> (id: u32)
        requires
            old(self).wf(),
            old(self).next_launch < u32::MAX,
        ensures
            final(self).wf(),
            id == old(self).next_launch,
            final(self).kernels@ == old(self).kernels@.push(KernelUnit { function, entry, plan, resources, launch }),
            final(self).launches@ == old(self).launches@.push(LaunchUnit { id, kernel_index: old(self).kernels@.len() as usize }),
            final(self).next_launch == old(self).next_launch + 1,
            final(self).known@ == old(self).known@,
            final(self).results@ == old(self).results@,
            final(self).next_buffer == old(self).next_buffer,
    {
        let kernel_index = self.kernels.len();
        self.kernels.push(KernelUnit { function, entry, plan, resources, launch });
        let id = self.next_launch;
        self.next_launch = self.next_launch + 1;
        self.launches.push(LaunchUnit { id, kernel_index });
        proof {
            assert forall|i: int| 0 <= i < self.launches@.len() implies #[trigger] self.launches@[i] == LaunchUnit { id: (i + 1) as u32, kernel_index: i as usize } by {
                if i < old(self).launches@.len() {
                    assert(self.launches@[i] == old(self).launches@[i]);
                }
            }
        }
        id
    }
}

/// One resource of a kernel signature, as the ABI derivation states it.
#[derive(Clone, Copy, Debug, PartialEq, Eq, Structural)]
pub struct SignatureResource {
    pub kind: ResourceKind,
    pub group: u32,
    pub binding: u32,
    pub element_ty: u32,
    pub element_count: u64,
    pub reduced_projection: Option<ReducedProjection>,
    pub access: ResourceAccess,
}

/// The storage-buffer resources of a signature, in signature order.
pub open spec fn storage_slots(signature: Seq<SignatureResource>) -> Seq<SignatureResource>
    decreases signature.len(),
{
    if signature.len() == 0 {
        Seq::empty()
    } else {
        let prev = storage_slots(signature.drop_last());
        if signature.last().kind == ResourceKind::StorageBuffer {
            prev.push(signature.last())
        } else {
            prev
        }
    }
}

/// Whether a program resource binds buffer `f` at a signature slot: the
/// buffer's identity, the first version with the slot's element facts and
/// carried projection, the slot's binding and access.
pub open spec fn binds(r: DeviceResource, slot: SignatureResource, f: BufferFacts) -> bool {
    &&& r.buffer.id == f.id
    &&& r.buffer.name@ == f.name@
    &&& r.buffer.role == f.role
    &&& r.buffer.storage == StorageLayout::DeviceHandle
    &&& r.buffer.lifetime == f.lifetime
    &&& r.version == BufferVersion {
        version: 1,
        element_ty: slot.element_ty,
        element_count: slot.element_count,
        reduced_projection: slot.reduced_projection,
    }
    &&& r.binding == Binding { group: slot.group, binding: slot.binding }
    &&& r.access == slot.access
}

/// Map a signature's storage buffers onto program resources with the
/// caller's buffer facts, pairwise in order, as far as both reach.
pub fn resources_from_signature(signature: &Vec<SignatureResource>, facts: &Vec<BufferFacts>) -> (rs: Vec<DeviceResource>)
    ensures
        rs@.len() == if storage_slots(signature@).len() < facts@.len() { storage_slots(signature@).len() } else { facts@.len() as nat },
        forall|i: int| 0 <= i < rs@.len() ==> binds(#[trigger] rs@[i], storage_slots(signature@)[i], facts@[i]),
{
    let mut rs: Vec<DeviceResource> = Vec::new();
    let mut k: usize = 0;
    while k < signature.len()
        invariant
            k <= signature@.len(),
            rs@.len() <= facts@.len(),
            rs@.len() == storage_slots(signature@.take(k as int)).len() || rs@.len() == facts@.len(),
            rs@.len() < facts@.len() ==> rs@.len() == storage_slots(signature@.take(k as int)).len(),
            rs@.len() <= storage_slots(signature@.take(k as int)).len(),
            forall|i: int| 0 <= i < rs@.len() ==> binds(#[trigger] rs@[i], storage_slots(signature@.take(k as int))[i], facts@[i]),
        decreases signature@.len() - k,
    {
        let ghost before = storage_slots(signature@.take(k as int));
        assert(signature@.take(k + 1).drop_last() =~= signature@.take(k as int));
        let slot = signature[k];
        assert(signature@.take(k + 1) =~= signature@.take(k as int).push(slot));
        proof {
            lemma_storage_slots_push(signature@.take(k as int), slot);
        }
        assert(storage_slots(signature@.take(k + 1)) == if slot.kind == ResourceKind::StorageBuffer { before.push(slot) } else { before });
        if slot.kind == ResourceKind::StorageBuffer && rs.len() < facts.len() {
            let f = &facts[rs.len()];
            rs.push(DeviceResource {
                buffer: f.identity(),
                version: BufferVersion {
                    version: 1,
                    element_ty: slot.element_ty,
                    element_count: slot.element_count,
                    reduced_projection: slot.reduced_projection,
                },
                binding: Binding { group: slot.group, binding: slot.binding },
                access: slot.access,
            });
        }
        k = k + 1;
    }
    assert(signature@.take(signature@.len() as int) =~= signature@);
    rs
}

proof fn lemma_storage_slots_push(s: Seq<SignatureResource>, x: SignatureResource)
    ensures
        storage_slots(s.push(x)) == if x.kind == ResourceKind::StorageBuffer { storage_slots(s).push(x) } else { storage_slots(s) },
{
    let q = s.push(x);
    assert(q.drop_last() =~= s);
    assert(q.last() == x);
}

// ---------------------------------------------------------------------------
// The chained dependency facts
// ---------------------------------------------------------------------------

/// Whether every launch names a kernel of the program.
pub open spec fn launches_indexed(p: DeviceProgram) -> bool {
    forall|j: int| 0 <= j < p.launches@.len() ==> (#[trigger] p.launches@[j]).kernel_index < p.kernels@.len()
}

/// The slots of launch `j`'s kernel.
pub open spec fn launch_slots(p: DeviceProgram, j: int) -> Seq<DeviceResource> {
    p.kernels@[p.launches@[j].kernel_index as int].resources@
}

/// Whether some slot writes (or reads and writes) one buffer version.
pub open spec fn produces(slots: Seq<DeviceResource>, buffer: u32, version: u32) -> bool {
    exists|s: int| 0 <= s < slots.len() && {
        &&& (#[trigger] slots[s]).buffer.id == buffer
        &&& slots[s].version.version == version
        &&& slots[s].access != ResourceAccess::Read
    }
}

/// The latest launch before position `before` that produces a buffer
/// version.
pub open spec fn latest_producer(p: DeviceProgram, before: nat, buffer: u32, version: u32) -> Option<int>
    decreases before,
{
    if before == 0 {
        None
    } else if produces(launch_slots(p, before - 1), buffer, version) {
        Some(before - 1)
    } else {
        latest_producer(p, (before - 1) as nat, buffer, version)
    }
}

/// The edges into launch `i` from its read slots (the first `slots`), in
/// slot order: each read slot is fed by the latest earlier launch that
/// produces its buffer version, when one does.
pub open spec fn slot_edges(p: DeviceProgram, i: nat, slots: Seq<DeviceResource>) -> Seq<DependencyEdge>
    decreases slots.len(),
{
    if slots.len() == 0 {
        Seq::empty()
    } else {
        let prev = slot_edges(p, i, slots.drop_last());
        let r = slots.last();
        if r.access == ResourceAccess::Read {
            match latest_producer(p, i, r.buffer.id, r.version.version) {
                Some(j) => prev.push(DependencyEdge {
                    producer: p.launches@[j].id,
                    consumer: p.launches@[i as int].id,
                    buffer: r.buffer.id,
                    version: r.version.version,
                }),
                None => prev,
            }
        } else {
            prev
        }
    }
}

/// The chained edges into the first `n` launches, in launch order.
pub open spec fn chained_edges(p: DeviceProgram, n: nat) -> Seq<DependencyEdge>
    decreases n,
{
    if n == 0 {
        Seq::empty()
    } else {
        chained_edges(p, (n - 1) as nat) + slot_edges(p, (n - 1) as nat, launch_slots(p, n - 1))
    }
}

fn produces_at(p: &DeviceProgram, j: usize, buffer: u32, version: u32) -> (r: bool)
    requires
        launches_indexed(*p),
        j < p.launches@.len(),
    ensures
        r == produces(launch_slots(*p, j as int), buffer, version),
{
    let slots = &p.kernels[p.launches[j].kernel_index].resources;
    let mut s: usize = 0;
    while s < slots.len()
        invariant
            slots@ == launch_slots(*p, j as int),
            s <= slots@.len(),
            forall|x: int| 0 <= x < s ==> !({
                &&& (#[trigger] slots@[x]).buffer.id == buffer
                &&& slots@[x].version.version == version
                &&& slots@[x].access != ResourceAccess::Read
            }),
        decreases slots@.len() - s,
    {
        let slot = &slots[s];
        if slot.buffer.id == buffer && slot.version.version == version && slot.access != ResourceAccess::Read {
            return true;
        }
        s = s + 1;
    }
    false
}

fn latest_producer_before(p: &DeviceProgram, before: usize, buffer: u32, version: u32) -> (r: Option<usize>)
    requires
        launches_indexed(*p),
        before <= p.launches@.len(),
    ensures
        match latest_producer(*p, before as nat, buffer, version) {
            Some(j) => r == Some(j as usize) && 0 <= j < before,
            None => r is None,
        },
{
    let mut j = before;
    while j > 0
        invariant
            launches_indexed(*p),
            j <= before <= p.launches@.len(),
            latest_producer(*p, before as nat, buffer, version) == latest_producer(*p, j as nat, buffer, version),
        decreases j,
    {
        if produces_at(p, j - 1, buffer, version) {
            return Some(j - 1);
        }
        j = j - 1;
    }
    None
}

/// The chained dependency edges of an assembled program: every read slot of
/// a launch is fed by the latest earlier launch that writes the same buffer
/// version, in launch order then slot order.
pub fn chained_dependencies(p: &DeviceProgram) -> (edges: Vec<DependencyEdge>)
    requires
        launches_indexed(*p),
    ensures
        edges@ == chained_edges(*p, p.launches@.len()),
{
    let mut edges: Vec<DependencyEdge> = Vec::new();
    let mut i: usize = 0;
    while i < p.launches.len()
        invariant
            launches_indexed(*p),
            i <= p.launches@.len(),
            edges@ == chained_edges(*p, i as nat),
        decreases p.launches@.len() - i,
    {
        let launch = p.launches[i];
        let slots = &p.kernels[launch.kernel_index].resources;
        let ghost base = edges@;
        let mut s: usize = 0;
        while s < slots.len()
            invariant
                launches_indexed(*p),
                i < p.launches@.len(),
                launch == p.launches@[i as int],
                slots@ == launch_slots(*p, i as int),
                s <= slots@.len(),
                edges@ == base + slot_edges(*p, i as nat, slots@.take(s as int)),
            decreases slots@.len() - s,
        {
            assert(slots@.take(s + 1).drop_last() =~= slots@.take(s as int));
            let r = &slots[s];
            if r.access == ResourceAccess::Read {
                match latest_producer_before(p, i, r.buffer.id, r.version.version) {
                    Some(j) => {
                        edges.push(DependencyEdge {
                            producer: p.launches[j].id,
                            consumer: launch.id,
                            buffer: r.buffer.id,
                            version: r.version.version,
                        });
                    },
                    None => {},
                }
            }
            s = s + 1;
            assert(edges@ =~= base + slot_edges(*p, i as nat, slots@.take(s as int)));
        }
        assert(slots@.take(slots@.len() as int) =~= slots@);
        i = i + 1;
    }
    edges
}

/// The carried semantic facts of an assembled program: the chained
/// dependency edges, the launches no edge feeds as roots, and no other
/// fact (its inputs are read-only and its activations kernel-initialized).
pub fn build_semantics(p: &DeviceProgram) -> (s: DeviceSemantics)
    requires
        launches_indexed(*p),
    ensures
        s.dependencies@ == chained_edges(*p, p.launches@.len()),
        s.roots@ == roots_of(p.launches@, s.dependencies@),
        s.values@.len() == 0,
        s.bindings@.len() == 0,
        s.generations@.len() == 0,
        s.relations@.len() == 0,
        s.initializations@.len() == 0,
        s.observations@.len() == 0,
{
    let dependencies = chained_dependencies(p);
    let roots = root_launches(&p.launches, &dependencies);
    DeviceSemantics {
        values: Vec::new(),
        bindings: Vec::new(),
        generations: Vec::new(),
        roots,
        dependencies,
        relations: Vec::new(),
        initializations: Vec::new(),
        observations: Vec::new(),
    }
}

/// Whether an edge runs from an earlier launch that produces its buffer
/// version to a later launch.
pub open spec fn points_forward(p: DeviceProgram, e: DependencyEdge) -> bool {
    exists|j: int, i: int| 0 <= j < i < p.launches@.len() && {
        &&& (#[trigger] p.launches@[j]).id == e.producer
        &&& (#[trigger] p.launches@[i]).id == e.consumer
        &&& produces(launch_slots(p, j), e.buffer, e.version)
    }
}

proof fn lemma_latest_producer_range(p: DeviceProgram, before: nat, buffer: u32, version: u32)
    ensures
        latest_producer(p, before, buffer, version) matches Some(j) ==> 0 <= j < before && produces(launch_slots(p, j), buffer, version),
    decreases before,
{
    if before > 0 {
        lemma_latest_producer_range(p, (before - 1) as nat, buffer, version);
    }
}

proof fn lemma_slot_edges_forward(p: DeviceProgram, i: nat, slots: Seq<DeviceResource>)
    requires
        i < p.launches@.len(),
    ensures
        forall|k: int| 0 <= k < slot_edges(p, i, slots).len() ==> points_forward(p, #[trigger] slot_edges(p, i, slots)[k]),
    decreases slots.len(),
{
    if slots.len() > 0 {
        lemma_slot_edges_forward(p, i, slots.drop_last());
        let r = slots.last();
        lemma_latest_producer_range(p, i, r.buffer.id, r.version.version);
        let prev = slot_edges(p, i, slots.drop_last());
        let all = slot_edges(p, i, slots);
        assert forall|k: int| 0 <= k < all.len() implies points_forward(p, #[trigger] all[k]) by {
            if k < prev.len() {
                assert(all[k] == prev[k]);
            } else {
                let j = latest_producer(p, i, r.buffer.id, r.version.version).unwrap();
                assert(p.launches@[j].id == all[k].producer && p.launches@[i as int].id == all[k].consumer);
            }
        }
    }
}

/// Every chained dependency edge of an assembled program runs from an
/// earlier launch that writes the edge's buffer version to a later launch:
/// the launch order is a schedule the edges allow, so they form no cycle.
pub proof fn law_chained_edges_point_forward(p: DeviceProgram, n: nat)
    requires
        launches_indexed(p),
        n <= p.launches@.len(),
    ensures
        forall|k: int| 0 <= k < chained_edges(p, n).len() ==> points_forward(p, #[trigger] chained_edges(p, n)[k]),
    decreases n,
{
    if n > 0 {
        law_chained_edges_point_forward(p, (n - 1) as nat);
        lemma_slot_edges_forward(p, (n - 1) as nat, launch_slots(p, n - 1));
        let a = chained_edges(p, (n - 1) as nat);
        let b = slot_edges(p, (n - 1) as nat, launch_slots(p, n - 1));
        assert forall|k: int| 0 <= k < chained_edges(p, n).len() implies points_forward(p, #[trigger] chained_edges(p, n)[k]) by {
            if k < a.len() {
                assert(chained_edges(p, n)[k] == a[k]);
            } else {
                assert(chained_edges(p, n)[k] == b[k - a.len()]);
            }
        }
    }
}

/// A fresh activation buffer never takes the id of a registered input, and
/// no two registered inputs share an id or a name.
pub proof fn law_fresh_buffer_is_unregistered(a: KernelAssembler)
    requires
        a.wf(),
    ensures
        forall|i: int| 0 <= i < a.known@.len() ==> (#[trigger] a.known@[i]).id != a.next_buffer,
        forall|i: int, j: int| 0 <= i < j < a.known@.len() ==> (#[trigger] registry(a.known@)[i]).0 != (#[trigger] registry(a.known@)[j]).0,
        forall|i: int, j: int| 0 <= i < j < a.known@.len() ==> registry(a.known@)[i].1 != registry(a.known@)[j].1,
{
    assert forall|i: int, j: int| 0 <= i < j < a.known@.len() implies (#[trigger] registry(a.known@)[i]).0 != (#[trigger] registry(a.known@)[j]).0
        && registry(a.known@)[i].1 != registry(a.known@)[j].1 by {
        assert(a.known@[i].id != a.known@[j].id);
    }
}

/// Registering every name in order.
pub open spec fn register_all(rows: Seq<(u32, Seq<char>)>, next_buffer: u32, names: Seq<Seq<char>>) -> (Seq<(u32, Seq<char>)>, u32)
    decreases names.len(),
{
    if names.len() == 0 {
        (rows, next_buffer)
    } else {
        let (r, n) = register_all(rows, next_buffer, names.drop_last());
        let (r2, n2, _) = registration(r, n, names.last());
        (r2, n2)
    }
}

/// Registering a name a second time answers the id the first registration
/// gave and changes nothing.
pub proof fn law_registration_is_idempotent(rows: Seq<(u32, Seq<char>)>, next_buffer: u32, name: Seq<char>)
    ensures
        ({
            let (k1, n1, id1) = registration(rows, next_buffer, name);
            let (k2, n2, id2) = registration(k1, n1, name);
            k2 == k1 && n2 == n1 && id2 == id1
        }),
{
    let (k1, n1, id1) = registration(rows, next_buffer, name);
    if name_index(rows, name) is None {
        assert(k1.drop_last() =~= rows);
        assert(name_index(k1, name) == Some(rows.len() as int));
    }
}

// ---------------------------------------------------------------------------
// The input buffers of the prefill program
// ---------------------------------------------------------------------------

/// `blk.<layer>.<base>`: a per-layer weight name.
pub open spec fn blk_name(layer: nat, base: Seq<char>) -> Seq<char> {
    seq!['b', 'l', 'k', '.'] + decimal(layer) + seq!['.'] + base
}

/// `blk.<layer>.<kind><head>.weight`: a per-head weight slice name.
pub open spec fn head_name(layer: nat, kind: Seq<char>, head: nat) -> Seq<char> {
    blk_name(layer, kind + decimal(head) + ".weight"@)
}

/// The query-head weights of a layer, head by head: the query slice, then
/// the output-projection slice.
pub open spec fn query_head_names(layer: nat, heads: nat) -> Seq<Seq<char>>
    decreases heads,
{
    if heads == 0 {
        Seq::empty()
    } else {
        query_head_names(layer, (heads - 1) as nat)
            + seq![head_name(layer, "attn_q.h"@, (heads - 1) as nat), head_name(layer, "attn_output.h"@, (heads - 1) as nat)]
    }
}

/// The key/value-head weights of a layer, group by group: the key slice,
/// then the value slice.
pub open spec fn kv_head_names(layer: nat, groups: nat) -> Seq<Seq<char>>
    decreases groups,
{
    if groups == 0 {
        Seq::empty()
    } else {
        kv_head_names(layer, (groups - 1) as nat)
            + seq![head_name(layer, "attn_k.g"@, (groups - 1) as nat), head_name(layer, "attn_v.g"@, (groups - 1) as nat)]
    }
}

/// The input buffers of one decoder layer, in registration order.
pub open spec fn layer_input_names(layer: nat) -> Seq<Seq<char>> {
    seq![blk_name(layer, "attn_norm.weight"@)] + query_head_names(layer, HEAD_COUNT as nat)
        + kv_head_names(layer, KV_HEAD_COUNT as nat) + seq![
        blk_name(layer, "ffn_norm.weight"@),
        blk_name(layer, "ffn_gate.weight"@),
        blk_name(layer, "ffn_up.weight"@),
        blk_name(layer, "ffn_down.weight"@),
    ]
}

/// The input buffers of the first `layers` decoder layers.
pub open spec fn layers_input_names(layers: nat) -> Seq<Seq<char>>
    decreases layers,
{
    if layers == 0 {
        Seq::empty()
    } else {
        layers_input_names((layers - 1) as nat) + layer_input_names((layers - 1) as nat)
    }
}

/// Every input buffer of the prefill program, in registration order: the
/// token embedding, the prompt ids, each layer's weights, the output norm.
pub open spec fn prefill_input_names_spec() -> Seq<Seq<char>> {
    seq!["token_embd.weight"@, "prompt_tokens"@] + layers_input_names(LAYER_COUNT as nat) + seq!["output_norm.weight"@]
}

pub(crate) fn blk_text(layer: u64, base: &str) -> (s: String)
    ensures
        s@ == blk_name(layer as nat, base@),
{
    proof {
        reveal_strlit("blk.");
        reveal_strlit(".");
    }
    let mut s = owned("blk.");
    let l = decimal_text(layer);
    s.append(l.as_str());
    s.append(".");
    s.append(base);
    s
}

pub(crate) fn head_text(layer: u64, kind: &str, head: u64) -> (s: String)
    ensures
        s@ == head_name(layer as nat, kind@, head as nat),
{
    let mut base = owned(kind);
    let h = decimal_text(head);
    base.append(h.as_str());
    base.append(".weight");
    blk_text(layer, base.as_str())
}

/// Every input buffer name of the prefill program, in registration order.
pub fn prefill_input_names() -> (names: Vec<String>)
    ensures
        names@.map_values(|s: String| s@) == prefill_input_names_spec(),
{
    let mut names: Vec<String> = Vec::new();
    names.push(owned("token_embd.weight"));
    names.push(owned("prompt_tokens"));
    assert(names@.map_values(|s: String| s@) =~= seq!["token_embd.weight"@, "prompt_tokens"@] + layers_input_names(0));
    let mut layer: u64 = 0;
    while layer < LAYER_COUNT
        invariant
            layer <= LAYER_COUNT,
            names@.map_values(|s: String| s@) == seq!["token_embd.weight"@, "prompt_tokens"@] + layers_input_names(layer as nat),
        decreases LAYER_COUNT - layer,
    {
        let ghost before = names@.map_values(|s: String| s@);
        let norm = blk_text(layer, "attn_norm.weight");
        names.push(norm);
        assert(names@.map_values(|s: String| s@) =~= before + seq![norm@] + query_head_names(layer as nat, 0));
        let mut h: u64 = 0;
        while h < HEAD_COUNT
            invariant
                h <= HEAD_COUNT,
                names@.map_values(|s: String| s@) == before + seq![blk_name(layer as nat, "attn_norm.weight"@)] + query_head_names(layer as nat, h as nat),
            decreases HEAD_COUNT - h,
        {
            let ghost prior = names@.map_values(|s: String| s@);
            let q = head_text(layer, "attn_q.h", h);
            let o = head_text(layer, "attn_output.h", h);
            names.push(q);
            names.push(o);
            assert(names@.map_values(|s: String| s@) =~= prior + seq![q@, o@]);
            h = h + 1;
            assert(names@.map_values(|s: String| s@) =~= before + seq![blk_name(layer as nat, "attn_norm.weight"@)] + query_head_names(layer as nat, h as nat));
        }
        let mut g: u64 = 0;
        while g < KV_HEAD_COUNT
            invariant
                g <= KV_HEAD_COUNT,
                names@.map_values(|s: String| s@) == before + seq![blk_name(layer as nat, "attn_norm.weight"@)]
                    + query_head_names(layer as nat, HEAD_COUNT as nat) + kv_head_names(layer as nat, g as nat),
            decreases KV_HEAD_COUNT - g,
        {
            let ghost prior = names@.map_values(|s: String| s@);
            let k = head_text(layer, "attn_k.g", g);
            let v = head_text(layer, "attn_v.g", g);
            names.push(k);
            names.push(v);
            assert(names@.map_values(|s: String| s@) =~= prior + seq![k@, v@]);
            g = g + 1;
            assert(names@.map_values(|s: String| s@) =~= before + seq![blk_name(layer as nat, "attn_norm.weight"@)]
                + query_head_names(layer as nat, HEAD_COUNT as nat) + kv_head_names(layer as nat, g as nat));
        }
        let ghost prior = names@.map_values(|s: String| s@);
        let a = blk_text(layer, "ffn_norm.weight");
        let b = blk_text(layer, "ffn_gate.weight");
        let c = blk_text(layer, "ffn_up.weight");
        let d = blk_text(layer, "ffn_down.weight");
        names.push(a);
        names.push(b);
        names.push(c);
        names.push(d);
        assert(names@.map_values(|s: String| s@) =~= prior + seq![a@, b@, c@, d@]);
        assert(layer_input_names(layer as nat) =~= seq![blk_name(layer as nat, "attn_norm.weight"@)]
            + query_head_names(layer as nat, HEAD_COUNT as nat) + kv_head_names(layer as nat, KV_HEAD_COUNT as nat) + seq![a@, b@, c@, d@]);
        layer = layer + 1;
        assert(names@.map_values(|s: String| s@) =~= seq!["token_embd.weight"@, "prompt_tokens"@] + layers_input_names(layer as nat));
    }
    names.push(owned("output_norm.weight"));
    assert(names@.map_values(|s: String| s@) =~= prefill_input_names_spec());
    names
}

// ---------------------------------------------------------------------------
// Receipt labels
// ---------------------------------------------------------------------------

/// The shape-class label of the executed prefill: `prefill-<tokens>t`.
pub fn shape_class() -> (s: String)
    ensures
        s@ == seq!['p', 'r', 'e', 'f', 'i', 'l', 'l', '-'] + decimal(PROMPT_TOKEN_COUNT as nat) + seq!['t'],
{
    proof {
        reveal_strlit("prefill-");
        reveal_strlit("t");
    }
    let mut s = owned("prefill-");
    let count = decimal_text(PROMPT_TOKEN_COUNT);
    s.append(count.as_str());
    s.append("t");
    s
}

/// The representation label of the declared repack.
pub fn representation() -> (s: String)
    ensures
        s@ == "declared f32 conversion (GI2-1 dequant semantics; quantized tensors f16-rounded per the pinned comparator's Metal register arithmetic; K-major weights transposed to the device matmul row-major layout — attention weights split per head (q/o into the 15 query heads, k/v into the 5 KV heads) so the per-head attention softmax is expressible on the recipe surface; never direct GGUF quantized execution)"@,
{
    owned("declared f32 conversion (GI2-1 dequant semantics; quantized tensors f16-rounded per the pinned comparator's Metal register arithmetic; K-major weights transposed to the device matmul row-major layout — attention weights split per head (q/o into the 15 query heads, k/v into the 5 KV heads) so the per-head attention softmax is expressible on the recipe surface; never direct GGUF quantized execution)")
}

/// The algorithm label of the executed prefill.
pub fn algorithm() -> (s: String)
    ensures
        s@ == "Gather / RmsNormalization / Rope (per-position, periodic per-head tables) / CausalMaskedSoftmax / declared-f32 TiledMatMul / SiLU elementwise composition / device K/V f16 rounding (kv_f16_round)"@,
{
    owned("Gather / RmsNormalization / Rope (per-position, periodic per-head tables) / CausalMaskedSoftmax / declared-f32 TiledMatMul / SiLU elementwise composition / device K/V f16 rounding (kv_f16_round)")
}

/// The input-role slots among some slots.
pub open spec fn input_slots_in(rs: Seq<WireDeviceResource>) -> nat
    decreases rs.len(),
{
    if rs.len() == 0 {
        0
    } else {
        input_slots_in(rs.drop_last()) + if rs.last().buffer.role == BufferRole::Input { 1nat } else { 0nat }
    }
}

/// The input-role slots of every kernel.
pub open spec fn input_slots(kernels: Seq<WireKernelUnit>) -> nat
    decreases kernels.len(),
{
    if kernels.len() == 0 {
        0
    } else {
        input_slots(kernels.drop_last()) + input_slots_in(kernels.last().resources@)
    }
}

proof fn lemma_input_slots_in_bound(rs: Seq<WireDeviceResource>, k: int)
    requires
        0 <= k <= rs.len(),
    ensures
        input_slots_in(rs.take(k)) <= input_slots_in(rs),
    decreases rs.len(),
{
    if k < rs.len() {
        assert(rs.drop_last().take(k) =~= rs.take(k));
        lemma_input_slots_in_bound(rs.drop_last(), k);
    } else {
        assert(rs.take(k) =~= rs);
    }
}

proof fn lemma_input_slots_bound(kernels: Seq<WireKernelUnit>, k: int)
    requires
        0 <= k <= kernels.len(),
    ensures
        input_slots(kernels.take(k)) <= input_slots(kernels),
    decreases kernels.len(),
{
    if k < kernels.len() {
        assert(kernels.drop_last().take(k) =~= kernels.take(k));
        lemma_input_slots_bound(kernels.drop_last(), k);
    } else {
        assert(kernels.take(k) =~= kernels);
    }
}

/// The workspace label of an executed program: `<k> kernels, <l> launches,
/// <i> input-role slots (logits observation [9, 49152])`.
pub open spec fn workspace_label(kernels: nat, launches: nat, inputs: nat) -> Seq<char> {
    decimal(kernels) + seq![' ', 'k', 'e', 'r', 'n', 'e', 'l', 's', ',', ' '] + decimal(launches)
        + seq![' ', 'l', 'a', 'u', 'n', 'c', 'h', 'e', 's', ',', ' '] + decimal(inputs)
        + " input-role slots (logits observation [9, 49152])"@
}

/// The workspace facts of an executed program: its kernel and launch counts
/// and the input-role slots across its kernels.
pub fn workspace(program: &WireDeviceProgram) -> (s: String)
    requires
        input_slots(program.kernels@) <= u64::MAX,
    ensures
        s@ == workspace_label(program.kernels@.len(), program.launches@.len(), input_slots(program.kernels@)),
{
    let kernels = &program.kernels;
    let mut count: u64 = 0;
    let mut k: usize = 0;
    while k < kernels.len()
        invariant
            k <= kernels@.len(),
            input_slots(kernels@) <= u64::MAX,
            count == input_slots(kernels@.take(k as int)),
        decreases kernels@.len() - k,
    {
        assert(kernels@.take(k + 1).drop_last() =~= kernels@.take(k as int));
        let rs = &kernels[k].resources;
        let ghost base = count as nat;
        proof {
            lemma_input_slots_bound(kernels@, k + 1);
        }
        let mut r: usize = 0;
        while r < rs.len()
            invariant
                rs@ == kernels@[k as int].resources@,
                r <= rs@.len(),
                base + input_slots_in(rs@) <= u64::MAX,
                count == base + input_slots_in(rs@.take(r as int)),
            decreases rs@.len() - r,
        {
            assert(rs@.take(r + 1).drop_last() =~= rs@.take(r as int));
            proof {
                lemma_input_slots_in_bound(rs@, r + 1);
            }
            if rs[r].buffer.role == BufferRole::Input {
                count = count + 1;
            }
            r = r + 1;
        }
        assert(rs@.take(rs@.len() as int) =~= rs@);
        k = k + 1;
    }
    assert(kernels@.take(kernels@.len() as int) =~= kernels@);
    proof {
        reveal_strlit(" kernels, ");
        reveal_strlit(" launches, ");
    }
    let mut s = decimal_text(kernels.len() as u64);
    s.append(" kernels, ");
    let l = decimal_text(program.launches.len() as u64);
    s.append(l.as_str());
    s.append(" launches, ");
    let c = decimal_text(count);
    s.append(c.as_str());
    s.append(" input-role slots (logits observation [9, 49152])");
    s
}

pub(crate) proof fn lemma_name_index_found(rows: Seq<(u32, Seq<char>)>, name: Seq<char>)
    ensures
        name_index(rows, name) matches Some(i) ==> 0 <= i < rows.len() && rows[i].1 == name,
    decreases rows.len(),
{
    if rows.len() > 0 {
        lemma_name_index_found(rows.drop_last(), name);
    }
}

pub(crate) proof fn lemma_known_index_found(known: Seq<BufferFacts>, name: Seq<char>)
    ensures
        known_index(known, name) matches Some(i) ==> 0 <= i < known.len() && known[i].name@ == name,
{
    lemma_name_index_found(registry(known), name);
}

proof fn lemma_name_index_absent(rows: Seq<(u32, Seq<char>)>, name: Seq<char>)
    requires
        name_index(rows, name) is None,
    ensures
        forall|i: int| 0 <= i < rows.len() ==> (#[trigger] rows[i]).1 != name,
    decreases rows.len(),
{
    if rows.len() > 0 {
        lemma_name_index_absent(rows.drop_last(), name);
        assert forall|i: int| 0 <= i < rows.len() implies (#[trigger] rows[i]).1 != name by {
            if i < rows.len() - 1 {
                assert(rows.drop_last()[i] == rows[i]);
            }
        }
    }
}

proof fn lemma_known_index_absent(known: Seq<BufferFacts>, name: Seq<char>)
    requires
        known_index(known, name) is None,
    ensures
        forall|i: int| 0 <= i < known.len() ==> (#[trigger] known[i]).name@ != name,
{
    lemma_name_index_absent(registry(known), name);
    assert forall|i: int| 0 <= i < known.len() implies (#[trigger] known[i]).name@ != name by {
        assert(registry(known)[i].1 == known[i].name@);
    }
}

} // verus!
