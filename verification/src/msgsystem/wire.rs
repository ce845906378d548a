//! MessageSystem wire codec (LEB128 / Reference / SimpleFrame + Envelope).
//!
//! Fixed-width integers are little-endian. Variable-length integers are LEB128
//! (zig-zag for the signed forms). A string is a presence byte followed, when
//! present, by the zig-zag LEB128 byte count and the UTF-8 bytes.
use vstd::prelude::*;
use vstd::utf8::*;

verus! {

broadcast use vstd::utf8::encode_utf8_valid_utf8, vstd::utf8::encode_utf8_decode_utf8;

// ---------------------------------------------------------------------------
// Mathematical model of the encodings
// ---------------------------------------------------------------------------
/// Little-endian value of a byte sequence.
pub open spec fn le_value(s: Seq<u8>) -> nat
    decreases s.len(),
{
    if s.len() == 0 {
        0
    } else {
        s[0] as nat + 256 * le_value(s.drop_first())
    }
}

/// The `n` low bytes of `v`, least significant first.
pub open spec fn le_bytes(v: nat, n: nat) -> Seq<u8>
    decreases n,
{
    if n == 0 {
        Seq::empty()
    } else {
        seq![(v % 256) as u8] + le_bytes(v / 256, (n - 1) as nat)
    }
}

/// `256^n`.
pub open spec fn byte_range(n: nat) -> nat
    decreases n,
{
    if n == 0 {
        1
    } else {
        256 * byte_range((n - 1) as nat)
    }
}

/// Unsigned LEB128 encoding of `v` (seven bits per byte, high bit marks continuation).
pub open spec fn leb_encode(v: nat) -> Seq<u8>
    decreases v,
{
    if v < 128 {
        seq![v as u8]
    } else {
        seq![(v % 128 + 128) as u8] + leb_encode(v / 128)
    }
}

/// Zig-zag mapping of a signed value onto the naturals: 0, -1, 1, -2, 2, ...
pub open spec fn zigzag(v: int) -> nat {
    if v >= 0 {
        (2 * v) as nat
    } else {
        (-2 * v - 1) as nat
    }
}

/// Inverse of [`zigzag`].
pub open spec fn unzigzag(u: nat) -> int {
    if u % 2 == 0 {
        (u / 2) as int
    } else {
        -((u / 2) as int) - 1
    }
}

/// Two's-complement reading of an unsigned `bits`-wide value.
pub open spec fn as_signed(u: nat, bits: nat) -> int {
    if u < pow2_spec((bits - 1) as nat) {
        u as int
    } else {
        u - pow2_spec(bits)
    }
}

/// Two's-complement bit pattern of a signed `bits`-wide value.
pub open spec fn as_unsigned(v: int, bits: nat) -> nat {
    if v >= 0 {
        v as nat
    } else {
        (v + pow2_spec(bits)) as nat
    }
}

pub open spec fn pow2_spec(n: nat) -> nat
    decreases n,
{
    if n == 0 {
        1
    } else {
        2 * pow2_spec((n - 1) as nat)
    }
}

/// Outcome of decoding an LEB128 `u32` from `s`, where `k` is the index of the
/// first byte of `s` within the varint: the value (or the error) and the number
/// of bytes consumed. The fifth byte may only carry the four top bits.
pub open spec fn var_u32_outcome(s: Seq<u8>, k: nat) -> (Result<nat, WireError>, nat)
    decreases s.len(),
{
    if s.len() == 0 {
        (Err(WireError::UnexpectedEof), 0)
    } else if k >= 4 {
        if s[0] >= 16 {
            (Err(WireError::VarintOverflow), 1)
        } else {
            (Ok(s[0] as nat), 1)
        }
    } else if s[0] < 128 {
        (Ok(s[0] as nat), 1)
    } else {
        let (r, c) = var_u32_outcome(s.drop_first(), k + 1);
        (
            match r {
                Ok(v) => Ok((s[0] - 128) as nat + 128 * v),
                Err(e) => Err(e),
            },
            c + 1,
        )
    }
}

/// Outcome of decoding an LEB128 `u64` from `s` (see [`var_u32_outcome`]).
/// The tenth byte contributes only its lowest bit.
pub open spec fn var_u64_outcome(s: Seq<u8>, k: nat) -> (Result<nat, WireError>, nat)
    decreases s.len(),
{
    if s.len() == 0 {
        (Err(WireError::UnexpectedEof), 0)
    } else if k >= 9 {
        (Ok((s[0] % 2) as nat), 1)
    } else if s[0] < 128 {
        (Ok(s[0] as nat), 1)
    } else {
        let (r, c) = var_u64_outcome(s.drop_first(), k + 1);
        (
            match r {
                Ok(v) => Ok((s[0] - 128) as nat + 128 * v),
                Err(e) => Err(e),
            },
            c + 1,
        )
    }
}

/// Exclusive bound on the value decoded from varint position `k` onwards (`u32`).
pub open spec fn var_u32_bound(k: nat) -> nat
    decreases 4 - k,
{
    if k >= 4 {
        16
    } else {
        128 * var_u32_bound(k + 1)
    }
}

/// Exclusive bound on the value decoded from varint position `k` onwards (`u64`).
pub open spec fn var_u64_bound(k: nat) -> nat
    decreases 9 - k,
{
    if k >= 9 {
        2
    } else {
        128 * var_u64_bound(k + 1)
    }
}

/// Outcome of a zig-zag `i32` varint: the signed value (or error) and bytes consumed.
pub open spec fn var_i32_outcome(s: Seq<u8>) -> (Result<int, WireError>, nat) {
    let (r, c) = var_u32_outcome(s, 0);
    (
        match r {
            Ok(v) => Ok(unzigzag(v)),
            Err(e) => Err(e),
        },
        c,
    )
}

/// Outcome of a zig-zag `i64` varint.
pub open spec fn var_i64_outcome(s: Seq<u8>) -> (Result<int, WireError>, nat) {
    let (r, c) = var_u64_outcome(s, 0);
    (
        match r {
            Ok(v) => Ok(unzigzag(v)),
            Err(e) => Err(e),
        },
        c,
    )
}

/// Encoded string reference: presence byte, zig-zag byte count, UTF-8 bytes.
pub open spec fn string_bytes(v: Option<Seq<char>>) -> Seq<u8> {
    match v {
        None => seq![0u8],
        Some(chars) => seq![1u8] + leb_encode(
            zigzag((encode_utf8(chars).len() as i32) as int),
        ) + encode_utf8(chars),
    }
}

/// Outcome of reading a string reference from `s`: value (or error) and bytes consumed.
pub open spec fn string_outcome(s: Seq<u8>) -> (Result<Option<Seq<char>>, WireError>, nat) {
    if s.len() == 0 {
        (Err(WireError::UnexpectedEof), 0)
    } else if s[0] == 0 {
        (Ok(None), 1)
    } else {
        let rest = s.drop_first();
        let (r, c) = var_i32_outcome(rest);
        match r {
            Err(e) => (Err(e), 1 + c),
            Ok(count) => {
                let n = ((count as i32) as usize) as nat;
                let after = rest.subrange(c as int, rest.len() as int);
                if after.len() < n {
                    (Err(WireError::UnexpectedEof), 1 + c)
                } else if valid_utf8(after.subrange(0, n as int)) {
                    (Ok(Some(decode_utf8(after.subrange(0, n as int)))), 1 + c + n)
                } else {
                    (Err(WireError::InvalidUtf8), 1 + c + n)
                }
            },
        }
    }
}

/// Concatenated little-endian encodings of `vals`, `width` bytes each.
pub open spec fn le_concat(vals: Seq<nat>, width: nat) -> Seq<u8>
    decreases vals.len(),
{
    if vals.len() == 0 {
        Seq::empty()
    } else {
        le_concat(vals.drop_last(), width) + le_bytes(vals.last(), width)
    }
}

/// Header of a present reference array: marker byte 1 and the zig-zag count.
pub open spec fn ref_array_header(len: nat) -> Seq<u8> {
    seq![1u8] + leb_encode(zigzag((len as i32) as int))
}

pub open spec fn u32_values(vals: Seq<u32>) -> Seq<nat> {
    vals.map_values(|v: u32| v as nat)
}

pub open spec fn u64_values(vals: Seq<u64>) -> Seq<nat> {
    vals.map_values(|v: u64| v as nat)
}

// ---------------------------------------------------------------------------
// Lemmas
// ---------------------------------------------------------------------------
pub proof fn lemma_le_bytes_len(v: nat, n: nat)
    ensures
        le_bytes(v, n).len() == n,
    decreases n,
{
    if n > 0 {
        lemma_le_bytes_len(v / 256, (n - 1) as nat);
    }
}

/// Decoding the `n` low bytes of `v` gives `v` back when `v` fits in `n` bytes.
pub proof fn lemma_le_roundtrip(v: nat, n: nat)
    requires
        v < byte_range(n),
    ensures
        le_value(le_bytes(v, n)) == v,
    decreases n,
{
    if n > 0 {
        lemma_le_roundtrip(v / 256, (n - 1) as nat);
        let s = le_bytes(v, n);
        assert(s.drop_first() =~= le_bytes(v / 256, (n - 1) as nat));
    }
}

/// The little-endian value of `n` bytes is below `256^n`.
pub proof fn lemma_le_value_bound(s: Seq<u8>)
    ensures
        le_value(s) < byte_range(s.len()),
    decreases s.len(),
{
    if s.len() > 0 {
        lemma_le_value_bound(s.drop_first());
    }
}

pub proof fn lemma_byte_range_values()
    ensures
        byte_range(1) == 0x100,
        byte_range(2) == 0x1_0000,
        byte_range(4) == 0x1_0000_0000,
        byte_range(8) == 0x1_0000_0000_0000_0000,
{
    reveal_with_fuel(byte_range, 9);
}

pub proof fn lemma_pow2_values()
    ensures
        pow2_spec(7) == 0x80,
        pow2_spec(8) == 0x100,
        pow2_spec(15) == 0x8000,
        pow2_spec(16) == 0x1_0000,
        pow2_spec(31) == 0x8000_0000,
        pow2_spec(32) == 0x1_0000_0000,
        pow2_spec(63) == 0x8000_0000_0000_0000,
        pow2_spec(64) == 0x1_0000_0000_0000_0000,
{
    assert(pow2_spec(0) == 1);
    assert(pow2_spec(1) == 2);
    assert(pow2_spec(2) == 4);
    assert(pow2_spec(3) == 8);
    assert(pow2_spec(4) == 16);
    assert(pow2_spec(5) == 32);
    assert(pow2_spec(6) == 64);
    assert(pow2_spec(7) == 128);
    assert(pow2_spec(8) == 256);
    assert(pow2_spec(9) == 512);
    assert(pow2_spec(10) == 1024);
    assert(pow2_spec(11) == 2048);
    assert(pow2_spec(12) == 4096);
    assert(pow2_spec(13) == 8192);
    assert(pow2_spec(14) == 16384);
    assert(pow2_spec(15) == 32768);
    assert(pow2_spec(16) == 65536);
    assert(pow2_spec(17) == 131072);
    assert(pow2_spec(18) == 262144);
    assert(pow2_spec(19) == 524288);
    assert(pow2_spec(20) == 1048576);
    assert(pow2_spec(21) == 2097152);
    assert(pow2_spec(22) == 4194304);
    assert(pow2_spec(23) == 8388608);
    assert(pow2_spec(24) == 16777216);
    assert(pow2_spec(25) == 33554432);
    assert(pow2_spec(26) == 67108864);
    assert(pow2_spec(27) == 134217728);
    assert(pow2_spec(28) == 268435456);
    assert(pow2_spec(29) == 536870912);
    assert(pow2_spec(30) == 1073741824);
    assert(pow2_spec(31) == 2147483648);
    assert(pow2_spec(32) == 4294967296);
    assert(pow2_spec(33) == 8589934592);
    assert(pow2_spec(34) == 17179869184);
    assert(pow2_spec(35) == 34359738368);
    assert(pow2_spec(36) == 68719476736);
    assert(pow2_spec(37) == 137438953472);
    assert(pow2_spec(38) == 274877906944);
    assert(pow2_spec(39) == 549755813888);
    assert(pow2_spec(40) == 1099511627776);
    assert(pow2_spec(41) == 2199023255552);
    assert(pow2_spec(42) == 4398046511104);
    assert(pow2_spec(43) == 8796093022208);
    assert(pow2_spec(44) == 17592186044416);
    assert(pow2_spec(45) == 35184372088832);
    assert(pow2_spec(46) == 70368744177664);
    assert(pow2_spec(47) == 140737488355328);
    assert(pow2_spec(48) == 281474976710656);
    assert(pow2_spec(49) == 562949953421312);
    assert(pow2_spec(50) == 1125899906842624);
    assert(pow2_spec(51) == 2251799813685248);
    assert(pow2_spec(52) == 4503599627370496);
    assert(pow2_spec(53) == 9007199254740992);
    assert(pow2_spec(54) == 18014398509481984);
    assert(pow2_spec(55) == 36028797018963968);
    assert(pow2_spec(56) == 72057594037927936);
    assert(pow2_spec(57) == 144115188075855872);
    assert(pow2_spec(58) == 288230376151711744);
    assert(pow2_spec(59) == 576460752303423488);
    assert(pow2_spec(60) == 1152921504606846976);
    assert(pow2_spec(61) == 2305843009213693952);
    assert(pow2_spec(62) == 4611686018427387904);
    assert(pow2_spec(63) == 9223372036854775808);
    assert(pow2_spec(64) == 18446744073709551616);
}

pub proof fn lemma_var_bounds()
    ensures
        var_u32_bound(0) == 0x1_0000_0000,
        var_u64_bound(0) == 0x1_0000_0000_0000_0000,
{
    reveal_with_fuel(var_u32_bound, 6);
    reveal_with_fuel(var_u64_bound, 11);
}

/// The decoded value from position `k` stays below [`var_u32_bound`].
pub proof fn lemma_var_u32_outcome_bound(s: Seq<u8>, k: nat)
    requires
        k <= 4,
    ensures
        var_u32_outcome(s, k).0 matches Ok(v) ==> v < var_u32_bound(k),
        var_u32_outcome(s, k).1 <= s.len(),
        var_u32_outcome(s, k).0 is Err ==> var_u32_outcome(s, k).1 == s.len()
            || var_u32_outcome(s, k).0 == Err::<nat, WireError>(WireError::VarintOverflow),
    decreases s.len(),
{
    lemma_var_u32_bound_min(k);
    if s.len() > 0 && k < 4 && s[0] >= 128 {
        lemma_var_u32_outcome_bound(s.drop_first(), k + 1);
        lemma_var_u32_bound_min(k + 1);
        assert(var_u32_bound(k) == 128 * var_u32_bound(k + 1));
    }
}

pub proof fn lemma_var_u64_outcome_bound(s: Seq<u8>, k: nat)
    requires
        k <= 9,
    ensures
        var_u64_outcome(s, k).0 matches Ok(v) ==> v < var_u64_bound(k),
        var_u64_outcome(s, k).1 <= s.len(),
    decreases s.len(),
{
    lemma_var_u64_bound_min(k);
    if s.len() > 0 && k < 9 && s[0] >= 128 {
        lemma_var_u64_outcome_bound(s.drop_first(), k + 1);
        lemma_var_u64_bound_min(k + 1);
        assert(var_u64_bound(k) == 128 * var_u64_bound(k + 1));
    }
}

/// Reading an LEB128 `u32` back from its own encoding (followed by anything) gives
/// the value and consumes exactly the encoding.
pub proof fn lemma_var_u32_roundtrip(v: nat, tail: Seq<u8>, k: nat)
    requires
        k <= 4,
        v < var_u32_bound(k),
    ensures
        var_u32_outcome(leb_encode(v) + tail, k) == (
            Ok::<nat, WireError>(v),
            leb_encode(v).len(),
        ),
    decreases v,
{
    let s = leb_encode(v) + tail;
    if v < 128 {
        assert(s[0] == v as u8);
        if k >= 4 {
            reveal_with_fuel(var_u32_bound, 2);
        }
    } else {
        if k >= 4 {
            reveal_with_fuel(var_u32_bound, 2);
            assert(false);
        }
        assert(s[0] == (v % 128 + 128) as u8);
        assert(s.drop_first() =~= leb_encode(v / 128) + tail);
        lemma_var_u32_roundtrip(v / 128, tail, k + 1);
    }
}

pub proof fn lemma_var_u32_bound_min(k: nat)
    ensures
        var_u32_bound(k) >= 16,
        k < 4 ==> var_u32_bound(k) >= 128,
    decreases 4 - k,
{
    if k < 4 {
        lemma_var_u32_bound_min(k + 1);
    }
}

pub proof fn lemma_var_u64_bound_min(k: nat)
    ensures
        var_u64_bound(k) >= 2,
        k < 9 ==> var_u64_bound(k) >= 128,
    decreases 9 - k,
{
    if k < 9 {
        lemma_var_u64_bound_min(k + 1);
    }
}

pub proof fn lemma_var_u64_roundtrip(v: nat, tail: Seq<u8>, k: nat)
    requires
        k <= 9,
        v < var_u64_bound(k),
    ensures
        var_u64_outcome(leb_encode(v) + tail, k) == (
            Ok::<nat, WireError>(v),
            leb_encode(v).len(),
        ),
    decreases v,
{
    let s = leb_encode(v) + tail;
    if v < 128 {
        assert(s[0] == v as u8);
        if k >= 9 {
            reveal_with_fuel(var_u64_bound, 2);
        }
    } else {
        if k >= 9 {
            reveal_with_fuel(var_u64_bound, 2);
            assert(false);
        }
        assert(s[0] == (v % 128 + 128) as u8);
        assert(s.drop_first() =~= leb_encode(v / 128) + tail);
        lemma_var_u64_roundtrip(v / 128, tail, k + 1);
    }
}

/// Zig-zag decoding undoes zig-zag encoding.
pub proof fn lemma_zigzag_roundtrip(v: int)
    ensures
        unzigzag(zigzag(v)) == v,
{
}

pub proof fn lemma_zigzag_bound32(v: i32)
    ensures
        zigzag(v as int) < 0x1_0000_0000,
{
}

pub proof fn lemma_zigzag_bound64(v: i64)
    ensures
        zigzag(v as int) < 0x1_0000_0000_0000_0000,
{
}

/// A one-element array encodes as that element alone.
pub proof fn lemma_le_concat_single(v: nat, width: nat)
    ensures
        le_concat(seq![v], width) == le_bytes(v, width),
{
    let s = seq![v];
    assert(s.len() == 1);
    assert(s.last() == v);
    assert(s.drop_last() =~= Seq::<nat>::empty());
    assert(le_concat(s.drop_last(), width) == Seq::<u8>::empty());
    assert(Seq::<u8>::empty() + le_bytes(v, width) =~= le_bytes(v, width));
}

pub proof fn lemma_le_concat_push(vals: Seq<nat>, v: nat, width: nat)
    ensures
        le_concat(vals.push(v), width) == le_concat(vals, width) + le_bytes(v, width),
{
    assert(vals.push(v).drop_last() =~= vals);
}

// ---------------------------------------------------------------------------
// Conversions between the signed and unsigned fixed-width forms
// ---------------------------------------------------------------------------
fn i16_from_bits(u: u16) -> (v: i16)
    ensures
        v as int == as_signed(u as nat, 16),
{
    proof {
        lemma_pow2_values();
    }
    if u < 0x8000 {
        u as i16
    } else {
        ((u - 0x8000) as i16) + i16::MIN
    }
}

/// The `i32` whose two's-complement pattern is `u`.
pub fn bits_to_i32(u: u32) -> (v: i32)
    ensures
        v as int == as_signed(u as nat, 32),
{
    i32_from_bits(u)
}

/// Reading a 32-bit pattern as signed and back gives the pattern.
pub proof fn lemma_bits_roundtrip32(u: u32)
    ensures
        as_unsigned(as_signed(u as nat, 32), 32) == u,
{
    lemma_pow2_values();
}

fn i32_from_bits(u: u32) -> (v: i32)
    ensures
        v as int == as_signed(u as nat, 32),
{
    proof {
        lemma_pow2_values();
    }
    if u < 0x8000_0000 {
        u as i32
    } else {
        ((u - 0x8000_0000) as i32) + i32::MIN
    }
}

fn i64_from_bits(u: u64) -> (v: i64)
    ensures
        v as int == as_signed(u as nat, 64),
{
    proof {
        lemma_pow2_values();
    }
    if u < 0x8000_0000_0000_0000 {
        u as i64
    } else {
        ((u - 0x8000_0000_0000_0000) as i64) + i64::MIN
    }
}

fn i16_to_bits(v: i16) -> (u: u16)
    ensures
        u as nat == as_unsigned(v as int, 16),
{
    proof {
        lemma_pow2_values();
    }
    if v >= 0 {
        v as u16
    } else {
        ((v as i32) - (i16::MIN as i32)) as u16 + 0x8000
    }
}

fn i32_to_bits(v: i32) -> (u: u32)
    ensures
        u as nat == as_unsigned(v as int, 32),
{
    proof {
        lemma_pow2_values();
    }
    if v >= 0 {
        v as u32
    } else {
        ((v as i64) - (i32::MIN as i64)) as u32 + 0x8000_0000
    }
}

fn i64_to_bits(v: i64) -> (u: u64)
    ensures
        u as nat == as_unsigned(v as int, 64),
{
    proof {
        lemma_pow2_values();
    }
    if v >= 0 {
        v as u64
    } else {
        ((v as i128) - (i64::MIN as i128)) as u64 + 0x8000_0000_0000_0000
    }
}

/// Zig-zag encoding of an `i32`.
pub fn zig32(v: i32) -> (u: u32)
    ensures
        u as nat == zigzag(v as int),
{
    if v >= 0 {
        (v as u32) * 2
    } else {
        ((-(v + 1)) as u32) * 2 + 1
    }
}

/// Zig-zag encoding of an `i64`.
pub fn zig64(v: i64) -> (u: u64)
    ensures
        u as nat == zigzag(v as int),
{
    if v >= 0 {
        (v as u64) * 2
    } else {
        ((-(v + 1)) as u64) * 2 + 1
    }
}

/// Zig-zag decoding to an `i32`.
pub fn zag32(u: u32) -> (v: i32)
    ensures
        v as int == unzigzag(u as nat),
{
    if u % 2 == 0 {
        (u / 2) as i32
    } else {
        -((u / 2) as i32) - 1
    }
}

/// Zig-zag decoding to an `i64`.
pub fn zag64(u: u64) -> (v: i64)
    ensures
        v as int == unzigzag(u as nat),
{
    if u % 2 == 0 {
        (u / 2) as i64
    } else {
        -((u / 2) as i64) - 1
    }
}

// ---------------------------------------------------------------------------
// Errors
// ---------------------------------------------------------------------------
#[derive(Debug, PartialEq, Eq, Structural, Clone, Copy)]
pub enum WireError {
    UnexpectedEof,
    VarintOverflow,
    InvalidUtf8,
}

pub type WireResult<T> = Result<T, WireError>;

// ---------------------------------------------------------------------------
// Reader
// ---------------------------------------------------------------------------
/// Cursor over a byte buffer.
pub struct WireReader<'a> {
    buf: &'a [u8],
    pos: usize,
}

impl<'a> WireReader<'a> {
    #[verifier::type_invariant]
    spec fn inv(&self) -> bool {
        self.pos <= self.buf@.len()
    }

    /// The whole buffer.
    pub closed spec fn data(&self) -> Seq<u8> {
        self.buf@
    }

    /// Bytes consumed so far.
    pub closed spec fn pos(&self) -> nat {
        self.pos as nat
    }

    /// Bytes not yet consumed.
    pub open spec fn rest(&self) -> Seq<u8> {
        self.data().subrange(self.pos() as int, self.data().len() as int)
    }

    /// `after` reads the same buffer as `before`, `n` bytes further on.
    pub open spec fn advanced(before: &Self, after: &Self, n: nat) -> bool {
        &&& after.data() == before.data()
        &&& after.pos() == before.pos() + n
        &&& after.pos() <= after.data().len()
    }

    pub proof fn lemma_rest_after(before: &Self, after: &Self, n: nat)
        requires
            before.pos() <= before.data().len(),
            Self::advanced(before, after, n),
        ensures
            after.rest() =~= before.rest().subrange(n as int, before.rest().len() as int),
    {
    }

    pub fn new(buf: &'a [u8]) -> (r: Self)
        ensures
            r.data() == buf@,
            r.pos() == 0,
            r.rest() == buf@,
    {
        let r = WireReader { buf, pos: 0 };
        assert(r.rest() =~= buf@);
        r
    }

    pub fn remaining(&self) -> (n: usize)
        ensures
            n == self.rest().len(),
            self.pos() <= self.data().len(),
    {
        proof {
            use_type_invariant(self);
        }
        self.buf.len() - self.pos
    }

    pub fn position(&self) -> (n: usize)
        ensures
            n == self.pos(),
            self.pos() <= self.data().len(),
    {
        proof {
            use_type_invariant(self);
        }
        self.pos
    }

    fn take(&mut self, n: usize) -> (res: WireResult<&'a [u8]>)
        ensures
            old(self).pos() <= old(self).data().len(),
            match res {
                Ok(s) => {
                    &&& old(self).rest().len() >= n
                    &&& s@ == old(self).rest().subrange(0, n as int)
                    &&& Self::advanced(old(self), final(self), n as nat)
                },
                Err(e) => {
                    &&& old(self).rest().len() < n
                    &&& e == WireError::UnexpectedEof
                    &&& Self::advanced(old(self), final(self), 0)
                },
            },
    {
        proof {
            use_type_invariant(&*self);
        }
        if self.buf.len() - self.pos < n {
            return Err(WireError::UnexpectedEof);
        }
        let s = &self.buf[self.pos..self.pos + n];
        assert(s@ =~= old(self).rest().subrange(0, n as int));
        self.pos = self.pos + n;
        Ok(s)
    }

    pub fn read_u8(&mut self) -> (res: WireResult<u8>)
        ensures
            old(self).pos() <= old(self).data().len(),
            match res {
                Ok(b) => {
                    &&& old(self).rest().len() >= 1
                    &&& b == old(self).rest()[0]
                    &&& Self::advanced(old(self), final(self), 1)
                },
                Err(e) => {
                    &&& old(self).rest().len() == 0
                    &&& e == WireError::UnexpectedEof
                    &&& Self::advanced(old(self), final(self), 0)
                },
            },
    {
        let s = self.take(1)?;
        Ok(s[0])
    }

    pub fn read_bool(&mut self) -> (res: WireResult<bool>)
        ensures
            old(self).pos() <= old(self).data().len(),
            match res {
                Ok(b) => {
                    &&& old(self).rest().len() >= 1
                    &&& b == (old(self).rest()[0] != 0)
                    &&& Self::advanced(old(self), final(self), 1)
                },
                Err(e) => {
                    &&& old(self).rest().len() == 0
                    &&& e == WireError::UnexpectedEof
                    &&& Self::advanced(old(self), final(self), 0)
                },
            },
    {
        let b = self.read_u8()?;
        Ok(b != 0)
    }

    fn read_le(&mut self, n: usize) -> (res: WireResult<u64>)
        requires
            1 <= n <= 8,
        ensures
            old(self).pos() <= old(self).data().len(),
            match res {
                Ok(v) => {
                    &&& old(self).rest().len() >= n
                    &&& v as nat == le_value(old(self).rest().subrange(0, n as int))
                    &&& Self::advanced(old(self), final(self), n as nat)
                },
                Err(e) => {
                    &&& old(self).rest().len() < n
                    &&& e == WireError::UnexpectedEof
                    &&& Self::advanced(old(self), final(self), 0)
                },
            },
    {
        let s = self.take(n)?;
        let mut v: u64 = 0;
        let mut i: usize = n;
        proof {
            lemma_byte_range_values();
        }
        while i > 0
            invariant
                i <= n <= 8,
                s@.len() == n,
                v as nat == le_value(s@.subrange(i as int, n as int)),
                v < byte_range((n - i) as nat),
            decreases i,
        {
            i = i - 1;
            proof {
                let t = s@.subrange(i as int, n as int);
                assert(t.drop_first() =~= s@.subrange(i + 1, n as int));
                lemma_le_value_bound(s@.subrange(i + 1, n as int));
                assert(byte_range((n - i) as nat) == 256 * byte_range((n - i - 1) as nat));
                assert(byte_range((n - i) as nat) <= byte_range(8)) by {
                    lemma_byte_range_mono((n - i) as nat, 8);
                }
                lemma_byte_range_values();
                assert(256 * (v as int) + 255 < 0x1_0000_0000_0000_0000) by {
                    assert(v < byte_range((n - i - 1) as nat));
                }
            }
            v = v * 256 + s[i] as u64;
        }
        assert(s@.subrange(0, n as int) =~= s@);
        Ok(v)
    }

    pub fn read_u16(&mut self) -> (res: WireResult<u16>)
        ensures
            old(self).pos() <= old(self).data().len(),
            match res {
                Ok(v) => {
                    &&& old(self).rest().len() >= 2
                    &&& v as nat == le_value(old(self).rest().subrange(0, 2))
                    &&& Self::advanced(old(self), final(self), 2)
                },
                Err(e) => {
                    &&& old(self).rest().len() < 2
                    &&& e == WireError::UnexpectedEof
                    &&& Self::advanced(old(self), final(self), 0)
                },
            },
    {
        let v = self.read_le(2)?;
        proof {
            lemma_le_value_bound(old(self).rest().subrange(0, 2));
            lemma_byte_range_values();
        }
        Ok(v as u16)
    }

    pub fn read_i16(&mut self) -> (res: WireResult<i16>)
        ensures
            old(self).pos() <= old(self).data().len(),
            match res {
                Ok(v) => {
                    &&& old(self).rest().len() >= 2
                    &&& v as int == as_signed(le_value(old(self).rest().subrange(0, 2)), 16)
                    &&& Self::advanced(old(self), final(self), 2)
                },
                Err(e) => {
                    &&& old(self).rest().len() < 2
                    &&& e == WireError::UnexpectedEof
                    &&& Self::advanced(old(self), final(self), 0)
                },
            },
    {
        let u = self.read_u16()?;
        Ok(i16_from_bits(u))
    }

    pub fn read_u32(&mut self) -> (res: WireResult<u32>)
        ensures
            old(self).pos() <= old(self).data().len(),
            match res {
                Ok(v) => {
                    &&& old(self).rest().len() >= 4
                    &&& v as nat == le_value(old(self).rest().subrange(0, 4))
                    &&& Self::advanced(old(self), final(self), 4)
                },
                Err(e) => {
                    &&& old(self).rest().len() < 4
                    &&& e == WireError::UnexpectedEof
                    &&& Self::advanced(old(self), final(self), 0)
                },
            },
    {
        let v = self.read_le(4)?;
        proof {
            lemma_le_value_bound(old(self).rest().subrange(0, 4));
            lemma_byte_range_values();
        }
        Ok(v as u32)
    }

    pub fn read_i32(&mut self) -> (res: WireResult<i32>)
        ensures
            old(self).pos() <= old(self).data().len(),
            match res {
                Ok(v) => {
                    &&& old(self).rest().len() >= 4
                    &&& v as int == as_signed(le_value(old(self).rest().subrange(0, 4)), 32)
                    &&& Self::advanced(old(self), final(self), 4)
                },
                Err(e) => {
                    &&& old(self).rest().len() < 4
                    &&& e == WireError::UnexpectedEof
                    &&& Self::advanced(old(self), final(self), 0)
                },
            },
    {
        let u = self.read_u32()?;
        Ok(i32_from_bits(u))
    }

    pub fn read_u64(&mut self) -> (res: WireResult<u64>)
        ensures
            old(self).pos() <= old(self).data().len(),
            match res {
                Ok(v) => {
                    &&& old(self).rest().len() >= 8
                    &&& v as nat == le_value(old(self).rest().subrange(0, 8))
                    &&& Self::advanced(old(self), final(self), 8)
                },
                Err(e) => {
                    &&& old(self).rest().len() < 8
                    &&& e == WireError::UnexpectedEof
                    &&& Self::advanced(old(self), final(self), 0)
                },
            },
    {
        self.read_le(8)
    }

    pub fn read_i64(&mut self) -> (res: WireResult<i64>)
        ensures
            old(self).pos() <= old(self).data().len(),
            match res {
                Ok(v) => {
                    &&& old(self).rest().len() >= 8
                    &&& v as int == as_signed(le_value(old(self).rest().subrange(0, 8)), 64)
                    &&& Self::advanced(old(self), final(self), 8)
                },
                Err(e) => {
                    &&& old(self).rest().len() < 8
                    &&& e == WireError::UnexpectedEof
                    &&& Self::advanced(old(self), final(self), 0)
                },
            },
    {
        let u = self.read_u64()?;
        Ok(i64_from_bits(u))
    }

    fn read_var_u32_from(&mut self, k: u8) -> (res: WireResult<u32>)
        requires
            k <= 4,
        ensures
            old(self).pos() <= old(self).data().len(),
            Self::advanced(old(self), final(self), var_u32_outcome(old(self).rest(), k as nat).1),
            match res {
                Ok(v) => var_u32_outcome(old(self).rest(), k as nat).0 == Ok::<nat, WireError>(
                    v as nat,
                ),
                Err(e) => var_u32_outcome(old(self).rest(), k as nat).0 == Err::<nat, WireError>(
                    e,
                ),
            },
        decreases 4 - k,
    {
        let ghost s = old(self).rest();
        let byte = self.read_u8()?;
        proof {
            Self::lemma_rest_after(old(self), self, 1);
            assert(self.rest() =~= s.drop_first());
        }
        if k == 4 {
            if byte >= 16 {
                return Err(WireError::VarintOverflow);
            }
            return Ok(byte as u32);
        }
        if byte < 128 {
            return Ok(byte as u32);
        }
        let ghost mid = *self;
        let rest_value = self.read_var_u32_from(k + 1)?;
        proof {
            lemma_var_u32_outcome_bound(s.drop_first(), (k + 1) as nat);
            reveal_with_fuel(var_u32_bound, 6);
            assert(var_u32_bound(k as nat) == 128 * var_u32_bound((k + 1) as nat));
            assert(var_u32_bound(k as nat) <= 0x1_0000_0000) by {
                lemma_var_bounds();
                lemma_var_u32_bound_mono(k as nat);
            }
        }
        Ok((byte - 128) as u32 + 128 * rest_value)
    }

    pub fn read_var_u32(&mut self) -> (res: WireResult<u32>)
        ensures
            old(self).pos() <= old(self).data().len(),
            Self::advanced(old(self), final(self), var_u32_outcome(old(self).rest(), 0).1),
            match res {
                Ok(v) => var_u32_outcome(old(self).rest(), 0).0 == Ok::<nat, WireError>(v as nat),
                Err(e) => var_u32_outcome(old(self).rest(), 0).0 == Err::<nat, WireError>(e),
            },
    {
        self.read_var_u32_from(0)
    }

    fn read_var_u64_from(&mut self, k: u8) -> (res: WireResult<u64>)
        requires
            k <= 9,
        ensures
            old(self).pos() <= old(self).data().len(),
            Self::advanced(old(self), final(self), var_u64_outcome(old(self).rest(), k as nat).1),
            match res {
                Ok(v) => var_u64_outcome(old(self).rest(), k as nat).0 == Ok::<nat, WireError>(
                    v as nat,
                ),
                Err(e) => var_u64_outcome(old(self).rest(), k as nat).0 == Err::<nat, WireError>(
                    e,
                ),
            },
        decreases 9 - k,
    {
        let ghost s = old(self).rest();
        let byte = self.read_u8()?;
        proof {
            Self::lemma_rest_after(old(self), self, 1);
            assert(self.rest() =~= s.drop_first());
        }
        if k == 9 {
            return Ok((byte % 2) as u64);
        }
        if byte < 128 {
            return Ok(byte as u64);
        }
        let rest_value = self.read_var_u64_from(k + 1)?;
        proof {
            lemma_var_u64_outcome_bound(s.drop_first(), (k + 1) as nat);
            assert(var_u64_bound(k as nat) == 128 * var_u64_bound((k + 1) as nat));
            assert(var_u64_bound(k as nat) <= 0x1_0000_0000_0000_0000) by {
                lemma_var_bounds();
                lemma_var_u64_bound_mono(k as nat);
            }
        }
        Ok((byte - 128) as u64 + 128 * rest_value)
    }

    pub fn read_var_u64(&mut self) -> (res: WireResult<u64>)
        ensures
            old(self).pos() <= old(self).data().len(),
            Self::advanced(old(self), final(self), var_u64_outcome(old(self).rest(), 0).1),
            match res {
                Ok(v) => var_u64_outcome(old(self).rest(), 0).0 == Ok::<nat, WireError>(v as nat),
                Err(e) => var_u64_outcome(old(self).rest(), 0).0 == Err::<nat, WireError>(e),
            },
    {
        self.read_var_u64_from(0)
    }

    pub fn read_var_i32(&mut self) -> (res: WireResult<i32>)
        ensures
            old(self).pos() <= old(self).data().len(),
            Self::advanced(old(self), final(self), var_i32_outcome(old(self).rest()).1),
            match res {
                Ok(v) => var_i32_outcome(old(self).rest()).0 == Ok::<int, WireError>(v as int),
                Err(e) => var_i32_outcome(old(self).rest()).0 == Err::<int, WireError>(e),
            },
    {
        let u = self.read_var_u32()?;
        Ok(zag32(u))
    }

    pub fn read_var_i64(&mut self) -> (res: WireResult<i64>)
        ensures
            old(self).pos() <= old(self).data().len(),
            Self::advanced(old(self), final(self), var_i64_outcome(old(self).rest()).1),
            match res {
                Ok(v) => var_i64_outcome(old(self).rest()).0 == Ok::<int, WireError>(v as int),
                Err(e) => var_i64_outcome(old(self).rest()).0 == Err::<int, WireError>(e),
            },
    {
        let u = self.read_var_u64()?;
        Ok(zag64(u))
    }

    pub fn read_string(&mut self) -> (res: WireResult<Option<String>>)
        ensures
            old(self).pos() <= old(self).data().len(),
            Self::advanced(old(self), final(self), string_outcome(old(self).rest()).1),
            match res {
                Ok(None) => string_outcome(old(self).rest()).0 == Ok::<
                    Option<Seq<char>>,
                    WireError,
                >(None),
                Ok(Some(s)) => string_outcome(old(self).rest()).0 == Ok::<
                    Option<Seq<char>>,
                    WireError,
                >(Some(s@)),
                Err(e) => string_outcome(old(self).rest()).0 == Err::<Option<Seq<char>>, WireError>(
                    e,
                ),
            },
    {
        let ghost s0 = old(self).rest();
        let marker = self.read_u8()?;
        proof {
            Self::lemma_rest_after(old(self), self, 1);
            assert(self.rest() =~= s0.drop_first());
        }
        if marker == 0 {
            return Ok(None);
        }
        let ghost r1 = *self;
        let count = self.read_var_i32()?;
        proof {
            Self::lemma_rest_after(&r1, self, var_i32_outcome(r1.rest()).1);
        }
        #[verifier::truncate]
        let n = count as usize;
        let bytes = self.take(n)?;
        match utf8_to_str(bytes) {
            Some(text) => Ok(Some(str_to_string(text))),
            None => Err(WireError::InvalidUtf8),
        }
    }

    pub fn read_bytes(&mut self, n: usize) -> (res: WireResult<&'a [u8]>)
        ensures
            old(self).pos() <= old(self).data().len(),
            match res {
                Ok(s) => {
                    &&& old(self).rest().len() >= n
                    &&& s@ == old(self).rest().subrange(0, n as int)
                    &&& Self::advanced(old(self), final(self), n as nat)
                },
                Err(e) => {
                    &&& old(self).rest().len() < n
                    &&& e == WireError::UnexpectedEof
                    &&& Self::advanced(old(self), final(self), 0)
                },
            },
    {
        self.take(n)
    }
}

pub proof fn lemma_byte_range_mono(a: nat, b: nat)
    requires
        a <= b,
    ensures
        byte_range(a) <= byte_range(b),
    decreases b,
{
    if a < b {
        lemma_byte_range_mono(a, (b - 1) as nat);
    }
}

pub proof fn lemma_var_u32_bound_mono(k: nat)
    requires
        k <= 4,
    ensures
        var_u32_bound(k) <= var_u32_bound(0),
    decreases k,
{
    if k > 0 {
        lemma_var_u32_bound_mono((k - 1) as nat);
    }
}

pub proof fn lemma_var_u64_bound_mono(k: nat)
    requires
        k <= 9,
    ensures
        var_u64_bound(k) <= var_u64_bound(0),
    decreases k,
{
    if k > 0 {
        lemma_var_u64_bound_mono((k - 1) as nat);
    }
}


// ---------------------------------------------------------------------------
// Writer
// ---------------------------------------------------------------------------
/// Growable output buffer.
pub struct WireWriter {
    buf: Vec<u8>,
}

impl View for WireWriter {
    type V = Seq<u8>;

    closed spec fn view(&self) -> Seq<u8> {
        self.buf@
    }
}

impl Default for WireWriter {
    fn default() -> (w: Self)
        ensures
            w@ == Seq::<u8>::empty(),
    {
        WireWriter { buf: Vec::new() }
    }
}

impl WireWriter {
    pub fn new() -> (w: Self)
        ensures
            w@ == Seq::<u8>::empty(),
    {
        WireWriter { buf: Vec::new() }
    }

    pub fn into_bytes(self) -> (b: Vec<u8>)
        ensures
            b@ == self@,
    {
        self.buf
    }

    pub fn as_slice(&self) -> (s: &[u8])
        ensures
            s@ == self@,
    {
        self.buf.as_slice()
    }

    pub fn len(&self) -> (n: usize)
        ensures
            n == self@.len(),
    {
        self.buf.len()
    }

    pub fn is_empty(&self) -> (b: bool)
        ensures
            b == (self@.len() == 0),
    {
        self.buf.len() == 0
    }

    pub fn write_u8(&mut self, v: u8)
        ensures
            final(self)@ == old(self)@.push(v),
    {
        self.buf.push(v);
    }

    pub fn write_bool(&mut self, v: bool)
        ensures
            final(self)@ == old(self)@.push(if v { 1u8 } else { 0u8 }),
    {
        self.buf.push(if v { 1u8 } else { 0u8 });
    }

    fn push_le(&mut self, v: u64, n: usize)
        requires
            n <= 8,
        ensures
            final(self)@ == old(self)@ + le_bytes(v as nat, n as nat),
    {
        let mut x: u64 = v;
        let mut i: usize = 0;
        while i < n
            invariant
                i <= n,
                self@ + le_bytes(x as nat, (n - i) as nat) == old(self)@ + le_bytes(v as nat, n as nat),
            decreases n - i,
        {
            let ghost before = self@;
            self.buf.push((x % 256) as u8);
            proof {
                let m = (n - i) as nat;
                assert(le_bytes(x as nat, m) == seq![(x % 256) as u8] + le_bytes(
                    (x / 256) as nat,
                    (m - 1) as nat,
                ));
                assert(before + le_bytes(x as nat, m) =~= self@ + le_bytes(
                    (x / 256) as nat,
                    (m - 1) as nat,
                ));
            }
            x = x / 256;
            i = i + 1;
        }
        assert(le_bytes(x as nat, 0) =~= Seq::<u8>::empty());
        assert(self@ + Seq::<u8>::empty() =~= self@);
    }

    pub fn write_u16(&mut self, v: u16)
        ensures
            final(self)@ == old(self)@ + le_bytes(v as nat, 2),
    {
        self.push_le(v as u64, 2);
    }

    pub fn write_i16(&mut self, v: i16)
        ensures
            final(self)@ == old(self)@ + le_bytes(as_unsigned(v as int, 16), 2),
    {
        self.write_u16(i16_to_bits(v));
    }

    pub fn write_u32(&mut self, v: u32)
        ensures
            final(self)@ == old(self)@ + le_bytes(v as nat, 4),
    {
        self.push_le(v as u64, 4);
    }

    pub fn write_i32(&mut self, v: i32)
        ensures
            final(self)@ == old(self)@ + le_bytes(as_unsigned(v as int, 32), 4),
    {
        self.write_u32(i32_to_bits(v));
    }

    /// `Rts.Serialization` `WriteEnum` for a default (Int32) `[Flags]` enum:
    /// `TypeCode.Int32` (9) + little-endian i32.
    pub fn write_rts_enum_i32(&mut self, value: i32)
        ensures
            final(self)@ == old(self)@.push(9u8) + le_bytes(as_unsigned(value as int, 32), 4),
    {
        self.write_u8(9);
        self.write_i32(value);
    }

    pub fn write_u64(&mut self, v: u64)
        ensures
            final(self)@ == old(self)@ + le_bytes(v as nat, 8),
    {
        self.push_le(v, 8);
    }

    pub fn write_i64(&mut self, v: i64)
        ensures
            final(self)@ == old(self)@ + le_bytes(as_unsigned(v as int, 64), 8),
    {
        self.write_u64(i64_to_bits(v));
    }

    pub fn write_var_u32(&mut self, v: u32)
        ensures
            final(self)@ == old(self)@ + leb_encode(v as nat),
    {
        self.write_var_u64(v as u64);
    }

    pub fn write_var_u64(&mut self, v: u64)
        ensures
            final(self)@ == old(self)@ + leb_encode(v as nat),
    {
        let mut x: u64 = v;
        loop
            invariant
                self@ + leb_encode(x as nat) == old(self)@ + leb_encode(v as nat),
            decreases x,
        {
            let ghost before = self@;
            if x < 128 {
                self.buf.push(x as u8);
                assert(before + leb_encode(x as nat) =~= self@);
                return;
            }
            self.buf.push((x % 128 + 128) as u8);
            assert(before + leb_encode(x as nat) =~= self@ + leb_encode((x / 128) as nat));
            x = x / 128;
        }
    }

    pub fn write_var_i32(&mut self, v: i32)
        ensures
            final(self)@ == old(self)@ + leb_encode(zigzag(v as int)),
    {
        let u = zig32(v);
        self.write_var_u32(u);
    }

    pub fn write_var_i64(&mut self, v: i64)
        ensures
            final(self)@ == old(self)@ + leb_encode(zigzag(v as int)),
    {
        let u = zig64(v);
        self.write_var_u64(u);
    }

    pub fn write_bytes(&mut self, b: &[u8])
        ensures
            final(self)@ == old(self)@ + b@,
    {
        let mut i: usize = 0;
        while i < b.len()
            invariant
                i <= b@.len(),
                self@ == old(self)@ + b@.subrange(0, i as int),
            decreases b@.len() - i,
        {
            self.buf.push(b[i]);
            assert(b@.subrange(0, i + 1) =~= b@.subrange(0, i as int).push(b@[i as int]));
            i = i + 1;
        }
        assert(b@.subrange(0, b@.len() as int) =~= b@);
    }

    pub fn write_string(&mut self, v: Option<&str>)
        ensures
            final(self)@ == old(self)@ + string_bytes(
                match v {
                    None => None,
                    Some(s) => Some(s@),
                },
            ),
    {
        match v {
            None => {
                self.buf.push(0);
                assert(old(self)@.push(0u8) =~= old(self)@ + seq![0u8]);
            },
            Some(s) => {
                self.buf.push(1);
                let bytes = s.as_bytes();
                #[verifier::truncate]
                let count = bytes.len() as i32;
                self.write_var_i32(count);
                self.write_bytes(bytes);
                assert(self@ =~= old(self)@ + string_bytes(Some(s@)));
            },
        }
    }

    pub fn write_ref_array_u32(&mut self, values: &[u32])
        ensures
            final(self)@ == old(self)@ + ref_array_header(values@.len()) + le_concat(
                u32_values(values@),
                4,
            ),
    {
        self.write_ref_array_len(values.len());
        let ghost start = self@;
        let mut i: usize = 0;
        while i < values.len()
            invariant
                i <= values@.len(),
                self@ == start + le_concat(u32_values(values@.subrange(0, i as int)), 4),
            decreases values@.len() - i,
        {
            let v = values[i];
            self.write_u32(v);
            proof {
                assert(u32_values(values@.subrange(0, i + 1)) =~= u32_values(
                    values@.subrange(0, i as int),
                ).push(v as nat));
                lemma_le_concat_push(u32_values(values@.subrange(0, i as int)), v as nat, 4);
            }
            i = i + 1;
        }
        assert(values@.subrange(0, values@.len() as int) =~= values@);
    }

    pub fn write_ref_array_u64(&mut self, values: &[u64])
        ensures
            final(self)@ == old(self)@ + ref_array_header(values@.len()) + le_concat(
                u64_values(values@),
                8,
            ),
    {
        self.write_ref_array_len(values.len());
        let ghost start = self@;
        let mut i: usize = 0;
        while i < values.len()
            invariant
                i <= values@.len(),
                self@ == start + le_concat(u64_values(values@.subrange(0, i as int)), 8),
            decreases values@.len() - i,
        {
            let v = values[i];
            self.write_u64(v);
            proof {
                assert(u64_values(values@.subrange(0, i + 1)) =~= u64_values(
                    values@.subrange(0, i as int),
                ).push(v as nat));
                lemma_le_concat_push(u64_values(values@.subrange(0, i as int)), v as nat, 8);
            }
            i = i + 1;
        }
        assert(values@.subrange(0, values@.len() as int) =~= values@);
    }

    pub fn write_ref_array_len(&mut self, len: usize)
        ensures
            final(self)@ == old(self)@ + ref_array_header(len as nat),
    {
        self.write_u8(1);
        #[verifier::truncate]
        let count = len as i32;
        self.write_var_i32(count);
        assert(self@ =~= old(self)@ + ref_array_header(len as nat));
    }
}

// ---------------------------------------------------------------------------
// Frames
// ---------------------------------------------------------------------------
/// Bytes of a `SimpleFrame`: u16 type id, u32 payload length, payload.
pub open spec fn simple_frame_bytes(type_id: u16, payload: Seq<u8>) -> Seq<u8> {
    le_bytes(type_id as nat, 2) + le_bytes((payload.len() as u32) as nat, 4) + payload
}

/// What `SimpleFrame::try_read` finds at the front of `buf`: `None` while the
/// header or payload is incomplete, else the type id, payload and bytes consumed.
pub open spec fn simple_frame_parse(buf: Seq<u8>) -> Option<(u16, Seq<u8>, nat)> {
    if buf.len() < 6 {
        None
    } else {
        let plen = le_value(buf.subrange(2, 6));
        if buf.len() - 6 < plen {
            None
        } else {
            Some(
                (
                    le_value(buf.subrange(0, 2)) as u16,
                    buf.subrange(6, 6 + plen as int),
                    6 + plen,
                ),
            )
        }
    }
}

/// Body of an `Envelope`: sender, receiver (each u16-length-prefixed), u16 type
/// id, u32-length-prefixed payload.
pub open spec fn envelope_body_bytes(
    sender: Seq<u8>,
    receiver: Seq<u8>,
    type_id: u16,
    payload: Seq<u8>,
) -> Seq<u8> {
    le_bytes((sender.len() as u16) as nat, 2) + sender + le_bytes((receiver.len() as u16) as nat, 2)
        + receiver + le_bytes(type_id as nat, 2) + le_bytes((payload.len() as u32) as nat, 4)
        + payload
}

/// Whole `Envelope`: u32 body length, body.
pub open spec fn envelope_bytes(
    sender: Seq<u8>,
    receiver: Seq<u8>,
    type_id: u16,
    payload: Seq<u8>,
) -> Seq<u8> {
    let body = envelope_body_bytes(sender, receiver, type_id, payload);
    le_bytes((body.len() as u32) as nat, 4) + body
}

/// Split a `width`-byte little-endian integer off the front of `b`.
pub open spec fn split_le(b: Seq<u8>, width: nat) -> Option<(nat, Seq<u8>)> {
    if b.len() < width {
        None
    } else {
        Some((le_value(b.subrange(0, width as int)), b.subrange(width as int, b.len() as int)))
    }
}

/// Split `n` bytes off the front of `b`.
pub open spec fn split_bytes(b: Seq<u8>, n: nat) -> Option<(Seq<u8>, Seq<u8>)> {
    if b.len() < n {
        None
    } else {
        Some((b.subrange(0, n as int), b.subrange(n as int, b.len() as int)))
    }
}

/// Fields read from an envelope body, or `None` when the body ends early.
/// Bytes after the payload are ignored.
pub open spec fn envelope_body_parse(b: Seq<u8>) -> Option<(Seq<u8>, Seq<u8>, u16, Seq<u8>)> {
    match split_le(b, 2) {
        None => None,
        Some((sl, b1)) => match split_bytes(b1, sl) {
            None => None,
            Some((sender, b2)) => match split_le(b2, 2) {
                None => None,
                Some((rl, b3)) => match split_bytes(b3, rl) {
                    None => None,
                    Some((receiver, b4)) => match split_le(b4, 2) {
                        None => None,
                        Some((t, b5)) => match split_le(b5, 4) {
                            None => None,
                            Some((pl, b6)) => match split_bytes(b6, pl) {
                                None => None,
                                Some((payload, _)) => Some((sender, receiver, t as u16, payload)),
                            },
                        },
                    },
                },
            },
        },
    }
}

/// What `Envelope::try_read` finds at the front of `buf`.
pub open spec fn envelope_parse(buf: Seq<u8>) -> Result<
    Option<(Seq<u8>, Seq<u8>, u16, Seq<u8>, nat)>,
    WireError,
> {
    if buf.len() < 4 {
        Ok(None)
    } else {
        let size = le_value(buf.subrange(0, 4));
        if buf.len() - 4 < size {
            Ok(None)
        } else {
            match envelope_body_parse(buf.subrange(4, 4 + size as int)) {
                None => Err(WireError::UnexpectedEof),
                Some((sender, receiver, t, payload)) => Ok(
                    Some((sender, receiver, t, payload, 4 + size)),
                ),
            }
        }
    }
}

#[derive(Debug, Clone, PartialEq, Eq)]
pub struct Envelope {
    pub sender: Vec<u8>,
    pub receiver: Vec<u8>,
    pub type_id: u16,
    pub payload: Vec<u8>,
}

impl Envelope {
    #[verifier::rlimit(60)]
    #[verifier::spinoff_prover]
    pub fn try_read(buf: &[u8]) -> (res: WireResult<Option<(Envelope, usize)>>)
        ensures
            match (res, envelope_parse(buf@)) {
                (Ok(None), Ok(None)) => true,
                (Ok(Some((e, n))), Ok(Some((s, r, t, p, m)))) => e.sender@ == s && e.receiver@ == r
                    && e.type_id == t && e.payload@ == p && n == m,
                (Err(e1), Err(e2)) => e1 == e2,
                _ => false,
            },
    {
        if buf.len() < 4 {
            return Ok(None);
        }
        let mut hr = WireReader::new(buf);
        let size32 = match hr.read_u32() {
            Ok(v) => v,
            Err(_) => {
                return Ok(None);
            },
        };
        assert(buf@.subrange(0, 4) =~= hr.data().subrange(0, 4));
        let envelope_size = size32 as usize;
        if buf.len() - 4 < envelope_size {
            return Ok(None);
        }
        let body = &buf[4..4 + envelope_size];
        let ghost b = body@;
        let mut r = WireReader::new(body);
        let ghost r0 = r;
        let sender_len = r.read_u16()? as usize;
        let ghost r1 = r;
        proof {
            WireReader::lemma_rest_after(&r0, &r1, 2);
        }
        let sender = vstd::slice::slice_to_vec(r.read_bytes(sender_len)?);
        let ghost r2 = r;
        proof {
            WireReader::lemma_rest_after(&r1, &r2, sender_len as nat);
        }
        let recv_len = r.read_u16()? as usize;
        let ghost r3 = r;
        proof {
            WireReader::lemma_rest_after(&r2, &r3, 2);
        }
        let receiver = vstd::slice::slice_to_vec(r.read_bytes(recv_len)?);
        let ghost r4 = r;
        proof {
            WireReader::lemma_rest_after(&r3, &r4, recv_len as nat);
        }
        let type_id = r.read_u16()?;
        let ghost r5 = r;
        proof {
            WireReader::lemma_rest_after(&r4, &r5, 2);
        }
        let payload_len = r.read_u32()? as usize;
        let ghost r6 = r;
        proof {
            WireReader::lemma_rest_after(&r5, &r6, 4);
        }
        let payload = vstd::slice::slice_to_vec(r.read_bytes(payload_len)?);
        Ok(Some((Envelope { sender, receiver, type_id, payload }, 4 + envelope_size)))
    }

    pub fn write(&self) -> (out: Vec<u8>)
        ensures
            out@ == envelope_bytes(self.sender@, self.receiver@, self.type_id, self.payload@),
    {
        let mut body = WireWriter::new();
        #[verifier::truncate]
        let sender_len = self.sender.len() as u16;
        body.write_u16(sender_len);
        body.write_bytes(self.sender.as_slice());
        #[verifier::truncate]
        let recv_len = self.receiver.len() as u16;
        body.write_u16(recv_len);
        body.write_bytes(self.receiver.as_slice());
        body.write_u16(self.type_id);
        #[verifier::truncate]
        let payload_len = self.payload.len() as u32;
        body.write_u32(payload_len);
        body.write_bytes(self.payload.as_slice());
        assert(body@ =~= envelope_body_bytes(
            self.sender@,
            self.receiver@,
            self.type_id,
            self.payload@,
        ));
        let body = body.into_bytes();
        let mut out = WireWriter::new();
        #[verifier::truncate]
        let body_len = body.len() as u32;
        out.write_u32(body_len);
        out.write_bytes(body.as_slice());
        out.into_bytes()
    }
}

#[derive(Debug, Clone, PartialEq, Eq)]
pub struct SimpleFrame {
    pub type_id: u16,
    pub payload: Vec<u8>,
}

impl SimpleFrame {
    pub fn try_read(buf: &[u8]) -> (res: WireResult<Option<(SimpleFrame, usize)>>)
        ensures
            match res {
                Ok(None) => simple_frame_parse(buf@) is None,
                Ok(Some((f, n))) => simple_frame_parse(buf@) == Some((f.type_id, f.payload@, n as nat)),
                Err(_) => false,
            },
    {
        if buf.len() < 6 {
            return Ok(None);
        }
        let mut r = WireReader::new(buf);
        let type_id = match r.read_u16() {
            Ok(v) => v,
            Err(_) => {
                return Ok(None);
            },
        };
        let ghost r1 = r;
        let payload_len = match r.read_u32() {
            Ok(v) => v as usize,
            Err(_) => {
                return Ok(None);
            },
        };
        proof {
            assert(buf@.subrange(0, 2) =~= buf@.subrange(0, buf@.len() as int).subrange(0, 2));
            assert(r1.rest() =~= buf@.subrange(2, buf@.len() as int));
            assert(r1.rest().subrange(0, 4) =~= buf@.subrange(2, 6));
        }
        if buf.len() - 6 < payload_len {
            return Ok(None);
        }
        let payload = vstd::slice::slice_to_vec(&buf[6..6 + payload_len]);
        Ok(Some((SimpleFrame { type_id, payload }, 6 + payload_len)))
    }

    pub fn write(&self) -> (out: Vec<u8>)
        ensures
            out@ == simple_frame_bytes(self.type_id, self.payload@),
    {
        let mut w = WireWriter::new();
        w.write_u16(self.type_id);
        #[verifier::truncate]
        let payload_len = self.payload.len() as u32;
        w.write_u32(payload_len);
        w.write_bytes(self.payload.as_slice());
        w.into_bytes()
    }

    /// Decode a frame known to be complete at the front of `bytes`.
    pub fn from_wire(bytes: &[u8]) -> (f: Self)
        requires
            simple_frame_parse(bytes@) is Some,
        ensures
            simple_frame_parse(bytes@) matches Some((t, p, _)) && f.type_id == t && f.payload@ == p,
    {
        match Self::try_read(bytes) {
            Ok(Some((frame, _))) => frame,
            _ => {
                assert(false);
                SimpleFrame { type_id: 0, payload: Vec::new() }
            },
        }
    }
}

// ---------------------------------------------------------------------------
// Laws: what a reader gives back of what a writer wrote
// ---------------------------------------------------------------------------
/// A `u32` varint written by `write_var_u32` reads back as the same value,
/// consuming exactly the bytes written, whatever follows it.
pub proof fn law_var_u32_roundtrip(v: u32, tail: Seq<u8>)
    ensures
        var_u32_outcome(leb_encode(v as nat) + tail, 0) == (
            Ok::<nat, WireError>(v as nat),
            leb_encode(v as nat).len(),
        ),
{
    lemma_var_bounds();
    lemma_var_u32_roundtrip(v as nat, tail, 0);
}

/// A `u64` varint written by `write_var_u64` reads back as the same value.
pub proof fn law_var_u64_roundtrip(v: u64, tail: Seq<u8>)
    ensures
        var_u64_outcome(leb_encode(v as nat) + tail, 0) == (
            Ok::<nat, WireError>(v as nat),
            leb_encode(v as nat).len(),
        ),
{
    lemma_var_bounds();
    lemma_var_u64_roundtrip(v as nat, tail, 0);
}

/// A signed `i32` varint (zig-zag) reads back as the same value.
pub proof fn law_var_i32_roundtrip(v: i32, tail: Seq<u8>)
    ensures
        var_i32_outcome(leb_encode(zigzag(v as int)) + tail) == (
            Ok::<int, WireError>(v as int),
            leb_encode(zigzag(v as int)).len(),
        ),
{
    lemma_var_bounds();
    lemma_zigzag_bound32(v);
    lemma_var_u32_roundtrip(zigzag(v as int), tail, 0);
}

/// A signed `i64` varint (zig-zag) reads back as the same value.
pub proof fn law_var_i64_roundtrip(v: i64, tail: Seq<u8>)
    ensures
        var_i64_outcome(leb_encode(zigzag(v as int)) + tail) == (
            Ok::<int, WireError>(v as int),
            leb_encode(zigzag(v as int)).len(),
        ),
{
    lemma_var_bounds();
    lemma_zigzag_bound64(v);
    lemma_var_u64_roundtrip(zigzag(v as int), tail, 0);
}

/// Fixed-width little-endian integers read back as written, for every width
/// the writer offers.
pub proof fn law_fixed_roundtrip(v: nat, n: nat, tail: Seq<u8>)
    requires
        n == 2 || n == 4 || n == 8,
        v < byte_range(n),
    ensures
        (le_bytes(v, n) + tail).len() >= n,
        le_value((le_bytes(v, n) + tail).subrange(0, n as int)) == v,
{
    lemma_le_bytes_len(v, n);
    assert((le_bytes(v, n) + tail).subrange(0, n as int) =~= le_bytes(v, n));
    lemma_le_roundtrip(v, n);
}

/// Signed fixed-width integers: the two's-complement pattern reads back as the value.
pub proof fn law_signed_roundtrip(v: int, bits: nat)
    requires
        bits == 16 || bits == 32 || bits == 64,
        -pow2_spec((bits - 1) as nat) <= v < pow2_spec((bits - 1) as nat),
    ensures
        as_signed(as_unsigned(v, bits), bits) == v,
        as_unsigned(v, bits) < pow2_spec(bits),
{
    lemma_pow2_values();
}

/// A string written by `write_string` reads back as the same characters
/// (or the same absence), consuming exactly the bytes written.
pub proof fn law_string_roundtrip(v: Option<Seq<char>>, tail: Seq<u8>)
    requires
        v matches Some(c) ==> encode_utf8(c).len() <= i32::MAX,
    ensures
        string_outcome(string_bytes(v) + tail) == (
            Ok::<Option<Seq<char>>, WireError>(v),
            string_bytes(v).len(),
        ),
{
    let s = string_bytes(v) + tail;
    match v {
        None => {
            assert(s[0] == 0);
        },
        Some(c) => {
            let bytes = encode_utf8(c);
            let count = bytes.len() as i32;
            let z = zigzag(count as int);
            let rest = s.drop_first();
            assert(s[0] == 1u8);
            assert(rest =~= leb_encode(z) + (bytes + tail));
            law_var_i32_roundtrip(count, bytes + tail);
            let c_len = leb_encode(z).len();
            let after = rest.subrange(c_len as int, rest.len() as int);
            assert(after =~= bytes + tail);
            assert(after.subrange(0, bytes.len() as int) =~= bytes);
            assert(((count as i32) as usize) as nat == bytes.len());
        },
    }
}

/// A written `SimpleFrame` reads back whole, whatever follows it.
pub proof fn law_simple_frame_roundtrip(type_id: u16, payload: Seq<u8>, tail: Seq<u8>)
    requires
        payload.len() <= u32::MAX,
    ensures
        simple_frame_parse(simple_frame_bytes(type_id, payload) + tail) == Some(
            (type_id, payload, 6 + payload.len()),
        ),
{
    let b = simple_frame_bytes(type_id, payload) + tail;
    let t = le_bytes(type_id as nat, 2);
    let l = le_bytes((payload.len() as u32) as nat, 4);
    lemma_le_bytes_len(type_id as nat, 2);
    lemma_le_bytes_len((payload.len() as u32) as nat, 4);
    lemma_byte_range_values();
    assert(b.subrange(0, 2) =~= t);
    assert(b.subrange(2, 6) =~= l);
    lemma_le_roundtrip(type_id as nat, 2);
    lemma_le_roundtrip((payload.len() as u32) as nat, 4);
    assert(b.subrange(6, 6 + payload.len() as int) =~= payload);
}

/// Any strict prefix of a written `SimpleFrame` is reported as incomplete.
pub proof fn law_simple_frame_prefix_incomplete(type_id: u16, payload: Seq<u8>, k: nat)
    requires
        payload.len() <= u32::MAX,
        k < simple_frame_bytes(type_id, payload).len(),
    ensures
        simple_frame_parse(simple_frame_bytes(type_id, payload).subrange(0, k as int)) is None,
{
    let full = simple_frame_bytes(type_id, payload);
    let b = full.subrange(0, k as int);
    lemma_le_bytes_len(type_id as nat, 2);
    lemma_le_bytes_len((payload.len() as u32) as nat, 4);
    lemma_byte_range_values();
    if k >= 6 {
        assert(b.subrange(2, 6) =~= le_bytes((payload.len() as u32) as nat, 4));
        lemma_le_roundtrip((payload.len() as u32) as nat, 4);
    }
}

pub proof fn lemma_split_le_prefix(x: nat, width: nat, rest: Seq<u8>)
    requires
        x < byte_range(width),
    ensures
        split_le(le_bytes(x, width) + rest, width) == Some((x, rest)),
{
    lemma_le_bytes_len(x, width);
    lemma_le_roundtrip(x, width);
    let b = le_bytes(x, width) + rest;
    assert(b.subrange(0, width as int) =~= le_bytes(x, width));
    assert(b.subrange(width as int, b.len() as int) =~= rest);
}

pub proof fn lemma_split_bytes_prefix(a: Seq<u8>, rest: Seq<u8>)
    ensures
        split_bytes(a + rest, a.len()) == Some((a, rest)),
{
    let b = a + rest;
    assert(b.subrange(0, a.len() as int) =~= a);
    assert(b.subrange(a.len() as int, b.len() as int) =~= rest);
}

pub proof fn lemma_envelope_body_parse(
    sender: Seq<u8>,
    receiver: Seq<u8>,
    type_id: u16,
    payload: Seq<u8>,
)
    requires
        sender.len() <= u16::MAX,
        receiver.len() <= u16::MAX,
        payload.len() <= u32::MAX,
    ensures
        envelope_body_parse(envelope_body_bytes(sender, receiver, type_id, payload)) == Some(
            (sender, receiver, type_id, payload),
        ),
{
    lemma_byte_range_values();
    let h0 = le_bytes((sender.len() as u16) as nat, 2);
    let h1 = le_bytes((receiver.len() as u16) as nat, 2);
    let h2 = le_bytes(type_id as nat, 2);
    let h3 = le_bytes((payload.len() as u32) as nat, 4);
    let b6 = payload;
    let b5 = h3 + b6;
    let b4 = h2 + b5;
    let b3 = receiver + b4;
    let b2 = h1 + b3;
    let b1 = sender + b2;
    let b0 = h0 + b1;
    assert(envelope_body_bytes(sender, receiver, type_id, payload) =~= b0);
    lemma_split_le_prefix((sender.len() as u16) as nat, 2, b1);
    lemma_split_bytes_prefix(sender, b2);
    lemma_split_le_prefix((receiver.len() as u16) as nat, 2, b3);
    lemma_split_bytes_prefix(receiver, b4);
    lemma_split_le_prefix(type_id as nat, 2, b5);
    lemma_split_le_prefix((payload.len() as u32) as nat, 4, b6);
    lemma_split_bytes_prefix(payload, Seq::<u8>::empty());
    assert(payload + Seq::<u8>::empty() =~= payload);
}

/// A written `Envelope` reads back whole when each length fits its prefix field.
pub proof fn law_envelope_roundtrip(
    sender: Seq<u8>,
    receiver: Seq<u8>,
    type_id: u16,
    payload: Seq<u8>,
    tail: Seq<u8>,
)
    requires
        sender.len() <= u16::MAX,
        receiver.len() <= u16::MAX,
        payload.len() <= u32::MAX,
        envelope_body_bytes(sender, receiver, type_id, payload).len() <= u32::MAX,
    ensures
        envelope_parse(envelope_bytes(sender, receiver, type_id, payload) + tail) == Ok::<
            Option<(Seq<u8>, Seq<u8>, u16, Seq<u8>, nat)>,
            WireError,
        >(
            Some(
                (
                    sender,
                    receiver,
                    type_id,
                    payload,
                    envelope_bytes(sender, receiver, type_id, payload).len(),
                ),
            ),
        ),
{
    let body = envelope_body_bytes(sender, receiver, type_id, payload);
    let b = envelope_bytes(sender, receiver, type_id, payload) + tail;
    lemma_byte_range_values();
    let hb = le_bytes((body.len() as u32) as nat, 4);
    lemma_le_bytes_len((body.len() as u32) as nat, 4);
    lemma_le_roundtrip((body.len() as u32) as nat, 4);
    assert(b.subrange(0, 4) =~= hb);
    assert(b.subrange(4, 4 + body.len() as int) =~= body);
    lemma_envelope_body_parse(sender, receiver, type_id, payload);
}

/// Any buffer too short to hold the length prefix and the whole body of a written
/// `Envelope` is reported as incomplete (`Ok(None)`), never as an error.
pub proof fn law_envelope_prefix_incomplete(
    sender: Seq<u8>,
    receiver: Seq<u8>,
    type_id: u16,
    payload: Seq<u8>,
    k: nat,
)
    requires
        envelope_body_bytes(sender, receiver, type_id, payload).len() <= u32::MAX,
        k < envelope_bytes(sender, receiver, type_id, payload).len(),
    ensures
        envelope_parse(envelope_bytes(sender, receiver, type_id, payload).subrange(0, k as int))
            == Ok::<Option<(Seq<u8>, Seq<u8>, u16, Seq<u8>, nat)>, WireError>(None),
{
    let body = envelope_body_bytes(sender, receiver, type_id, payload);
    let full = envelope_bytes(sender, receiver, type_id, payload);
    let b = full.subrange(0, k as int);
    lemma_byte_range_values();
    lemma_le_bytes_len((body.len() as u32) as nat, 4);
    if k >= 4 {
        assert(b.subrange(0, 4) =~= le_bytes((body.len() as u32) as nat, 4));
        lemma_le_roundtrip((body.len() as u32) as nat, 4);
    }
}

/// `core::str::from_utf8`: succeeds exactly on valid UTF-8 and then reads the
/// bytes as the characters they encode.
#[verifier::external_body]
pub(crate) fn utf8_to_str(b: &[u8]) -> (res: Option<&str>)
    ensures
        res is Some <==> valid_utf8(b@),
        res matches Some(s) ==> s@ == decode_utf8(b@),
{
    core::str::from_utf8(b).ok()
}

/// `str::to_string`: an owned copy with the same characters.
#[verifier::external_body]
pub fn str_to_string(s: &str) -> (res: String)
    ensures
        res@ == s@,
{
    s.to_string()
}

} // verus!
