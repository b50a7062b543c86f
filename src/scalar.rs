//! Scalar types a field can hold, and their reconstruction from raw bytes in
//! either byte order.
use vstd::prelude::*;

verus! {

/// Byte order of a field's raw bytes.
#[derive(Debug, Clone, Copy, PartialEq, Eq, Structural)]
pub enum Endianness {
    Little,
    Big,
}

/// The scalar type a field is declared with.
#[derive(Debug, Clone, Copy, PartialEq, Eq, Structural)]
pub enum ScalarKind {
    U8,
    U16,
    U32,
    U64,
    I8,
    I16,
    I32,
    I64,
    /// IEEE 754 single precision; decoded as its bit pattern.
    F32,
    /// IEEE 754 double precision; decoded as its bit pattern.
    F64,
}

/// Reconstructed value of a scalar field.
#[derive(Debug, Clone, Copy, PartialEq, Eq, Structural)]
pub enum ScalarValue {
    Unsigned(u64),
    Signed(i64),
    /// The raw IEEE 754 bit pattern of a floating-point field.
    FloatBits(u64),
}

/// Natural byte size of a scalar kind.
pub open spec fn kind_size(kind: ScalarKind) -> nat {
    match kind {
        ScalarKind::U8 | ScalarKind::I8 => 1,
        ScalarKind::U16 | ScalarKind::I16 => 2,
        ScalarKind::U32 | ScalarKind::I32 | ScalarKind::F32 => 4,
        ScalarKind::U64 | ScalarKind::I64 | ScalarKind::F64 => 8,
    }
}

/// `256` to the power `n`.
pub open spec fn pow256(n: nat) -> nat
    decreases n,
{
    if n == 0 {
        1
    } else {
        256 * pow256((n - 1) as nat)
    }
}

/// The number whose big-endian base-256 digits are `s`.
pub open spec fn be_nat(s: Seq<u8>) -> nat
    decreases s.len(),
{
    if s.len() == 0 {
        0
    } else {
        be_nat(s.drop_last()) * 256 + s.last() as nat
    }
}

/// The number whose little-endian base-256 digits are `s`.
pub open spec fn le_nat(s: Seq<u8>) -> nat
    decreases s.len(),
{
    if s.len() == 0 {
        0
    } else {
        s[0] as nat + 256 * le_nat(s.drop_first())
    }
}

/// The unsigned number that `bytes` encode in byte order `e`.
pub open spec fn unsigned_of(bytes: Seq<u8>, e: Endianness) -> nat {
    match e {
        Endianness::Little => le_nat(bytes),
        Endianness::Big => be_nat(bytes),
    }
}

/// The two's complement reading of the `width`-byte unsigned number `n`.
pub open spec fn signed_of(n: nat, width: nat) -> int {
    if n >= pow256(width) / 2 {
        n - pow256(width)
    } else {
        n as int
    }
}

/// The value of a field of kind `kind` whose bytes are `bytes` in order `e`.
pub open spec fn scalar_of(kind: ScalarKind, e: Endianness, bytes: Seq<u8>) -> ScalarValue {
    let n = unsigned_of(bytes, e);
    match kind {
        ScalarKind::U8 | ScalarKind::U16 | ScalarKind::U32 | ScalarKind::U64 => ScalarValue::Unsigned(
            n as u64,
        ),
        ScalarKind::I8 | ScalarKind::I16 | ScalarKind::I32 | ScalarKind::I64 => ScalarValue::Signed(
            signed_of(n, kind_size(kind)) as i64,
        ),
        ScalarKind::F32 | ScalarKind::F64 => ScalarValue::FloatBits(n as u64),
    }
}

proof fn lemma_pow256_facts()
    ensures
        pow256(1) == 0x100,
        pow256(2) == 0x1_0000,
        pow256(4) == 0x1_0000_0000,
        pow256(8) == 0x1_0000_0000_0000_0000,
{
    reveal_with_fuel(pow256, 9);
}

proof fn lemma_pow256_monotonic(a: nat, b: nat)
    requires
        a <= b,
    ensures
        pow256(a) <= pow256(b),
    decreases b,
{
    if a < b {
        lemma_pow256_monotonic(a, (b - 1) as nat);
    }
}

proof fn lemma_be_step(s: Seq<u8>, i: int)
    requires
        0 <= i < s.len(),
    ensures
        be_nat(s.take(i + 1)) == be_nat(s.take(i)) * 256 + s[i],
{
    assert(s.take(i + 1).drop_last() =~= s.take(i));
}

proof fn lemma_le_step(s: Seq<u8>, i: int)
    requires
        0 <= i < s.len(),
    ensures
        le_nat(s.skip(i)) == s[i] + 256 * le_nat(s.skip(i + 1)),
{
    assert(s.skip(i).drop_first() =~= s.skip(i + 1));
}

/// Reads `bytes` as an unsigned number in byte order `e`.
pub fn read_unsigned(bytes: &[u8], e: Endianness) -> (r: u64)
    requires
        bytes@.len() <= 8,
    ensures
        r as nat == unsigned_of(bytes@, e),
{
    let n = bytes.len();
    let mut acc: u64 = 0;
    proof {
        lemma_pow256_facts();
        lemma_pow256_monotonic(n as nat, 8);
    }
    match e {
        Endianness::Big => {
            let mut i: usize = 0;
            assert(bytes@.take(0) =~= Seq::<u8>::empty());
            while i < n
                invariant
                    n == bytes@.len(),
                    n <= 8,
                    i <= n,
                    acc as nat == be_nat(bytes@.take(i as int)),
                    acc < pow256(i as nat),
                    pow256(n as nat) <= 0x1_0000_0000_0000_0000,
                decreases n - i,
            {
                proof {
                    lemma_be_step(bytes@, i as int);
                    lemma_pow256_monotonic((i + 1) as nat, n as nat);
                }
                acc = acc * 256 + bytes[i] as u64;
                i = i + 1;
            }
            assert(bytes@.take(n as int) =~= bytes@);
        },
        Endianness::Little => {
            let mut i: usize = n;
            assert(bytes@.skip(n as int) =~= Seq::<u8>::empty());
            while i > 0
                invariant
                    n == bytes@.len(),
                    n <= 8,
                    i <= n,
                    acc as nat == le_nat(bytes@.skip(i as int)),
                    acc < pow256((n - i) as nat),
                    pow256(n as nat) <= 0x1_0000_0000_0000_0000,
                decreases i,
            {
                proof {
                    lemma_le_step(bytes@, i - 1);
                    lemma_pow256_monotonic((n - i + 1) as nat, n as nat);
                }
                acc = acc * 256 + bytes[i - 1] as u64;
                i = i - 1;
            }
            assert(bytes@.skip(0) =~= bytes@);
        },
    }
    acc
}

/// Natural byte size of a scalar kind.
pub fn size_of_kind(kind: ScalarKind) -> (r: usize)
    ensures
        r == kind_size(kind),
{
    match kind {
        ScalarKind::U8 | ScalarKind::I8 => 1,
        ScalarKind::U16 | ScalarKind::I16 => 2,
        ScalarKind::U32 | ScalarKind::I32 | ScalarKind::F32 => 4,
        ScalarKind::U64 | ScalarKind::I64 | ScalarKind::F64 => 8,
    }
}

/// Half of the number of values of an integer of kind `kind`: the smallest
/// unsigned reading whose two's complement reading is negative.
fn sign_threshold(kind: ScalarKind) -> (r: u64)
    ensures
        r as nat == pow256(kind_size(kind)) / 2,
{
    proof {
        lemma_pow256_facts();
    }
    match kind {
        ScalarKind::U8 | ScalarKind::I8 => 0x80,
        ScalarKind::U16 | ScalarKind::I16 => 0x8000,
        ScalarKind::U32 | ScalarKind::I32 | ScalarKind::F32 => 0x8000_0000,
        ScalarKind::U64 | ScalarKind::I64 | ScalarKind::F64 => 0x8000_0000_0000_0000,
    }
}

/// Reconstructs the value of kind `kind` from exactly its natural number of
/// bytes, read in byte order `e`.
pub fn decode_scalar(kind: ScalarKind, e: Endianness, bytes: &[u8]) -> (r: ScalarValue)
    requires
        bytes@.len() == kind_size(kind),
    ensures
        r == scalar_of(kind, e, bytes@),
{
    let n = read_unsigned(bytes, e);
    match kind {
        ScalarKind::U8 | ScalarKind::U16 | ScalarKind::U32 | ScalarKind::U64 => ScalarValue::Unsigned(
            n,
        ),
        ScalarKind::I8 | ScalarKind::I16 | ScalarKind::I32 | ScalarKind::I64 => {
            let h = sign_threshold(kind);
            proof {
                lemma_pow256_facts();
                lemma_unsigned_below(bytes@, e);
            }
            if n >= h {
                ScalarValue::Signed(((n - h) as i64) - ((h - 1) as i64) - 1)
            } else {
                ScalarValue::Signed(n as i64)
            }
        },
        ScalarKind::F32 | ScalarKind::F64 => ScalarValue::FloatBits(n),
    }
}

proof fn lemma_be_below(s: Seq<u8>)
    ensures
        be_nat(s) < pow256(s.len()),
    decreases s.len(),
{
    if s.len() > 0 {
        lemma_be_below(s.drop_last());
    }
}

proof fn lemma_le_below(s: Seq<u8>)
    ensures
        le_nat(s) < pow256(s.len()),
    decreases s.len(),
{
    if s.len() > 0 {
        lemma_le_below(s.drop_first());
    }
}

/// An unsigned reading of `bytes` is below `256` to the power of their count.
pub proof fn lemma_unsigned_below(bytes: Seq<u8>, e: Endianness)
    ensures
        unsigned_of(bytes, e) < pow256(bytes.len()),
{
    lemma_be_below(bytes);
    lemma_le_below(bytes);
}

} // verus!
