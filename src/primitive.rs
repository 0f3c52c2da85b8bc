//! Fixed-width unsigned scalars and their little-endian byte encoding, the
//! one byte order in which guest memory holds them.
use vstd::prelude::*;

verus! {

/// `256` to the power `n`.
pub open spec fn pow256(n: nat) -> nat
    decreases n,
{
    if n == 0 {
        1
    } else {
        256 * pow256((n - 1) as nat)
    }
}

/// The unsigned integer that the bytes `s` encode, least significant first.
pub open spec fn le_value(s: Seq<u8>) -> nat
    decreases s.len(),
{
    if s.len() == 0 {
        0
    } else {
        s[0] as nat + 256 * le_value(s.drop_first())
    }
}

/// The `n` least significant bytes of `v`, least significant first.
pub open spec fn le_bytes(v: nat, n: nat) -> Seq<u8>
    decreases n,
{
    if n == 0 {
        Seq::empty()
    } else {
        seq![(v % 256) as u8] + le_bytes(v / 256, (n - 1) as nat)
    }
}

pub proof fn lemma_pow256_8()
    ensures
        pow256(1) == 0x100,
        pow256(2) == 0x1_0000,
        pow256(4) == 0x1_0000_0000,
        pow256(8) == 0x1_0000_0000_0000_0000,
{
    reveal_with_fuel(pow256, 9);
}

proof fn lemma_pow256_mono(a: nat, b: nat)
    requires
        a <= b,
    ensures
        1 <= pow256(a) <= pow256(b),
    decreases b,
{
    if a < b {
        lemma_pow256_mono(a, (b - 1) as nat);
    } else if b > 0 {
        lemma_pow256_mono((a - 1) as nat, (b - 1) as nat);
    }
}

proof fn lemma_le_value_bound(s: Seq<u8>)
    ensures
        le_value(s) < pow256(s.len()),
    decreases s.len(),
{
    if s.len() > 0 {
        lemma_le_value_bound(s.drop_first());
    }
}

proof fn lemma_le_bytes_len(v: nat, n: nat)
    ensures
        le_bytes(v, n).len() == n,
    decreases n,
{
    if n > 0 {
        lemma_le_bytes_len(v / 256, (n - 1) as nat);
    }
}

/// Encoding a value that fits in `n` bytes and decoding the bytes gives the
/// value back.
pub proof fn lemma_le_round_trip(v: nat, n: nat)
    requires
        v < pow256(n),
    ensures
        le_bytes(v, n).len() == n,
        le_value(le_bytes(v, n)) == v,
    decreases n,
{
    lemma_le_bytes_len(v, n);
    if n > 0 {
        vstd::arithmetic::div_mod::lemma_fundamental_div_mod(v as int, 256);
        lemma_le_round_trip(v / 256, (n - 1) as nat);
        assert(le_bytes(v, n).drop_first() =~= le_bytes(v / 256, (n - 1) as nat));
    }
}

fn encode_le(v: u64, n: usize) -> (r: Vec<u8>)
    requires
        n <= 8,
    ensures
        r@ == le_bytes(v as nat, n as nat),
    decreases n,
{
    if n == 0 {
        Vec::new()
    } else {
        let mut rest = encode_le(v / 256, n - 1);
        rest.insert(0, (v % 256) as u8);
        assert(rest@ =~= le_bytes(v as nat, n as nat));
        rest
    }
}

fn decode_le(b: &[u8]) -> (r: u64)
    requires
        b@.len() <= 8,
    ensures
        r as nat == le_value(b@),
    decreases b@.len(),
{
    if b.len() == 0 {
        0
    } else {
        let rest = vstd::slice::slice_subrange(b, 1, b.len());
        let high = decode_le(rest);
        proof {
            assert(rest@ =~= b@.drop_first());
            lemma_le_value_bound(rest@);
            lemma_pow256_mono((b@.len() - 1) as nat, 7);
            lemma_pow256_8();
            reveal_with_fuel(pow256, 8);
        }
        b[0] as u64 + 256 * high
    }
}

/// An unsigned scalar that guest memory holds in `width` little-endian bytes.
pub trait Primitive: Sized + Copy {
    /// The width in bytes.
    spec fn width_spec() -> nat;

    /// The scalar as an unsigned integer.
    spec fn value(self) -> nat;

    /// The width in bytes.
    fn width() -> (r: usize)
        ensures
            r as nat == Self::width_spec(),
            1 <= r <= 8,
    ;

    /// The little-endian bytes of the value.
    fn to_le(self) -> (r: Vec<u8>)
        ensures
            self.value() < pow256(Self::width_spec()),
            r@ == le_bytes(self.value(), Self::width_spec()),
    ;

    /// The value that `bytes` encode, least significant first.
    fn from_le(bytes: &[u8]) -> (r: Self)
        requires
            bytes@.len() == Self::width_spec(),
        ensures
            r.value() == le_value(bytes@),
    ;
}

impl Primitive for u8 {
    open spec fn width_spec() -> nat {
        1
    }

    open spec fn value(self) -> nat {
        self as nat
    }

    fn width() -> (r: usize) {
        1
    }

    fn to_le(self) -> (r: Vec<u8>) {
        proof {
            lemma_pow256_8();
        }
        encode_le(self as u64, 1)
    }

    fn from_le(bytes: &[u8]) -> (r: u8) {
        proof {
            lemma_le_value_bound(bytes@);
            lemma_pow256_8();
        }
        decode_le(bytes) as u8
    }
}

impl Primitive for u16 {
    open spec fn width_spec() -> nat {
        2
    }

    open spec fn value(self) -> nat {
        self as nat
    }

    fn width() -> (r: usize) {
        2
    }

    fn to_le(self) -> (r: Vec<u8>) {
        proof {
            lemma_pow256_8();
        }
        encode_le(self as u64, 2)
    }

    fn from_le(bytes: &[u8]) -> (r: u16) {
        proof {
            lemma_le_value_bound(bytes@);
            lemma_pow256_8();
        }
        decode_le(bytes) as u16
    }
}

impl Primitive for u32 {
    open spec fn width_spec() -> nat {
        4
    }

    open spec fn value(self) -> nat {
        self as nat
    }

    fn width() -> (r: usize) {
        4
    }

    fn to_le(self) -> (r: Vec<u8>) {
        proof {
            lemma_pow256_8();
        }
        encode_le(self as u64, 4)
    }

    fn from_le(bytes: &[u8]) -> (r: u32) {
        proof {
            lemma_le_value_bound(bytes@);
            lemma_pow256_8();
        }
        decode_le(bytes) as u32
    }
}

impl Primitive for u64 {
    open spec fn width_spec() -> nat {
        8
    }

    open spec fn value(self) -> nat {
        self as nat
    }

    fn width() -> (r: usize) {
        8
    }

    fn to_le(self) -> (r: Vec<u8>) {
        proof {
            lemma_pow256_8();
        }
        encode_le(self, 8)
    }

    fn from_le(bytes: &[u8]) -> (r: u64) {
        decode_le(bytes)
    }
}

} // verus!
