//! Single-precision numbers by their bit pattern. The wire carries the bits,
//! and the checks at the edge (finite, within bounds) are exact on them.
use vstd::arithmetic::power2::{lemma_pow2_adds, lemma_pow2_pos, lemma_pow2_unfold, pow2};
use vstd::prelude::*;

verus! {

/// An IEEE 754 single-precision number: sign, eight bits of exponent,
/// twenty-three of fraction.
#[derive(Clone, Copy, Debug)]
pub struct F32 {
    /// The bit pattern, as `f32::to_bits` gives it.
    pub bits: u32,
}

impl F32 {
    /// The exponent field.
    pub open spec fn exponent(self) -> nat {
        ((self.bits / 0x80_0000) % 256) as nat
    }

    /// The fraction field.
    pub open spec fn fraction(self) -> nat {
        (self.bits % 0x80_0000) as nat
    }

    /// Neither infinite nor not-a-number.
    pub open spec fn finite(self) -> bool {
        self.exponent() != 255
    }

    pub open spec fn nan(self) -> bool {
        self.exponent() == 255 && self.fraction() != 0
    }

    /// The absolute value, in units of two to the power of -149, the smallest
    /// positive single-precision number. Means something for finite numbers.
    pub open spec fn magnitude(self) -> nat {
        if self.exponent() == 0 {
            self.fraction()
        } else {
            (0x80_0000 + self.fraction()) * pow2((self.exponent() - 1) as nat)
        }
    }

    /// The number with this bit pattern.
    pub fn from_bits(bits: u32) -> (r: F32)
        ensures
            r.bits == bits,
    {
        F32 { bits }
    }

    /// The bit pattern.
    pub fn to_bits(self) -> (r: u32)
        ensures
            r == self.bits,
    {
        self.bits
    }

    /// False for infinities and not-a-number.
    pub fn is_finite(self) -> (r: bool)
        ensures
            r == self.finite(),
    {
        (self.bits / 0x80_0000) % 256 != 255
    }

    /// Whether the absolute value is larger than that of `bound`.
    pub fn abs_exceeds(self, bound: F32) -> (r: bool)
        requires
            self.finite(),
            bound.finite(),
        ensures
            r == (self.magnitude() > bound.magnitude()),
    {
        proof {
            lemma_magnitude_order(self, bound);
            lemma_magnitude_order(bound, self);
        }
        self.bits % 0x8000_0000 > bound.bits % 0x8000_0000
    }
}

/// Equality of numbers: not-a-number equals nothing, and the two zeros are one.
impl PartialEq for F32 {
    fn eq(&self, other: &F32) -> (r: bool) {
        proof {
            lemma_zero(*self);
            lemma_zero(*other);
        }
        let a: u32 = self.bits % 0x8000_0000;
        let b: u32 = other.bits % 0x8000_0000;
        a <= 0x7f80_0000 && b <= 0x7f80_0000 && (self.bits == other.bits || (a == 0 && b == 0))
    }
}

impl vstd::std_specs::cmp::PartialEqSpecImpl for F32 {
    open spec fn obeys_eq_spec() -> bool {
        true
    }

    open spec fn eq_spec(&self, other: &F32) -> bool {
        !self.nan() && !other.nan() && (self.bits == other.bits || (self.magnitude() == 0
            && other.magnitude() == 0))
    }
}

/// For finite numbers, the bit patterns without the sign are ordered as the
/// absolute values are.
pub proof fn lemma_magnitude_order(a: F32, b: F32)
    requires
        a.finite(),
        b.finite(),
    ensures
        a.bits % 0x8000_0000 < b.bits % 0x8000_0000 ==> a.magnitude() < b.magnitude(),
        a.bits % 0x8000_0000 == b.bits % 0x8000_0000 ==> a.magnitude() == b.magnitude(),
{
    let x: int = (a.bits % 0x8000_0000) as int;
    let y: int = (b.bits % 0x8000_0000) as int;
    assert(x == a.exponent() * 0x80_0000 + a.fraction());
    assert(y == b.exponent() * 0x80_0000 + b.fraction());
    if x == y {
        assert(a.exponent() == b.exponent());
        assert(a.fraction() == b.fraction());
    } else if x < y {
        if a.exponent() == b.exponent() {
            if a.exponent() > 0 {
                let p = pow2((a.exponent() - 1) as nat);
                lemma_pow2_pos((a.exponent() - 1) as nat);
                assert((0x80_0000 + a.fraction()) * p < (0x80_0000 + b.fraction()) * p)
                    by (nonlinear_arith)
                    requires
                        a.fraction() < b.fraction(),
                        p > 0,
                ;
            }
        } else {
            assert(a.exponent() < b.exponent());
            lemma_magnitude_floor(b);
            lemma_magnitude_ceiling(a);
            lemma_pow2_monotonic(a.exponent(), (b.exponent() - 1) as nat);
            let p = pow2(a.exponent());
            let q = pow2((b.exponent() - 1) as nat);
            assert(0x80_0000 * p <= 0x80_0000 * q);
        }
    }
}

proof fn lemma_zero(a: F32)
    ensures
        a.magnitude() == 0 <==> a.bits % 0x8000_0000 == 0,
{
    if a.exponent() > 0 {
        lemma_magnitude_floor(a);
        lemma_pow2_pos((a.exponent() - 1) as nat);
    }
}

proof fn lemma_pow2_monotonic(a: nat, b: nat)
    requires
        a <= b,
    ensures
        pow2(a) <= pow2(b),
    decreases b,
{
    if a < b {
        lemma_pow2_monotonic(a, (b - 1) as nat);
        lemma_pow2_unfold(b);
    }
}

proof fn lemma_magnitude_floor(a: F32)
    requires
        a.exponent() > 0,
    ensures
        a.magnitude() >= 0x80_0000 * pow2((a.exponent() - 1) as nat),
{
    let p = pow2((a.exponent() - 1) as nat);
    assert((0x80_0000 + a.fraction()) * p >= 0x80_0000 * p) by (nonlinear_arith)
        requires
            a.fraction() >= 0,
            p >= 0,
    ;
}

proof fn lemma_magnitude_ceiling(a: F32)
    ensures
        a.magnitude() < 0x80_0000 * pow2(a.exponent()),
{
    lemma_pow2_pos(a.exponent());
    if a.exponent() > 0 {
        let p = pow2((a.exponent() - 1) as nat);
        lemma_pow2_pos((a.exponent() - 1) as nat);
        lemma_pow2_unfold(a.exponent());
        assert((0x80_0000 + a.fraction()) * p < 0x100_0000 * p) by (nonlinear_arith)
            requires
                a.fraction() < 0x80_0000,
                p > 0,
        ;
    } else {
        let p = pow2(a.exponent());
        assert(a.fraction() < 0x80_0000 * p) by (nonlinear_arith)
            requires
                a.fraction() < 0x80_0000,
                p > 0,
        ;
    }
}

/// A number with a normal exponent and no more than that many fraction bits is
/// the integer it stands for.
pub proof fn lemma_magnitude_of_integer(a: F32, value: nat, shift: nat)
    requires
        0 < a.exponent() < 255,
        a.exponent() - 1 + shift == 149,
        0x80_0000 + a.fraction() == value * pow2(shift),
    ensures
        a.magnitude() == value * pow2(149),
{
    let e = (a.exponent() - 1) as nat;
    lemma_pow2_adds(shift, e);
    vstd::arithmetic::mul::lemma_mul_is_associative(value as int, pow2(shift) as int, pow2(e) as int);
}

/// The four bytes of a number on the wire, least significant first.
pub open spec fn le_bytes(bits: u32) -> Seq<u8> {
    seq![
        (bits % 256) as u8,
        ((bits / 0x100) % 256) as u8,
        ((bits / 0x1_0000) % 256) as u8,
        (bits / 0x100_0000) as u8,
    ]
}

/// The bit pattern that four bytes hold, least significant first.
pub open spec fn bits_of(b: Seq<u8>) -> u32 {
    (b[0] + 0x100 * b[1] + 0x1_0000 * b[2] + 0x100_0000 * b[3]) as u32
}

pub proof fn lemma_le_bytes(bits: u32)
    ensures
        bits_of(le_bytes(bits)) == bits,
        le_bytes(bits).len() == 4,
{
}

/// Splits a bit pattern into its wire bytes.
pub fn split(v: F32) -> (r: [u8; 4])
    ensures
        r@ == le_bytes(v.bits),
{
    let r: [u8; 4] = [
        (v.bits % 256) as u8,
        ((v.bits / 0x100) % 256) as u8,
        ((v.bits / 0x1_0000) % 256) as u8,
        (v.bits / 0x100_0000) as u8,
    ];
    assert(r@ =~= le_bytes(v.bits));
    r
}

/// Joins wire bytes into a number.
pub fn join(b: [u8; 4]) -> (r: F32)
    ensures
        r.bits == bits_of(b@),
{
    F32 {
        bits: b[0] as u32 + 0x100 * (b[1] as u32) + 0x1_0000 * (b[2] as u32) + 0x100_0000 * (
        b[3] as u32),
    }
}

/// Numbers are equal by their bit patterns: not-a-number equals nothing, not even
/// itself, the two zeros are equal, and otherwise equal numbers are those with
/// the same bits.
pub proof fn law_equality_is_by_bits(a: F32, b: F32)
    ensures
        a.bits % 0x8000_0000 > 0x7f80_0000 || b.bits % 0x8000_0000 > 0x7f80_0000
            ==> !vstd::std_specs::cmp::PartialEqSpec::eq_spec(&a, &b),
        a.bits % 0x8000_0000 == 0 && b.bits % 0x8000_0000 == 0
            ==> vstd::std_specs::cmp::PartialEqSpec::eq_spec(&a, &b),
        a.bits % 0x8000_0000 <= 0x7f80_0000 && a.bits == b.bits
            ==> vstd::std_specs::cmp::PartialEqSpec::eq_spec(&a, &b),
        a.bits != b.bits && a.bits % 0x8000_0000 != 0
            ==> !vstd::std_specs::cmp::PartialEqSpec::eq_spec(&a, &b),
{
    lemma_zero(a);
    lemma_zero(b);
}

} // verus!
