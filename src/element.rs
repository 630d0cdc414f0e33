//! Stored elements: IEEE binary16 values, held as their 16-bit patterns.
//!
//! A finite binary16 value is always an integer multiple of 2^-24, the
//! smallest subnormal. The library therefore measures values in *units* of
//! 2^-24, in which every finite element is an exact integer and sums of
//! elements are exact.
use vstd::prelude::*;
use vstd::arithmetic::power2::{pow2, lemma_pow2_unfold, lemma_pow2_strictly_increases, lemma2_to64};

verus! {

/// Largest magnitude of a finite binary16 value, in units of 2^-24
/// (65504 * 2^24).
pub const MAX_ELEMENT_UNITS: i64 = 1098974756864;

/// What a sum of binary16 values is, apart from its finite part: IEEE
/// addition turns any NaN, or infinities of both signs, into NaN.
#[derive(Clone, Copy, Debug, PartialEq, Eq, Structural)]
pub enum SumKind {
    Finite,
    PosInfinity,
    NegInfinity,
    NaN,
}

/// The kind of `a + b` for sums of kinds `a` and `b`.
pub open spec fn join_kind(a: SumKind, b: SumKind) -> SumKind {
    if a == SumKind::Finite {
        b
    } else if b == SumKind::Finite {
        a
    } else if a == b {
        a
    } else {
        SumKind::NaN
    }
}

pub open spec fn exponent_field(b: u16) -> int {
    (b as int / 1024) % 32
}

pub open spec fn mantissa_field(b: u16) -> int {
    b as int % 1024
}

pub open spec fn sign_set(b: u16) -> bool {
    b as int >= 32768
}

/// Magnitude of a finite binary16 pattern, in units of 2^-24.
pub open spec fn magnitude_units(b: u16) -> int {
    let e = exponent_field(b);
    let m = mantissa_field(b);
    if e == 0 {
        m
    } else {
        (1024 + m) * pow2((e - 1) as nat)
    }
}

/// Value of a binary16 pattern in units of 2^-24; infinities and NaNs
/// contribute nothing to the finite part of a sum.
pub open spec fn element_units(b: u16) -> int {
    if exponent_field(b) == 31 {
        0
    } else if sign_set(b) {
        -magnitude_units(b)
    } else {
        magnitude_units(b)
    }
}

/// Kind of a single binary16 pattern.
pub open spec fn element_kind(b: u16) -> SumKind {
    if exponent_field(b) != 31 {
        SumKind::Finite
    } else if mantissa_field(b) != 0 {
        SumKind::NaN
    } else if sign_set(b) {
        SumKind::NegInfinity
    } else {
        SumKind::PosInfinity
    }
}

/// Combines the kinds of two sums.
pub fn combine_kind(a: SumKind, b: SumKind) -> (r: SumKind)
    ensures
        r == join_kind(a, b),
{
    match (a, b) {
        (SumKind::Finite, k) => k,
        (k, SumKind::Finite) => k,
        (SumKind::PosInfinity, SumKind::PosInfinity) => SumKind::PosInfinity,
        (SumKind::NegInfinity, SumKind::NegInfinity) => SumKind::NegInfinity,
        _ => SumKind::NaN,
    }
}

/// Kind of one element.
pub fn kind_of(b: u16) -> (r: SumKind)
    ensures
        r == element_kind(b),
{
    if (b / 1024) % 32 != 31 {
        SumKind::Finite
    } else if b % 1024 != 0 {
        SumKind::NaN
    } else if b >= 32768 {
        SumKind::NegInfinity
    } else {
        SumKind::PosInfinity
    }
}

proof fn lemma_magnitude_bound(b: u16)
    requires
        exponent_field(b) != 31,
    ensures
        0 <= magnitude_units(b) <= MAX_ELEMENT_UNITS,
{
    let e = exponent_field(b);
    let m = mantissa_field(b);
    if e != 0 {
        lemma2_to64();
        if e - 1 < 29 {
            lemma_pow2_strictly_increases((e - 1) as nat, 29);
        }
        assert(pow2((e - 1) as nat) <= 536870912);
        assert((1024 + m) * pow2((e - 1) as nat) <= 2047 * 536870912) by (nonlinear_arith)
            requires
                0 <= m < 1024,
                pow2((e - 1) as nat) <= 536870912,
        ;
    }
}

/// Value of one element in units of 2^-24 (zero for infinities and NaNs).
pub fn units_of(b: u16) -> (r: i64)
    ensures
        r == element_units(b),
        -MAX_ELEMENT_UNITS <= r <= MAX_ELEMENT_UNITS,
{
    let e: u16 = (b / 1024) % 32;
    let m: u16 = b % 1024;
    if e == 31 {
        return 0;
    }
    proof {
        lemma_magnitude_bound(b);
    }
    let mag: i64;
    if e == 0 {
        mag = m as i64;
    } else {
        let mut p: i64 = 1;
        let mut i: u16 = 0;
        proof {
            lemma2_to64();
        }
        while i + 1 < e
            invariant
                1 <= e <= 30,
                0 <= i < e,
                p == pow2(i as nat),
                p <= 536870912,
            decreases e - i,
        {
            proof {
                lemma_pow2_unfold((i + 1) as nat);
                lemma2_to64();
                if i + 1 < 29 {
                    lemma_pow2_strictly_increases((i + 1) as nat, 29);
                }
            }
            p = p * 2;
            i = i + 1;
        }
        assert((1024 + m as int) * p <= 2047 * 536870912) by (nonlinear_arith)
            requires
                0 <= m < 1024,
                0 < p <= 536870912,
        ;
        mag = (1024 + m as i64) * p;
    }
    if b >= 32768 {
        -mag
    } else {
        mag
    }
}

/// Reads the little-endian binary16 pattern stored at `bytes[2 * i]`.
pub open spec fn element_at(bytes: Seq<u8>, i: int) -> u16 {
    (bytes[2 * i] as int + 256 * bytes[2 * i + 1] as int) as u16
}

/// The elements stored in a byte sequence of even length, two bytes each,
/// little-endian.
pub open spec fn elements_of(bytes: Seq<u8>) -> Seq<u16> {
    Seq::new((bytes.len() / 2) as nat, |i: int| element_at(bytes, i))
}

/// Reads a byte buffer of even length as its sequence of elements.
pub fn bytes_to_elements(bytes: &Vec<u8>) -> (r: Vec<u16>)
    requires
        bytes@.len() % 2 == 0,
    ensures
        r@ == elements_of(bytes@),
        r@.len() == bytes@.len() / 2,
{
    let len: usize = bytes.len();
    let n: usize = len / 2;
    let mut r: Vec<u16> = Vec::with_capacity(n);
    let mut i: usize = 0;
    while i < n
        invariant
            n == bytes@.len() / 2,
            len == bytes@.len(),
            2 * n == len,
            i <= n,
            r@ == elements_of(bytes@).take(i as int),
        decreases n - i,
    {
        let lo = bytes[2 * i];
        let hi = bytes[2 * i + 1];
        let v: u16 = lo as u16 + 256 * (hi as u16);
        r.push(v);
        i = i + 1;
        assert(r@ =~= elements_of(bytes@).take(i as int));
    }
    assert(r@ =~= elements_of(bytes@));
    r
}

} // verus!
