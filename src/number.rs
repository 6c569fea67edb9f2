use vstd::prelude::*;

verus! {

/// An exact rational number `numer / denom`.
///
/// Literals of a script are kept exact, so that the constant pool can be keyed by value.
#[derive(Debug, Clone, Copy, PartialEq, Eq, Structural)]
pub struct ProcNum {
    pub numer: i64,
    pub denom: u64,
}

impl ProcNum {
    /// The denominator is positive.
    pub open spec fn wf(self) -> bool {
        self.denom > 0
    }

    /// Two numbers denote the same rational value.
    pub open spec fn same_value(self, other: ProcNum) -> bool {
        self.numer * other.denom == other.numer * self.denom
    }

    /// The number `numer / denom`.
    pub fn new(numer: i64, denom: u64) -> (r: ProcNum)
        requires
            denom > 0,
        ensures
            r.numer == numer,
            r.denom == denom,
            r.wf(),
    {
        ProcNum { numer, denom }
    }

    /// The integer `value`.
    pub fn from_integer(value: i64) -> (r: ProcNum)
        ensures
            r.numer == value,
            r.denom == 1,
    {
        ProcNum { numer: value, denom: 1 }
    }

    /// Zero.
    pub fn zero() -> (r: ProcNum)
        ensures
            r.numer == 0,
            r.denom == 1,
    {
        ProcNum { numer: 0, denom: 1 }
    }

    /// One.
    pub fn one() -> (r: ProcNum)
        ensures
            r.numer == 1,
            r.denom == 1,
    {
        ProcNum { numer: 1, denom: 1 }
    }

    /// Whether the two numbers are equal as rationals.
    pub fn value_eq(&self, other: &ProcNum) -> (r: bool)
        ensures
            r == self.same_value(*other),
    {
        let x: i128 = self.numer as i128;
        let y: i128 = other.numer as i128;
        let dx: i128 = self.denom as i128;
        let dy: i128 = other.denom as i128;
        proof {
            lemma_product_fits(x, dy);
            lemma_product_fits(y, dx);
        }
        x * dy == y * dx
    }
}

proof fn lemma_product_fits(a: i128, b: i128)
    requires
        i64::MIN <= a <= i64::MAX,
        0 <= b <= u64::MAX,
    ensures
        i128::MIN <= a * b <= i128::MAX,
{
    assert(-0x8000_0000_0000_0000 * 0xffff_ffff_ffff_ffff <= a * b <= 0x7fff_ffff_ffff_ffff * 0xffff_ffff_ffff_ffff)
        by (nonlinear_arith)
        requires
            -0x8000_0000_0000_0000 <= a <= 0x7fff_ffff_ffff_ffff,
            0 <= b <= 0xffff_ffff_ffff_ffff,
    ;
}

} // verus!
