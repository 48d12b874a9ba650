//! Real numbers in the calculator's decimal format: a sign, a power of ten,
//! and a sequence of decimal digits, stored as nine bytes.
use vstd::prelude::*;

verus! {

/// A real number as sign, exponent and decimal digits, most significant
/// digit first: `(-1)^negative * d0.d1d2... * 10^exponent`.
#[derive(Debug, Clone, PartialEq, Eq)]
pub struct TiReal {
    pub negative: bool,
    pub exponent: i8,
    pub digits: Vec<u8>,
}

/// Whether the digits that the calculator keeps (the first fourteen) are
/// decimal digits.
pub open spec fn kept_digits_ok(digits: Seq<u8>) -> bool {
    forall|i: int| 0 <= i < digits.len() && i < 14 ==> digits[i] <= 9
}

/// The packed decimal mantissa that the calculator's number library makes of
/// a digit sequence (fourteen digits kept, rounded on the fifteenth).
pub uninterp spec fn packed_mantissa(digits: Seq<u8>) -> u64;

/// Whether `m` is a mantissa of fourteen packed decimal digits.
pub open spec fn bcd_mantissa(m: u64) -> bool {
    &&& m < 0x100000000000000
    &&& forall|k: nat| k < 14 ==> #[trigger] ((m as nat / pow16(k)) % 16) <= 9
}

/// `16^k`.
pub open spec fn pow16(k: nat) -> nat
    decreases k,
{
    if k == 0 {
        1
    } else {
        16 * pow16((k - 1) as nat)
    }
}

/// Whether the calculator represents an exponent.
pub open spec fn exponent_ok(e: i8) -> bool {
    -99 <= e <= 99
}

/// The nine bytes of a number: flags (0x80 when negative), the exponent
/// biased by 0x80, then seven bytes of mantissa, most significant first.
pub open spec fn real_raw(negative: bool, exponent: i8, m: u64) -> Seq<u8> {
    seq![
        if negative { 0x80u8 } else { 0u8 },
        (exponent as int + 128) as u8,
        ((m as nat / 0x1000000000000) % 256) as u8,
        ((m as nat / 0x10000000000) % 256) as u8,
        ((m as nat / 0x100000000) % 256) as u8,
        ((m as nat / 0x1000000) % 256) as u8,
        ((m as nat / 0x10000) % 256) as u8,
        ((m as nat / 0x100) % 256) as u8,
        (m as nat % 256) as u8,
    ]
}

/// The bytes of a real number, or `None` where the calculator cannot hold it.
pub open spec fn real_payload(x: TiReal) -> Option<Seq<u8>> {
    if kept_digits_ok(x.digits@) && exponent_ok(x.exponent) && bcd_mantissa(
        packed_mantissa(x.digits@),
    ) {
        Some(real_raw(x.negative, x.exponent, packed_mantissa(x.digits@)))
    } else {
        None
    }
}

/// Relies on tifloats' `Float::mantissa_from`, which packs the first fourteen
/// digits and rounds on the fifteenth; it panics where one of the first
/// fourteen is over 9.
#[verifier::external_body]
fn mantissa_from_digits(digits: &Vec<u8>) -> (r: u64)
    requires
        kept_digits_ok(digits@),
    ensures
        r == packed_mantissa(digits@),
{
    tifloats::Float::mantissa_from(digits.as_slice())
}

/// Relies on tifloats' `Float::new`, which accepts exponents -99 to 99 and a
/// mantissa of fourteen packed decimal digits, and `Float::to_raw_bytes`,
/// which lays the number out as `real_raw` says.
#[verifier::external_body]
fn float_raw_bytes(negative: bool, exponent: i8, mantissa: u64) -> (r: Option<Vec<u8>>)
    ensures
        r is None ==> !(exponent_ok(exponent) && bcd_mantissa(mantissa)),
        r is Some ==> exponent_ok(exponent) && bcd_mantissa(mantissa),
        r is Some ==> r->Some_0@ == real_raw(negative, exponent, mantissa),
{
    match tifloats::Float::new(negative, exponent, mantissa) {
        Ok(f) => Some(f.to_raw_bytes().to_vec()),
        Err(_) => None,
    }
}

impl TiReal {
    /// Zero: positive, exponent zero, fifteen zero digits.
    pub fn zero() -> (r: TiReal)
        ensures
            !r.negative,
            r.exponent == 0,
            r.digits@ == Seq::new(15, |i: int| 0u8),
    {
        let digits: Vec<u8> = vec![0u8, 0, 0, 0, 0, 0, 0, 0, 0, 0, 0, 0, 0, 0, 0];
        assert(digits@ =~= Seq::new(15, |i: int| 0u8));
        TiReal { negative: false, exponent: 0, digits }
    }

    /// The nine bytes of this number, or `None` where the calculator cannot
    /// hold it.
    pub fn to_raw_bytes(&self) -> (r: Option<Vec<u8>>)
        ensures
            r matches Some(b) ==> real_payload(*self) == Some(b@),
            r is None ==> real_payload(*self) is None,
    {
        let mut i: usize = 0;
        while i < self.digits.len() && i < 14
            invariant
                i <= self.digits@.len(),
                i <= 14,
                forall|j: int| 0 <= j < i ==> self.digits@[j] <= 9,
            decreases 14 - i,
        {
            if self.digits[i] > 9 {
                return None;
            }
            i += 1;
        }
        let m = mantissa_from_digits(&self.digits);
        float_raw_bytes(self.negative, self.exponent, m)
    }
}

} // verus!
