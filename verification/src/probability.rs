use vstd::prelude::*;
use crate::error::ErrorKind;

verus! {

/// The denominator used when a probability is given in millionths.
pub const MILLION: u32 = 1_000_000;

/// A probability held as an exact ratio of two integers.
#[derive(Debug, Clone, Copy)]
pub struct Probability {
    numerator: u32,
    denominator: u32,
}

impl Probability {
    /// The ratio is a probability: a positive denominator and a numerator no
    /// larger than it. Every value that executable code holds is one.
    #[verifier::type_invariant]
    pub closed spec fn wf(self) -> bool {
        0 < self.denominator && self.numerator <= self.denominator
    }

    pub closed spec fn num(self) -> nat {
        self.numerator as nat
    }

    pub closed spec fn den(self) -> nat {
        self.denominator as nat
    }

    /// The event never happens.
    pub open spec fn is_never(self) -> bool {
        self.num() == 0
    }

    /// The event always happens.
    pub open spec fn is_certain(self) -> bool {
        self.num() == self.den()
    }

    /// The probability `numerator / denominator`.
    pub fn new(numerator: u32, denominator: u32) -> (result: Result<Probability, ErrorKind>)
        ensures
            result is Ok <==> 0 < denominator && numerator <= denominator,
            result matches Ok(p) ==> p.wf() && p.num() == numerator && p.den() == denominator,
            result matches Err(e) ==> e == ErrorKind::InvalidDistributionParameter,
    {
        if denominator == 0 || numerator > denominator {
            Err(ErrorKind::InvalidDistributionParameter)
        } else {
            Ok(Probability { numerator, denominator })
        }
    }

    /// The probability `parts / 1_000_000`, with `parts` brought into the
    /// range from zero to one million first.
    pub fn from_millionths(parts: i64) -> (p: Probability)
        ensures
            p.wf(),
            p.den() == MILLION,
            parts <= 0 ==> p.num() == 0,
            0 < parts < MILLION ==> p.num() == parts,
            parts >= MILLION ==> p.num() == MILLION,
    {
        if parts <= 0 {
            Probability { numerator: 0, denominator: MILLION }
        } else if parts >= MILLION as i64 {
            Probability { numerator: MILLION, denominator: MILLION }
        } else {
            Probability { numerator: parts as u32, denominator: MILLION }
        }
    }

    /// One chance in two.
    pub fn half() -> (p: Probability)
        ensures
            p.wf(),
            p.num() == 1,
            p.den() == 2,
    {
        Probability { numerator: 1, denominator: 2 }
    }

    /// The probability that the event does not happen.
    pub fn complement(self) -> (p: Probability)
        ensures
            p.wf(),
            p.den() == self.den(),
            p.num() == self.den() - self.num(),
    {
        proof {
            use_type_invariant(&self);
        }
        Probability { numerator: self.denominator - self.numerator, denominator: self.denominator }
    }

    pub fn numerator(self) -> (n: u32)
        ensures
            n == self.num(),
            n <= self.den(),
    {
        proof {
            use_type_invariant(&self);
        }
        self.numerator
    }

    pub fn denominator(self) -> (d: u32)
        ensures
            d == self.den(),
            0 < d,
            self.num() <= d,
    {
        proof {
            use_type_invariant(&self);
        }
        self.denominator
    }
}

} // verus!
