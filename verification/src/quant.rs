use vstd::prelude::*;

verus! {

/// A count of quantization ticks since the start of a composition or of a sample.
#[derive(Clone, Copy, PartialEq, Eq, Debug, PartialOrd, Ord, Structural)]
pub struct Quant(pub u32);

impl Quant {
    /// The number of ticks that this quant counts.
    pub fn value(self) -> (r: u32)
        ensures
            r == self.0,
    {
        self.0
    }
}

/// Tick-wise sum.
impl core::ops::Add for Quant {
    type Output = Quant;

    fn add(self, other: Quant) -> (r: Quant) {
        Quant(self.0 + other.0)
    }
}

impl vstd::std_specs::ops::AddSpecImpl for Quant {
    open spec fn obeys_add_spec() -> bool {
        true
    }

    open spec fn add_req(self, other: Quant) -> bool {
        self.0 + other.0 <= u32::MAX
    }

    open spec fn add_spec(self, other: Quant) -> Quant {
        Quant((self.0 + other.0) as u32)
    }
}

/// Tick-wise difference; the subtrahend may not exceed `self`.
impl core::ops::Sub for Quant {
    type Output = Quant;

    fn sub(self, other: Quant) -> (r: Quant) {
        Quant(self.0 - other.0)
    }
}

impl vstd::std_specs::ops::SubSpecImpl for Quant {
    open spec fn obeys_sub_spec() -> bool {
        true
    }

    open spec fn sub_req(self, other: Quant) -> bool {
        other.0 <= self.0
    }

    open spec fn sub_spec(self, other: Quant) -> Quant {
        Quant((self.0 - other.0) as u32)
    }
}

/// Tick-wise product.
impl core::ops::Mul for Quant {
    type Output = Quant;

    fn mul(self, other: Quant) -> (r: Quant) {
        Quant(self.0 * other.0)
    }
}

impl vstd::std_specs::ops::MulSpecImpl for Quant {
    open spec fn obeys_mul_spec() -> bool {
        true
    }

    open spec fn mul_req(self, other: Quant) -> bool {
        self.0 * other.0 <= u32::MAX
    }

    open spec fn mul_spec(self, other: Quant) -> Quant {
        Quant((self.0 * other.0) as u32)
    }
}

/// Tick-wise truncated quotient.
impl core::ops::Div for Quant {
    type Output = Quant;

    fn div(self, other: Quant) -> (r: Quant) {
        Quant(self.0 / other.0)
    }
}

impl vstd::std_specs::ops::DivSpecImpl for Quant {
    open spec fn obeys_div_spec() -> bool {
        true
    }

    open spec fn div_req(self, other: Quant) -> bool {
        other.0 != 0
    }

    open spec fn div_spec(self, other: Quant) -> Quant {
        Quant((self.0 / other.0) as u32)
    }
}

/// Tick-wise remainder.
impl core::ops::Rem for Quant {
    type Output = Quant;

    fn rem(self, other: Quant) -> (r: Quant) {
        Quant(self.0 % other.0)
    }
}

impl vstd::std_specs::ops::RemSpecImpl for Quant {
    open spec fn obeys_rem_spec() -> bool {
        true
    }

    open spec fn rem_req(self, other: Quant) -> bool {
        other.0 != 0
    }

    open spec fn rem_spec(self, other: Quant) -> Quant {
        Quant((self.0 % other.0) as u32)
    }
}

} // verus!
