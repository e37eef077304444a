use vstd::prelude::*;

verus! {

/// Positive or negative infinity, compared and combined with each other and with finite
/// values.
///
/// The operations come in two forms: against another `Infinity` (the `_inf` methods) and
/// against a finite value of any type (the `_value` methods). Combinations that have no
/// meaning (two equal infinities compared, opposite infinities added, zero times infinity)
/// are left out by the `requires` of each method.
#[derive(Debug, Clone, Copy)]
pub enum Infinity {
    PosInfinity,
    NegInfinity,
}

impl Infinity {
    /// The opposite infinity.
    pub open spec fn spec_neg(self) -> Infinity {
        match self {
            Infinity::PosInfinity => Infinity::NegInfinity,
            Infinity::NegInfinity => Infinity::PosInfinity,
        }
    }

    /// # Returns
    /// `false`: an infinity never equals the opposite infinity. Two equal infinities are not
    /// comparable, so `other` must be the opposite one.
    pub fn eq_inf(&self, _other: &Infinity) -> (b: bool)
        requires
            *self != *_other,
        ensures
            !b,
    {
        false
    }

    /// # Returns
    /// `false`: an infinity never equals a finite value.
    pub fn eq_value<T>(&self, _other: &T) -> (b: bool)
        ensures
            !b,
    {
        false
    }

    /// # Returns
    /// `true` if `self` is negative infinity, which is below positive infinity. Two equal
    /// infinities are not comparable, so `other` must be the opposite one.
    pub fn lt_inf(&self, _other: &Infinity) -> (b: bool)
        requires
            *self != *_other,
        ensures
            b == (*self is NegInfinity),
    {
        match self {
            Infinity::NegInfinity => true,
            Infinity::PosInfinity => false,
        }
    }

    /// # Returns
    /// `true` if `self` is negative infinity, which is below every finite value.
    pub fn lt_value<T>(&self, _other: &T) -> (b: bool)
        ensures
            b == (*self is NegInfinity),
    {
        match self {
            Infinity::NegInfinity => true,
            Infinity::PosInfinity => false,
        }
    }

    /// # Returns
    /// The same as `lt_inf`: an infinity is never equal to the opposite one.
    pub fn le_inf(&self, other: &Infinity) -> (b: bool)
        requires
            *self != *other,
        ensures
            b == (*self is NegInfinity),
    {
        self.lt_inf(other)
    }

    /// # Returns
    /// The same as `lt_value`: an infinity is never equal to a finite value.
    pub fn le_value<T>(&self, other: &T) -> (b: bool)
        ensures
            b == (*self is NegInfinity),
    {
        self.lt_value(other)
    }

    /// # Returns
    /// `true` if `self` is positive infinity, which is above negative infinity.
    pub fn gt_inf(&self, other: &Infinity) -> (b: bool)
        requires
            *self != *other,
        ensures
            b == (*self is PosInfinity),
    {
        !self.le_inf(other)
    }

    /// # Returns
    /// `true` if `self` is positive infinity, which is above every finite value.
    pub fn gt_value<T>(&self, other: &T) -> (b: bool)
        ensures
            b == (*self is PosInfinity),
    {
        !self.le_value(other)
    }

    /// # Returns
    /// The same as `gt_inf`.
    pub fn ge_inf(&self, other: &Infinity) -> (b: bool)
        requires
            *self != *other,
        ensures
            b == (*self is PosInfinity),
    {
        self.gt_inf(other)
    }

    /// # Returns
    /// The same as `gt_value`.
    pub fn ge_value<T>(&self, other: &T) -> (b: bool)
        ensures
            b == (*self is PosInfinity),
    {
        self.gt_value(other)
    }

    /// # Returns
    /// The sum of two equal infinities, which is that infinity. Opposite infinities can not
    /// be added.
    pub fn add_inf(self, rhs: Infinity) -> (r: Infinity)
        requires
            self == rhs,
        ensures
            r == self,
    {
        match (self, rhs) {
            (Infinity::PosInfinity, _) => Infinity::PosInfinity,
            (Infinity::NegInfinity, _) => Infinity::NegInfinity,
        }
    }

    /// # Returns
    /// `self`: adding a finite value leaves an infinity unchanged.
    pub fn add_value<T>(self, _rhs: T) -> (r: Infinity)
        ensures
            r == self,
    {
        self
    }

    /// # Returns
    /// The difference of opposite infinities, which is `self`. Two equal infinities can not be
    /// subtracted from each other.
    pub fn sub_inf(self, rhs: Infinity) -> (r: Infinity)
        requires
            self != rhs,
        ensures
            r == self,
    {
        match (self, rhs) {
            (Infinity::PosInfinity, _) => Infinity::PosInfinity,
            (Infinity::NegInfinity, _) => Infinity::NegInfinity,
        }
    }

    /// # Returns
    /// `self`: subtracting a finite value leaves an infinity unchanged.
    pub fn sub_value<T>(self, _rhs: T) -> (r: Infinity)
        ensures
            r == self,
    {
        self
    }

    /// # Returns
    /// The product with a non-zero value: the opposite infinity for a negative value, `self`
    /// for a positive one.
    pub fn mul(self, rhs: i64) -> (r: Infinity)
        requires
            rhs != 0,
        ensures
            r == (if rhs < 0 { self.spec_neg() } else { self }),
    {
        if rhs < 0 {
            self.neg()
        } else {
            self
        }
    }

    /// # Returns
    /// The quotient by a non-zero value, which has the sign of the product.
    pub fn div(self, rhs: i64) -> (r: Infinity)
        requires
            rhs != 0,
        ensures
            r == (if rhs < 0 { self.spec_neg() } else { self }),
    {
        self.mul(rhs)
    }

    /// # Returns
    /// The opposite infinity.
    pub fn neg(self) -> (r: Infinity)
        ensures
            r == self.spec_neg(),
    {
        match self {
            Infinity::PosInfinity => Infinity::NegInfinity,
            Infinity::NegInfinity => Infinity::PosInfinity,
        }
    }

    /// Negating twice gives back the infinity; negation swaps the two.
    pub proof fn lemma_neg_involutive(x: Infinity)
        ensures
            x.spec_neg().spec_neg() == x,
            x.spec_neg() != x,
    {
    }
}

} // verus!
