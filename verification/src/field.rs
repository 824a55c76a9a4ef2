//! Elements of the Goldilocks prime field, the value type of every circuit
//! variable and constant.

use vstd::prelude::*;

verus! {

/// The Goldilocks prime, `2^64 - 2^32 + 1`.
pub const MODULUS: u64 = 0xFFFF_FFFF_0000_0001;

/// The field's modulus as a mathematical integer.
pub open spec fn modulus() -> int {
    0xFFFF_FFFF_0000_0001
}

/// The canonical representative of `v`: the one in `0 <= r < modulus()`.
pub open spec fn reduce(v: int) -> int {
    v % modulus()
}

/// A field element, always held as its canonical representative.
#[derive(Clone, Copy, Debug, PartialEq, Eq, Structural)]
pub struct FieldValue {
    raw: u64,
}

impl View for FieldValue {
    type V = int;

    /// The element as an integer in `0 <= v < modulus()`.
    closed spec fn view(&self) -> int {
        self.raw as int
    }
}

impl FieldValue {
    #[verifier::type_invariant]
    spec fn canonical(self) -> bool {
        self.raw < MODULUS
    }

    /// The element whose canonical representative is `v`.
    pub closed spec fn of(v: int) -> FieldValue {
        FieldValue { raw: v as u64 }
    }

    /// `of` and the view are inverse to each other on canonical
    /// representatives.
    pub broadcast proof fn lemma_of_view(v: int)
        requires
            0 <= v < modulus(),
        ensures
            (#[trigger] FieldValue::of(v))@ == v,
    {
    }

    /// Two elements are the same value exactly when their integers agree.
    pub broadcast proof fn lemma_view_injective(a: FieldValue, b: FieldValue)
        ensures
            (#[trigger] a@ == #[trigger] b@) <==> a == b,
    {
    }

    /// The element that `v` stands for, reduced modulo the field's prime.
    pub fn from_u64(v: u64) -> (r: FieldValue)
        ensures
            r@ == reduce(v as int),
    {
        FieldValue { raw: v % MODULUS }
    }

    /// The canonical representative.
    pub fn as_u64(&self) -> (r: u64)
        ensures
            r as int == self@,
            0 <= self@ < modulus(),
    {
        proof {
            use_type_invariant(self);
        }
        self.raw
    }

    /// The additive identity.
    pub fn zero() -> (r: FieldValue)
        ensures
            r@ == 0,
            r == FieldValue::of(0),
    {
        FieldValue { raw: 0 }
    }

    /// The multiplicative identity.
    pub fn one() -> (r: FieldValue)
        ensures
            r@ == 1,
            r == FieldValue::of(1),
    {
        FieldValue { raw: 1 }
    }

    /// The additive inverse of one, `modulus() - 1`.
    pub fn minus_one() -> (r: FieldValue)
        ensures
            r@ == reduce(-1),
            r@ == modulus() - 1,
            r == FieldValue::of(modulus() - 1),
    {
        FieldValue { raw: MODULUS - 1 }
    }

    /// Field addition.
    pub fn add(&self, other: &FieldValue) -> (r: FieldValue)
        ensures
            r@ == reduce(self@ + other@),
    {
        proof {
            use_type_invariant(self);
            use_type_invariant(other);
        }
        let sum: u128 = self.raw as u128 + other.raw as u128;
        let raw: u64 = if sum >= MODULUS as u128 {
            (sum - MODULUS as u128) as u64
        } else {
            sum as u64
        };
        FieldValue { raw }
    }

    /// Field subtraction.
    pub fn sub(&self, other: &FieldValue) -> (r: FieldValue)
        ensures
            r@ == reduce(self@ - other@),
    {
        proof {
            use_type_invariant(self);
            use_type_invariant(other);
        }
        let raw: u64 = if self.raw >= other.raw {
            self.raw - other.raw
        } else {
            MODULUS - other.raw + self.raw
        };
        FieldValue { raw }
    }

    /// Field multiplication.
    pub fn mul(&self, other: &FieldValue) -> (r: FieldValue)
        ensures
            r@ == reduce(self@ * other@),
    {
        proof {
            use_type_invariant(self);
            use_type_invariant(other);
            assert(0 <= self.raw * other.raw <= 0xFFFF_FFFF_FFFF_FFFF * 0xFFFF_FFFF_FFFF_FFFF)
                by (nonlinear_arith)
                requires
                    0 <= self.raw <= 0xFFFF_FFFF_FFFF_FFFF,
                    0 <= other.raw <= 0xFFFF_FFFF_FFFF_FFFF,
            ;
        }
        let product: u128 = self.raw as u128 * other.raw as u128;
        let raw: u64 = (product % MODULUS as u128) as u64;
        FieldValue { raw }
    }

    /// The value of the fused multiply-add relation, `self * b + c`.
    pub fn mul_add(&self, b: &FieldValue, c: &FieldValue) -> (r: FieldValue)
        ensures
            r@ == reduce(self@ * b@ + c@),
    {
        let product = self.mul(b);
        let r = product.add(c);
        proof {
            vstd::arithmetic::div_mod::lemma_add_mod_noop(self@ * b@, c@, modulus());
            use_type_invariant(c);
            vstd::arithmetic::div_mod::lemma_small_mod(c@ as nat, modulus() as nat);
            vstd::arithmetic::div_mod::lemma_mod_twice(self@ * b@, modulus());
            vstd::arithmetic::div_mod::lemma_add_mod_noop(reduce(self@ * b@), c@, modulus());
        }
        r
    }
}

} // verus!

verus! {

/// The integers that a sequence of field elements stands for.
pub open spec fn values_of(elements: Seq<FieldValue>) -> Seq<int> {
    Seq::new(elements.len(), |i: int| elements[i]@)
}

} // verus!
