//! Elements of the 64-bit prime field with modulus `2^64 - 2^32 + 1`.

use vstd::prelude::*;

verus! {

/// The field modulus `2^64 - 2^32 + 1`.
pub const MODULUS: u64 = 0xffff_ffff_0000_0001;

/// The field modulus as a mathematical integer.
pub open spec fn modulus() -> int {
    MODULUS as int
}

/// Sum of two field values.
pub open spec fn fadd(a: int, b: int) -> int {
    (a + b) % modulus()
}

/// Product of two field values.
pub open spec fn fmul(a: int, b: int) -> int {
    (a * b) % modulus()
}

/// Difference of two field values.
pub open spec fn fsub(a: int, b: int) -> int {
    (a - b + modulus()) % modulus()
}

/// 1 is the identity of the product on canonical values.
pub proof fn lemma_fmul_one(x: int)
    requires
        0 <= x < modulus(),
    ensures
        fmul(x, 1) == x,
        fmul(1, x) == x,
{
    vstd::arithmetic::div_mod::lemma_small_mod(x as nat, modulus() as nat);
}

/// The product is associative.
pub proof fn lemma_fmul_assoc(a: int, b: int, c: int)
    ensures
        fmul(a, fmul(b, c)) == fmul(fmul(a, b), c),
{
    let p = modulus();
    vstd::arithmetic::div_mod::lemma_mul_mod_noop_right(a, b * c, p);
    vstd::arithmetic::div_mod::lemma_mul_mod_noop_left(a * b, c, p);
    vstd::arithmetic::mul::lemma_mul_is_associative(a, b, c);
}

/// The product is commutative.
pub proof fn lemma_fmul_comm(a: int, b: int)
    ensures
        fmul(a, b) == fmul(b, a),
{
    vstd::arithmetic::mul::lemma_mul_is_commutative(a, b);
}

/// An element of the field, held in canonical form.
#[derive(Clone, Copy, Debug, PartialEq, Eq, Structural)]
pub struct Felt {
    pub value: u64,
}

impl Felt {
    /// The integer in `[0, MODULUS)` that this element stands for.
    pub open spec fn view(self) -> int {
        self.value as int
    }

    /// The canonical-form invariant.
    pub open spec fn wf(self) -> bool {
        self.value < MODULUS
    }

    pub fn zero() -> (r: Felt)
        ensures
            r.wf(),
            r@ == 0,
    {
        Felt { value: 0 }
    }

    pub fn one() -> (r: Felt)
        ensures
            r.wf(),
            r@ == 1,
    {
        Felt { value: 1 }
    }

    /// The element `n mod MODULUS`.
    pub fn from_u64(n: u64) -> (r: Felt)
        ensures
            r.wf(),
            r@ == n as int % modulus(),
    {
        Felt { value: n % MODULUS }
    }

    pub fn add(self, o: Felt) -> (r: Felt)
        requires
            self.wf(),
            o.wf(),
        ensures
            r.wf(),
            r@ == fadd(self@, o@),
    {
        let s: u128 = self.value as u128 + o.value as u128;
        let m: u128 = s % (MODULUS as u128);
        Felt { value: m as u64 }
    }

    pub fn sub(self, o: Felt) -> (r: Felt)
        requires
            self.wf(),
            o.wf(),
        ensures
            r.wf(),
            r@ == fsub(self@, o@),
    {
        let s: u128 = self.value as u128 + MODULUS as u128 - o.value as u128;
        let m: u128 = s % (MODULUS as u128);
        Felt { value: m as u64 }
    }

    pub fn mul(self, o: Felt) -> (r: Felt)
        requires
            self.wf(),
            o.wf(),
        ensures
            r.wf(),
            r@ == fmul(self@, o@),
    {
        let a: u128 = self.value as u128;
        let b: u128 = o.value as u128;
        assert(a * b < 0x1_0000_0000_0000_0000_0000_0000_0000_0000) by (nonlinear_arith)
            requires
                a < 0x1_0000_0000_0000_0000,
                b < 0x1_0000_0000_0000_0000,
        ;
        let p: u128 = a * b;
        let m: u128 = p % (MODULUS as u128);
        Felt { value: m as u64 }
    }

    pub fn is_zero(self) -> (r: bool)
        ensures
            r == (self@ == 0),
    {
        self.value == 0
    }

    pub fn is_one(self) -> (r: bool)
        ensures
            r == (self@ == 1),
    {
        self.value == 1
    }

    pub fn eq(self, o: Felt) -> (r: bool)
        ensures
            r == (self@ == o@),
    {
        self.value == o.value
    }
}

} // verus!
