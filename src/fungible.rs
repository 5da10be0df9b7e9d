//! Revealed fungible state and the balance rule of a state transition:
//! amounts and blinding factors spent must equal those assigned.

use vstd::arithmetic::div_mod::{
    lemma_add_mod_noop, lemma_fundamental_div_mod, lemma_fundamental_div_mod_converse, lemma_mod_twice,
    lemma_small_mod,
};
use vstd::prelude::*;

verus! {

/// Why a transition is rejected by the balance check.
#[derive(Clone, Copy, Debug, PartialEq, Eq)]
pub enum ValidationError {
    /// The amounts spent and the amounts assigned differ.
    BalanceMismatch,
}

/// `2^64`, the base of a limb.
pub open spec fn base() -> int {
    0x1_0000_0000_0000_0000
}

/// The number four little-endian 64-bit limbs spell.
pub open spec fn limbs_value(l0: u64, l1: u64, l2: u64, l3: u64) -> int {
    l0 + base() * (l1 + base() * (l2 + base() * l3))
}

pub const ORDER_0: u64 = 0xBFD2_5E8C_D036_4141;
pub const ORDER_1: u64 = 0xBAAE_DCE6_AF48_A03B;
pub const ORDER_2: u64 = 0xFFFF_FFFF_FFFF_FFFE;
pub const ORDER_3: u64 = 0xFFFF_FFFF_FFFF_FFFF;

/// The order of the commitment group, the modulus of blinding-factor arithmetic.
pub open spec fn field_order() -> int {
    limbs_value(ORDER_0, ORDER_1, ORDER_2, ORDER_3)
}

/// `2^256` less the group order, in limbs.
const COMPLEMENT_0: u64 = 0x402D_A173_2FC9_BEBF;
const COMPLEMENT_1: u64 = 0x4551_2319_50B7_5FC4;
const COMPLEMENT_2: u64 = 0x1;
const COMPLEMENT_3: u64 = 0x0;

/// A 256-bit scalar blinding an amount, as four little-endian 64-bit limbs.
#[derive(Clone, Copy, Debug, PartialEq, Eq)]
pub struct BlindingFactor {
    pub l0: u64,
    pub l1: u64,
    pub l2: u64,
    pub l3: u64,
}

/// A scalar that is not below the group order.
#[derive(Clone, Copy, Debug, PartialEq, Eq)]
pub struct FieldOrderOverflow;

impl BlindingFactor {
    pub open spec fn value(self) -> int {
        limbs_value(self.l0, self.l1, self.l2, self.l3)
    }

    /// A scalar of the field: below the group order.
    pub open spec fn wf(self) -> bool {
        self.value() < field_order()
    }

    /// The scalar with the given limbs, refused where it is not below the
    /// group order.
    pub fn from_limbs(l0: u64, l1: u64, l2: u64, l3: u64) -> (r: Result<
        BlindingFactor,
        FieldOrderOverflow,
    >)
        ensures
            r is Ok <==> limbs_value(l0, l1, l2, l3) < field_order(),
            r matches Ok(f) ==> f == (BlindingFactor { l0, l1, l2, l3 }),
    {
        let (_, _, _, _, carry) = add_limbs(
            l0,
            l1,
            l2,
            l3,
            COMPLEMENT_0,
            COMPLEMENT_1,
            COMPLEMENT_2,
            COMPLEMENT_3,
        );
        if carry == 0 {
            Ok(BlindingFactor { l0, l1, l2, l3 })
        } else {
            Err(FieldOrderOverflow)
        }
    }

    /// The zero scalar.
    pub fn zero() -> (r: BlindingFactor)
        ensures
            r.value() == 0,
            r.wf(),
    {
        BlindingFactor { l0: 0, l1: 0, l2: 0, l3: 0 }
    }

    /// The sum of two scalars modulo the group order.
    pub fn add_mod(&self, other: &BlindingFactor) -> (r: BlindingFactor)
        requires
            self.wf(),
            other.wf(),
        ensures
            r.wf(),
            r.value() == (self.value() + other.value()) % field_order(),
    {
        let (d0, d1, d2, d3, c) = add_limbs(
            self.l0,
            self.l1,
            self.l2,
            self.l3,
            other.l0,
            other.l1,
            other.l2,
            other.l3,
        );
        // Adding 2^256 - n carries out exactly when the sum reaches n.
        let (e0, e1, e2, e3, k) = add_limbs(
            d0,
            d1,
            d2,
            d3,
            COMPLEMENT_0,
            COMPLEMENT_1,
            COMPLEMENT_2,
            COMPLEMENT_3,
        );
        let ghost sum = self.value() + other.value();
        let ghost n = field_order();
        if c == 1 || k == 1 {
            proof {
                lemma_fundamental_div_mod_converse(sum, n, 1, sum - n);
            }
            BlindingFactor { l0: e0, l1: e1, l2: e2, l3: e3 }
        } else {
            proof {
                lemma_fundamental_div_mod_converse(sum, n, 0, sum);
            }
            BlindingFactor { l0: d0, l1: d1, l2: d2, l3: d3 }
        }
    }
}

/// Limbs spell each number once.
proof fn lemma_limbs_injective(a: BlindingFactor, b: BlindingFactor)
    ensures
        a.value() == b.value() <==> (a.l0 == b.l0 && a.l1 == b.l1 && a.l2 == b.l2 && a.l3 == b.l3),
{
    if a.value() == b.value() {
        let (x, y) = (a.value(), b.value());
        let qa = a.l1 + base() * (a.l2 + base() * a.l3);
        let qb = b.l1 + base() * (b.l2 + base() * b.l3);
        lemma_fundamental_div_mod_converse(x, base(), qa, a.l0 as int);
        lemma_fundamental_div_mod_converse(y, base(), qb, b.l0 as int);
        let ra = a.l2 + base() * a.l3;
        let rb = b.l2 + base() * b.l3;
        lemma_fundamental_div_mod_converse(qa, base(), ra, a.l1 as int);
        lemma_fundamental_div_mod_converse(qb, base(), rb, b.l1 as int);
        lemma_fundamental_div_mod_converse(ra, base(), a.l3 as int, a.l2 as int);
        lemma_fundamental_div_mod_converse(rb, base(), b.l3 as int, b.l2 as int);
    }
}

/// Adds two limb numbers; the last component is the carry out of the top limb.
fn add_limbs(
    a0: u64,
    a1: u64,
    a2: u64,
    a3: u64,
    b0: u64,
    b1: u64,
    b2: u64,
    b3: u64,
) -> (r: (u64, u64, u64, u64, u64))
    ensures
        r.4 <= 1,
        limbs_value(r.0, r.1, r.2, r.3) + r.4 * base() * base() * base() * base() == limbs_value(
            a0,
            a1,
            a2,
            a3,
        ) + limbs_value(b0, b1, b2, b3),
{
    let (d0, c0) = add_limb(a0, b0, 0);
    let (d1, c1) = add_limb(a1, b1, c0);
    let (d2, c2) = add_limb(a2, b2, c1);
    let (d3, c3) = add_limb(a3, b3, c2);
    (d0, d1, d2, d3, c3)
}

/// One limb of an addition: the digit and the carry out.
fn add_limb(a: u64, b: u64, carry: u64) -> (r: (u64, u64))
    requires
        carry <= 1,
    ensures
        r.1 <= 1,
        r.0 + r.1 * base() == a + b + carry,
{
    let s: u128 = a as u128 + b as u128 + carry as u128;
    proof {
        lemma_fundamental_div_mod(s as int, base());
    }
    ((s % 0x1_0000_0000_0000_0000) as u64, (s / 0x1_0000_0000_0000_0000) as u64)
}

/// A revealed fungible assignment: an amount and the factor that blinds it.
#[derive(Clone, Copy, Debug, PartialEq, Eq)]
pub struct RevealedFungible {
    pub amount: u64,
    pub blinding: BlindingFactor,
}

/// Every blinding factor of the list is a scalar of the field.
pub open spec fn all_wf(s: Seq<RevealedFungible>) -> bool {
    forall|i: int| 0 <= i < s.len() ==> (#[trigger] s[i]).blinding.wf()
}

/// The sum of the amounts.
pub open spec fn amount_total(s: Seq<RevealedFungible>) -> int
    decreases s.len(),
{
    if s.len() == 0 {
        0
    } else {
        amount_total(s.drop_last()) + s.last().amount
    }
}

/// The sum of the blinding factors, as integers.
pub open spec fn blinding_total(s: Seq<RevealedFungible>) -> int
    decreases s.len(),
{
    if s.len() == 0 {
        0
    } else {
        blinding_total(s.drop_last()) + s.last().blinding.value()
    }
}

proof fn lemma_amount_total_bound(s: Seq<RevealedFungible>)
    ensures
        0 <= amount_total(s) <= s.len() * 0xffff_ffff_ffff_ffff,
    decreases s.len(),
{
    if s.len() > 0 {
        lemma_amount_total_bound(s.drop_last());
    }
}

/// The sum of the amounts, which fits 128 bits for any list that memory holds.
pub fn sum_amounts(s: &[RevealedFungible]) -> (r: u128)
    ensures
        r as int == amount_total(s@),
{
    let mut acc: u128 = 0;
    let mut i: usize = 0;
    while i < s.len()
        invariant
            i <= s@.len(),
            acc as int == amount_total(s@.take(i as int)),
        decreases s@.len() - i,
    {
        proof {
            lemma_amount_total_bound(s@.take(i as int));
            assert(s@.take(i + 1).drop_last() =~= s@.take(i as int));
            assert(i * 0xffff_ffff_ffff_ffff <= 0xffff_ffff_ffff_ffff * 0xffff_ffff_ffff_ffff)
                by (nonlinear_arith)
                requires
                    i <= 0xffff_ffff_ffff_ffff,
            ;
        }
        acc = acc + s[i].amount as u128;
        i = i + 1;
    }
    assert(s@.take(s@.len() as int) =~= s@);
    acc
}

/// The sum of the blinding factors modulo the group order.
pub fn sum_blinding(s: &[RevealedFungible]) -> (r: BlindingFactor)
    requires
        all_wf(s@),
    ensures
        r.wf(),
        r.value() == blinding_total(s@) % field_order(),
{
    let mut acc = BlindingFactor::zero();
    let mut i: usize = 0;
    proof {
        lemma_small_mod(0, field_order() as nat);
    }
    while i < s.len()
        invariant
            i <= s@.len(),
            all_wf(s@),
            acc.wf(),
            acc.value() == blinding_total(s@.take(i as int)) % field_order(),
        decreases s@.len() - i,
    {
        let ghost prev = blinding_total(s@.take(i as int));
        let ghost v = s@[i as int].blinding.value();
        assert(s@[i as int].blinding.wf());
        acc = acc.add_mod(&s[i].blinding);
        proof {
            assert(s@.take(i + 1).drop_last() =~= s@.take(i as int));
            lemma_add_mod_noop(prev, v, field_order());
            lemma_small_mod(v as nat, field_order() as nat);
            lemma_mod_twice(prev, field_order());
        }
        i = i + 1;
    }
    assert(s@.take(s@.len() as int) =~= s@);
    acc
}

/// The balance rule of a transition: accepted exactly when the amounts spent
/// sum to the amounts assigned and the blinding factors spent sum, modulo
/// the group order, to those assigned; rejected with `BalanceMismatch`
/// otherwise.
pub fn validate_balance(inputs: &[RevealedFungible], outputs: &[RevealedFungible]) -> (r: Result<
    (),
    ValidationError,
>)
    requires
        all_wf(inputs@),
        all_wf(outputs@),
    ensures
        r is Ok <==> (amount_total(inputs@) == amount_total(outputs@) && blinding_total(inputs@)
            % field_order() == blinding_total(outputs@) % field_order()),
        r is Err ==> r == Err::<(), ValidationError>(ValidationError::BalanceMismatch),
{
    if sum_amounts(inputs) != sum_amounts(outputs) {
        return Err(ValidationError::BalanceMismatch);
    }
    let a = sum_blinding(inputs);
    let b = sum_blinding(outputs);
    proof {
        lemma_limbs_injective(a, b);
    }
    if a.l0 == b.l0 && a.l1 == b.l1 && a.l2 == b.l2 && a.l3 == b.l3 {
        Ok(())
    } else {
        Err(ValidationError::BalanceMismatch)
    }
}

} // verus!
