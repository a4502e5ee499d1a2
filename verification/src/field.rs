//! Elements of the scalar field of the BN254 curve.

use halo2curves::bn256::Fr;
use vstd::prelude::*;

verus! {

/// The order of the field, a prime.
#[verifier::inline]
pub open spec fn modulus() -> nat {
    0x30644e72e131a029b85045b68181585d2833e84879b9709143e1f593f0000001nat
}

/// The number that `bytes` spell, least significant byte first.
pub open spec fn le_value(bytes: Seq<u8>) -> nat
    decreases bytes.len(),
{
    if bytes.len() == 0 {
        0
    } else {
        bytes[0] as nat + 256 * le_value(bytes.drop_first())
    }
}

/// An element of the field, kept as its canonical encoding: the least representative, in
/// 32 bytes, least significant byte first.
#[derive(Debug, Clone, Copy, PartialEq, Eq, Hash)]
pub struct Scalar {
    repr: [u8; 32],
}

impl View for Scalar {
    type V = nat;

    /// The least representative of the element.
    closed spec fn view(&self) -> nat {
        le_value(self.repr@)
    }
}

impl Scalar {
    #[verifier::type_invariant]
    spec fn canonical(self) -> bool {
        le_value(self.repr@) < modulus()
    }

    /// The element that `value` stands for.
    pub fn from_u64(value: u64) -> (r: Self)
        ensures
            r@ == value,
    {
        Scalar { repr: fr_from_u64(value) }
    }

    /// The element that `bytes` encode; `None` where they spell a number that is not below
    /// the field's order.
    pub fn from_bytes(bytes: [u8; 32]) -> (r: Option<Self>)
        ensures
            r is Some <==> le_value(bytes@) < modulus(),
            r matches Some(s) ==> s@ == le_value(bytes@),
    {
        if fr_is_canonical(&bytes) {
            Some(Scalar { repr: bytes })
        } else {
            None
        }
    }

    /// The canonical encoding of the element.
    pub fn to_bytes(&self) -> (r: [u8; 32])
        ensures
            le_value(r@) == self@,
            self@ < modulus(),
    {
        proof {
            use_type_invariant(self);
        }
        self.repr
    }

    /// The sum of two elements.
    pub fn plus(&self, other: &Self) -> (r: Self)
        ensures
            r@ == (self@ + other@) % modulus(),
            r@ < modulus(),
    {
        proof {
            use_type_invariant(self);
            use_type_invariant(other);
        }
        Scalar { repr: fr_add(&self.repr, &other.repr) }
    }
}

/// The sum of two cell values, each of which may not be known yet. Where one of them is
/// unknown, so is the sum.
pub fn sum_if_known(left: Option<Scalar>, right: Option<Scalar>) -> (r: Option<Scalar>)
    ensures
        r is Some <==> left is Some && right is Some,
        r matches Some(sum) ==> sum@ == (left->0@ + right->0@) % modulus(),
{
    match (left, right) {
        (Some(a), Some(b)) => Some(a.plus(&b)),
        _ => None,
    }
}

/// The `From<u64>` of `halo2curves::bn256::Fr`, which takes a number to its residue class. A
/// 64-bit number is below the field's order, so the canonical encoding of its class spells
/// the number itself.
#[verifier::external_body]
fn fr_from_u64(value: u64) -> (r: [u8; 32])
    ensures
        le_value(r@) == value,
{
    Fr::from(value).to_bytes()
}

/// `from_bytes` of `halo2curves::bn256::Fr`, asked only whether it succeeds: it fails exactly
/// on the encodings that are not canonical, those of a number not below the field's order.
#[verifier::external_body]
fn fr_is_canonical(bytes: &[u8; 32]) -> (r: bool)
    ensures
        r == (le_value(bytes@) < modulus()),
{
    bool::from(Fr::from_bytes(bytes).is_some())
}

/// The addition of `halo2curves::bn256::Fr`, on canonical encodings: the sum of the two
/// numbers, reduced by the field's order. `from_bytes` succeeds on both operands because they
/// are canonical, and `to_bytes` gives the canonical encoding of the sum.
#[verifier::external_body]
fn fr_add(left: &[u8; 32], right: &[u8; 32]) -> (r: [u8; 32])
    requires
        le_value(left@) < modulus(),
        le_value(right@) < modulus(),
    ensures
        le_value(r@) == (le_value(left@) + le_value(right@)) % modulus(),
{
    (Fr::from_bytes(left).unwrap() + Fr::from_bytes(right).unwrap()).to_bytes()
}

/// Two sequences of bytes of one length that spell the same number are the same.
proof fn lemma_le_value_injective(left: Seq<u8>, right: Seq<u8>)
    requires
        left.len() == right.len(),
        le_value(left) == le_value(right),
    ensures
        left == right,
    decreases left.len(),
{
    if left.len() > 0 {
        lemma_le_value_injective(left.drop_first(), right.drop_first());
        assert(left == seq![left[0]] + left.drop_first());
        assert(right == seq![right[0]] + right.drop_first());
    }
}

/// Encodings of one length that spell the same number are the same.
pub proof fn law_encoding_is_its_number(left: Seq<u8>, right: Seq<u8>)
    requires
        left.len() == right.len(),
        le_value(left) == le_value(right),
    ensures
        left == right,
{
    lemma_le_value_injective(left, right);
}

/// An element has one representation: scalars that stand for the same number are equal.
pub proof fn law_scalar_is_its_number(left: Scalar, right: Scalar)
    requires
        left@ == right@,
    ensures
        left == right,
{
    lemma_le_value_injective(left.repr@, right.repr@);
    assert(left.repr =~= right.repr);
}

} // verus!
