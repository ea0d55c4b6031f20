use vstd::prelude::*;

verus! {

/// 2^64, the base of one limb.
pub open spec fn limb_base() -> nat {
    0x1_0000_0000_0000_0000nat
}

/// 2^256, one more than the largest `U256`.
pub open spec fn u256_modulus() -> nat {
    0x1_0000_0000_0000_0000_0000_0000_0000_0000_0000_0000_0000_0000_0000_0000_0000_0000nat
}

/// Value of four little-endian 64-bit limbs.
pub open spec fn limbs4_value(l: [u64; 4]) -> nat {
    l[0] as nat + limb_base() * (l[1] as nat + limb_base() * (l[2] as nat + limb_base() * (l[3] as nat)))
}

/// Value of eight little-endian 64-bit limbs.
pub open spec fn limbs8_value(l: [u64; 8]) -> nat {
    limbs4_value([l[0], l[1], l[2], l[3]]) + u256_modulus() * limbs4_value([l[4], l[5], l[6], l[7]])
}

/// A 256-bit unsigned integer, stored as four little-endian 64-bit limbs.
#[derive(Clone, Copy, Debug, PartialEq, Eq, Hash)]
pub struct U256(pub [u64; 4]);

/// A 512-bit unsigned integer, stored as eight little-endian 64-bit limbs.
#[derive(Clone, Copy, Debug, PartialEq, Eq, Hash)]
pub struct U512(pub [u64; 8]);

impl View for U256 {
    type V = nat;

    open spec fn view(&self) -> nat {
        limbs4_value(self.0)
    }
}

impl View for U512 {
    type V = nat;

    open spec fn view(&self) -> nat {
        limbs8_value(self.0)
    }
}

impl U256 {
    pub fn zero() -> (r: U256)
        ensures
            r@ == 0,
    {
        U256([0, 0, 0, 0])
    }

    pub fn one() -> (r: U256)
        ensures
            r@ == 1,
    {
        U256([1, 0, 0, 0])
    }

    pub fn from_u64(v: u64) -> (r: U256)
        ensures
            r@ == v,
    {
        U256([v, 0, 0, 0])
    }

    /// The largest value, 2^256 - 1.
    pub fn max_value() -> (r: U256)
        ensures
            r@ == u256_modulus() - 1,
    {
        U256([0xffff_ffff_ffff_ffff, 0xffff_ffff_ffff_ffff, 0xffff_ffff_ffff_ffff, 0xffff_ffff_ffff_ffff])
    }

    pub proof fn lemma_bounds(self)
        ensures
            0 <= self@ < u256_modulus(),
    {
    }
}

impl U512 {
    pub fn from_u256(v: U256) -> (r: U512)
        ensures
            r@ == v@,
    {
        U512([v.0[0], v.0[1], v.0[2], v.0[3], 0, 0, 0, 0])
    }

    pub proof fn lemma_bounds(self)
        ensures
            0 <= self@ < u256_modulus() * u256_modulus(),
    {
        let lo = limbs4_value([self.0[0], self.0[1], self.0[2], self.0[3]]);
        let hi = limbs4_value([self.0[4], self.0[5], self.0[6], self.0[7]]);
        assert(hi <= u256_modulus() - 1);
        assert(u256_modulus() * hi <= u256_modulus() * (u256_modulus() - 1)) by (nonlinear_arith)
            requires
                hi <= u256_modulus() - 1,
        ;
    }
}

/// A 32-byte hash.
#[derive(Clone, Copy, Debug, PartialEq, Eq, Hash, PartialOrd, Ord)]
pub struct H256(pub [u8; 32]);

/// A 20-byte account address.
#[derive(Clone, Copy, Debug, PartialEq, Eq, Hash, PartialOrd, Ord)]
pub struct Address(pub [u8; 20]);

impl View for H256 {
    type V = Seq<u8>;

    open spec fn view(&self) -> Seq<u8> {
        self.0@
    }
}

impl View for Address {
    type V = Seq<u8>;

    open spec fn view(&self) -> Seq<u8> {
        self.0@
    }
}

/// The address space an account lives in.
#[derive(Clone, Copy, Debug, PartialEq, Eq, Structural, Hash, PartialOrd, Ord)]
pub enum Space {
    Ethereum,
}

/// An address together with its space.
#[derive(Clone, Copy, Debug, PartialEq, Eq, Hash, PartialOrd, Ord)]
pub struct AddressWithSpace {
    pub address: Address,
    pub space: Space,
}

/// Epoch identifiers are block hashes.
pub type EpochId = H256;

broadcast use vstd::array::group_array_axioms;

pub fn bytes20_eq(a: &[u8; 20], b: &[u8; 20]) -> (r: bool)
    ensures
        r == (*a == *b),
{
    let mut i: usize = 0;
    while i < 20
        invariant
            0 <= i <= 20,
            forall|j: int| 0 <= j < i ==> a[j] == b[j],
        decreases 20 - i,
    {
        if a[i] != b[i] {
            return false;
        }
        i += 1;
    }
    assert(*a =~= *b);
    true
}

pub fn bytes32_eq(a: &[u8; 32], b: &[u8; 32]) -> (r: bool)
    ensures
        r == (*a == *b),
        r == (a@ == b@),
{
    let mut i: usize = 0;
    while i < 32
        invariant
            0 <= i <= 32,
            forall|j: int| 0 <= j < i ==> a[j] == b[j],
        decreases 32 - i,
    {
        if a[i] != b[i] {
            assert(a@[i as int] != b@[i as int]);
            return false;
        }
        i += 1;
    }
    assert(*a =~= *b);
    true
}

impl Address {
    pub fn zero() -> (r: Address)
        ensures
            forall|i: int| 0 <= i < 20 ==> r.0[i] == 0,
    {
        Address([0u8; 20])
    }

    pub fn same(&self, other: &Address) -> (r: bool)
        ensures
            r == (*self == *other),
    {
        bytes20_eq(&self.0, &other.0)
    }

    pub open spec fn with_evm_space_spec(self) -> AddressWithSpace {
        AddressWithSpace { address: self, space: Space::Ethereum }
    }

    pub fn with_space(self, space: Space) -> (r: AddressWithSpace)
        ensures
            r.address == self,
            r.space == space,
    {
        AddressWithSpace { address: self, space }
    }

    pub fn with_evm_space(self) -> (r: AddressWithSpace)
        ensures
            r.address == self,
            r.space == Space::Ethereum,
    {
        AddressWithSpace { address: self, space: Space::Ethereum }
    }

}

impl H256 {
    pub fn same(&self, other: &H256) -> (r: bool)
        ensures
            r == (*self == *other),
            r == (self@ == other@),
    {
        bytes32_eq(&self.0, &other.0)
    }
}

impl AddressWithSpace {
    pub fn same(&self, other: &AddressWithSpace) -> (r: bool)
        ensures
            r == (*self == *other),
    {
        let a = self.address.same(&other.address);
        a && self.space == other.space
    }
}

} // verus!
