use vstd::prelude::*;

verus! {

/// A Stellar address (an account `G...` or a contract `C...`), held as the
/// 56 bytes of its strkey text. Two addresses are the same party exactly when
/// their strkeys are equal.
#[derive(Clone, Copy, Debug, PartialEq, Eq)]
pub struct Address {
    strkey: [u8; 56],
}

impl Address {
    /// The strkey bytes of this address.
    pub closed spec fn spec_strkey(self) -> Seq<u8> {
        self.strkey@
    }

    /// Wraps the 56 bytes of a strkey.
    pub fn from_strkey(strkey: [u8; 56]) -> (a: Address)
        ensures
            a.spec_strkey() == strkey@,
    {
        Address { strkey }
    }

    /// The 56 bytes of the strkey.
    pub fn strkey(&self) -> (s: [u8; 56])
        ensures
            s@ == self.spec_strkey(),
    {
        self.strkey
    }

    /// Two addresses hold the same strkey exactly when they are the same value.
    pub proof fn lemma_strkey_injective(a: Address, b: Address)
        ensures
            (a.spec_strkey() == b.spec_strkey()) <==> (a == b),
    {
        if a.spec_strkey() == b.spec_strkey() {
            assert forall|i: int| 0 <= i < 56 implies a.strkey[i] == b.strkey[i] by {
                assert(a.strkey@[i] == b.strkey@[i]);
            }
            assert(a.strkey =~= b.strkey);
        }
    }

    /// Compares two addresses byte by byte.
    pub fn same_as(&self, other: &Address) -> (r: bool)
        ensures
            r == (*self == *other),
    {
        let mut i: usize = 0;
        while i < 56
            invariant
                i <= 56,
                forall|j: int| 0 <= j < i ==> self.strkey@[j] == other.strkey@[j],
            decreases 56 - i,
        {
            if self.strkey[i] != other.strkey[i] {
                return false;
            }
            i = i + 1;
        }
        proof {
            assert(self.strkey@ =~= other.strkey@);
            Address::lemma_strkey_injective(*self, *other);
        }
        true
    }
}

} // verus!
