use vstd::prelude::*;

verus! {

/// Number of bytes in an account identity.
pub const ACCOUNT_ID_LEN: usize = 32;

/// A 32-byte account identity, as handed out by the host environment.
#[derive(Clone, Copy, Debug)]
pub struct AccountId(pub [u8; 32]);

impl AccountId {
    /// Two identities are the same account exactly when all their bytes agree.
    pub fn same(&self, other: &AccountId) -> (r: bool)
        ensures
            r == (*self == *other),
    {
        let mut i: usize = 0;
        while i < ACCOUNT_ID_LEN
            invariant
                0 <= i <= ACCOUNT_ID_LEN,
                forall|j: int| 0 <= j < i ==> self.0[j] == other.0[j],
            decreases ACCOUNT_ID_LEN - i,
        {
            if self.0[i] != other.0[i] {
                return false;
            }
            i = i + 1;
        }
        proof {
            assert(self.0 =~= other.0);
        }
        true
    }
}

impl PartialEq for AccountId {
    fn eq(&self, other: &AccountId) -> (r: bool) {
        self.same(other)
    }
}

impl vstd::std_specs::cmp::PartialEqSpecImpl for AccountId {
    open spec fn obeys_eq_spec() -> bool {
        true
    }

    open spec fn eq_spec(&self, other: &AccountId) -> bool {
        *self == *other
    }
}

impl Eq for AccountId {
}

} // verus!
