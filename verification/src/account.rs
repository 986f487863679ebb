//! Accounts: opaque owner identities with an optional sub-account.

use vstd::prelude::*;

verus! {

/// The mathematical identity of an account: the owner's identity bytes
/// together with the optional sub-account bytes. Two accounts are the same
/// account exactly when these agree.
#[verifier::ext_equal]
pub ghost struct AccountId {
    pub owner: Seq<u8>,
    pub subaccount: Option<Seq<u8>>,
}

/// An account under which a balance can be held: an opaque, already-resolved
/// owner identity, plus an optional sub-account distinguishing several
/// balances of one owner. Equality is structural.
#[derive(Clone)]
pub struct Account {
    pub owner: Vec<u8>,
    pub subaccount: Option<Vec<u8>>,
}

impl View for Account {
    type V = AccountId;

    open spec fn view(&self) -> AccountId {
        AccountId {
            owner: self.owner@,
            subaccount: match self.subaccount {
                Some(s) => Some(s@),
                None => None,
            },
        }
    }
}

/// The account that holds an owner's default balance: no sub-account.
pub open spec fn owner_account(owner: Seq<u8>) -> AccountId {
    AccountId { owner, subaccount: None }
}

/// Exact byte-for-byte equality of two identity strings.
fn bytes_eq(a: &Vec<u8>, b: &Vec<u8>) -> (r: bool)
    ensures
        r == (a@ == b@),
{
    if a.len() != b.len() {
        return false;
    }
    let mut i: usize = 0;
    while i < a.len()
        invariant
            a@.len() == b@.len(),
            i <= a@.len(),
            forall|j: int| 0 <= j < i ==> a@[j] == b@[j],
        decreases a@.len() - i,
    {
        if a[i] != b[i] {
            return false;
        }
        i = i + 1;
    }
    proof {
        assert(a@ =~= b@);
    }
    true
}

impl Account {
    /// The account holding `owner`'s default balance.
    pub fn from_owner(owner: Vec<u8>) -> (r: Account)
        ensures
            r@ == owner_account(owner@),
    {
        Account { owner, subaccount: None }
    }

    /// Whether two accounts are the same account (structural equality of
    /// owner and sub-account).
    pub fn same_id(&self, other: &Account) -> (r: bool)
        ensures
            r == (self@ == other@),
    {
        let owner_eq = bytes_eq(&self.owner, &other.owner);
        let sub_eq = match (&self.subaccount, &other.subaccount) {
            (Some(x), Some(y)) => bytes_eq(x, y),
            (None, None) => true,
            _ => false,
        };
        let r = owner_eq && sub_eq;
        proof {
            if r {
                assert(self@ =~= other@);
            }
        }
        r
    }
}

} // verus!
