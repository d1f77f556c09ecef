//! The account-allow predicate: an account passes the filter when it is in
//! the explicit set or inside one of the inclusive ranges.

use vstd::prelude::*;
use crate::types::{lex_le, AccountId};

verus! {

/// An allow predicate over account identifiers, by set membership and/or
/// inclusive ranges; `None` leaves a range unbounded on that side.
#[derive(Clone, Debug, PartialEq, Eq)]
pub struct FlatStateFilter {
    pub accounts: Vec<AccountId>,
    pub account_ranges: Vec<(Option<AccountId>, Option<AccountId>)>,
}

pub struct FlatStateFilterV {
    pub accounts: Seq<Seq<u8>>,
    pub account_ranges: Seq<(Option<Seq<u8>>, Option<Seq<u8>>)>,
}

impl View for FlatStateFilter {
    type V = FlatStateFilterV;

    open spec fn view(&self) -> FlatStateFilterV {
        FlatStateFilterV {
            accounts: self.accounts.deep_view(),
            account_ranges: self.account_ranges.deep_view(),
        }
    }
}

/// One inclusive range admits `a` when both bounds, where present, are on
/// the right side of `a` in the lexicographic order.
pub open spec fn range_allows(range: (Option<Seq<u8>>, Option<Seq<u8>>), a: Seq<u8>) -> bool {
    &&& (range.0 matches Some(lo) ==> lex_le(lo, a))
    &&& (range.1 matches Some(hi) ==> lex_le(a, hi))
}

/// The filter's allow predicate.
pub open spec fn spec_allowed(f: FlatStateFilterV, a: Seq<u8>) -> bool {
    ||| f.accounts.contains(a)
    ||| exists|i: int| 0 <= i < f.account_ranges.len() && range_allows(f.account_ranges[i], a)
}

impl FlatStateFilter {
    /// A filter that admits no account.
    pub fn empty() -> (r: FlatStateFilter)
        ensures
            r@.accounts == Seq::<Seq<u8>>::empty(),
            r@.account_ranges == Seq::<(Option<Seq<u8>>, Option<Seq<u8>>)>::empty(),
    {
        let r = FlatStateFilter { accounts: Vec::new(), account_ranges: Vec::new() };
        proof {
            assert(r@.accounts =~= Seq::<Seq<u8>>::empty());
            assert(r@.account_ranges =~= Seq::<(Option<Seq<u8>>, Option<Seq<u8>>)>::empty());
        }
        r
    }

    /// A filter that admits every account: no explicit members, one range
    /// unbounded on both sides.
    pub fn full() -> (r: FlatStateFilter)
        ensures
            r@.accounts == Seq::<Seq<u8>>::empty(),
            r@.account_ranges =~= seq![
                (None::<Seq<u8>>, None::<Seq<u8>>),
            ],
    {
        let mut account_ranges: Vec<(Option<AccountId>, Option<AccountId>)> = Vec::new();
        account_ranges.push((None, None));
        let r = FlatStateFilter { accounts: Vec::new(), account_ranges };
        proof {
            assert(r@.accounts =~= Seq::<Seq<u8>>::empty());
        }
        r
    }

    /// A filter that admits exactly the listed accounts, with no ranges.
    pub fn from_accounts(accounts: &[AccountId]) -> (r: FlatStateFilter)
        ensures
            r@.accounts.len() == accounts@.len(),
            forall|i: int| 0 <= i < accounts@.len() ==> r@.accounts[i] == accounts@[i]@,
            r@.account_ranges == Seq::<(Option<Seq<u8>>, Option<Seq<u8>>)>::empty(),
    {
        let mut owned: Vec<AccountId> = Vec::new();
        let n = accounts.len();
        let mut i: usize = 0;
        while i < n
            invariant
                i <= n,
                n == accounts@.len(),
                owned@.len() == i,
                forall|j: int| 0 <= j < i ==> owned@[j]@ == accounts@[j]@,
            decreases n - i,
        {
            owned.push(accounts[i].duplicate());
            i += 1;
        }
        let r = FlatStateFilter { accounts: owned, account_ranges: Vec::new() };
        proof {
            assert(r@.account_ranges =~= Seq::<(Option<Seq<u8>>, Option<Seq<u8>>)>::empty());
        }
        r
    }

    /// Decides the allow predicate for one account.
    pub fn is_account_allowed(&self, account: &AccountId) -> (r: bool)
        ensures
            r == spec_allowed(self@, account@),
    {
        let mut i: usize = 0;
        while i < self.accounts.len()
            invariant
                i <= self.accounts.len(),
                forall|j: int| 0 <= j < i ==> self@.accounts[j] != account@,
            decreases self.accounts.len() - i,
        {
            if self.accounts[i].eq_id(account) {
                assert(self@.accounts[i as int] == account@);
                return true;
            }
            i += 1;
        }
        let mut k: usize = 0;
        while k < self.account_ranges.len()
            invariant
                k <= self.account_ranges.len(),
                forall|j: int| 0 <= j < i ==> self@.accounts[j] != account@,
                i == self.accounts.len(),
                forall|j: int| 0 <= j < k ==> !range_allows(self@.account_ranges[j], account@),
            decreases self.account_ranges.len() - k,
        {
            let lo_ok = match &self.account_ranges[k].0 {
                Option::None => true,
                Option::Some(lo) => lo.le(account),
            };
            let hi_ok = match &self.account_ranges[k].1 {
                Option::None => true,
                Option::Some(hi) => account.le(hi),
            };
            if lo_ok && hi_ok {
                assert(range_allows(self@.account_ranges[k as int], account@));
                return true;
            }
            k += 1;
        }
        false
    }
}

/// `from_accounts` accepts exactly the accounts it was given: with no
/// ranges, the allow predicate is membership in the listed set.
pub proof fn lemma_from_accounts_exact(f: FlatStateFilterV, a: Seq<u8>)
    requires
        f.account_ranges.len() == 0,
    ensures
        spec_allowed(f, a) <==> f.accounts.contains(a),
{
}

/// `full` accepts every account: a range unbounded on both sides admits
/// anything.
pub proof fn lemma_full_allows_all(f: FlatStateFilterV, a: Seq<u8>)
    requires
        f.account_ranges.contains((None::<Seq<u8>>, None::<Seq<u8>>)),
    ensures
        spec_allowed(f, a),
{
    let i = choose|i: int|
        0 <= i < f.account_ranges.len() && f.account_ranges[i] == (
        None::<Seq<u8>>,
        None::<Seq<u8>>,
        );
    assert(range_allows(f.account_ranges[i], a));
}

} // verus!
