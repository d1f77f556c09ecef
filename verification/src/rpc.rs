//! Building a state snapshot from JSON-RPC query results.
//!
//! The application pins a block, issues the four queries per filtered
//! account, and reports each outcome here as plain values; this module
//! holds every decision: which filters are usable, which outcomes are
//! fatal, what state changes the answers amount to, and the assembly of
//! the resulting `FlatState`.

use vstd::prelude::*;
use vstd::string::StringExecFns;
use crate::data::{empty_data_v, spec_apply_changes, FlatStateData};
use crate::state::{FlatState, FlatStateConfig, FlatStateError};
use crate::types::{
    AccessKey, AccessKeyV, Account, AccountId, AccountV, BlockHeaderInnerLite, CryptoHash,
    PublicKey, PublicKeyV, StateChangeV, StateChangeValue,
};

verus! {

/// What the account-view query said.
#[derive(Debug, Clone, PartialEq)]
pub enum ViewAccountOutcome {
    Known(Account),
    UnknownAccount,
    Failed(String),
}

/// What the access-key-list query said.
#[derive(Debug, Clone, PartialEq)]
pub enum AccessKeyListOutcome {
    Keys(Vec<(PublicKey, AccessKey)>),
    Failed(String),
}

/// What the contract-code query said.
#[derive(Debug, Clone, PartialEq)]
pub enum ViewCodeOutcome {
    Code(Vec<u8>),
    NoContractCode,
    Failed(String),
}

/// What the contract-state query said; an unknown account here is a
/// transient read-view inconsistency and counts as no data.
#[derive(Debug, Clone, PartialEq)]
pub enum ViewStateOutcome {
    Items(Vec<(Vec<u8>, Vec<u8>)>),
    UnknownAccount,
    Failed(String),
}

/// Everything fetched for one account. When the account view reports an
/// unknown account the remaining queries are skipped.
#[derive(Debug, Clone, PartialEq)]
pub enum AccountFetch {
    Unknown,
    Failed(String),
    Known {
        account: Account,
        access_keys: AccessKeyListOutcome,
        code: ViewCodeOutcome,
        state: ViewStateOutcome,
    },
}

pub enum AccessKeyListOutcomeV {
    Keys(Seq<(PublicKeyV, AccessKeyV)>),
    Failed(Seq<char>),
}

pub enum ViewCodeOutcomeV {
    Code(Seq<u8>),
    NoContractCode,
    Failed(Seq<char>),
}

pub enum ViewStateOutcomeV {
    Items(Seq<(Seq<u8>, Seq<u8>)>),
    UnknownAccount,
    Failed(Seq<char>),
}

pub enum AccountFetchV {
    Unknown,
    Failed(Seq<char>),
    Known {
        account: AccountV,
        access_keys: AccessKeyListOutcomeV,
        code: ViewCodeOutcomeV,
        state: ViewStateOutcomeV,
    },
}

impl View for AccessKeyListOutcome {
    type V = AccessKeyListOutcomeV;

    open spec fn view(&self) -> AccessKeyListOutcomeV {
        match self {
            AccessKeyListOutcome::Keys(ks) => AccessKeyListOutcomeV::Keys(ks.deep_view()),
            AccessKeyListOutcome::Failed(m) => AccessKeyListOutcomeV::Failed(m@),
        }
    }
}

impl View for ViewCodeOutcome {
    type V = ViewCodeOutcomeV;

    open spec fn view(&self) -> ViewCodeOutcomeV {
        match self {
            ViewCodeOutcome::Code(c) => ViewCodeOutcomeV::Code(c@),
            ViewCodeOutcome::NoContractCode => ViewCodeOutcomeV::NoContractCode,
            ViewCodeOutcome::Failed(m) => ViewCodeOutcomeV::Failed(m@),
        }
    }
}

impl View for ViewStateOutcome {
    type V = ViewStateOutcomeV;

    open spec fn view(&self) -> ViewStateOutcomeV {
        match self {
            ViewStateOutcome::Items(items) => ViewStateOutcomeV::Items(items.deep_view()),
            ViewStateOutcome::UnknownAccount => ViewStateOutcomeV::UnknownAccount,
            ViewStateOutcome::Failed(m) => ViewStateOutcomeV::Failed(m@),
        }
    }
}

impl View for AccountFetch {
    type V = AccountFetchV;

    open spec fn view(&self) -> AccountFetchV {
        match self {
            AccountFetch::Unknown => AccountFetchV::Unknown,
            AccountFetch::Failed(m) => AccountFetchV::Failed(m@),
            AccountFetch::Known { account, access_keys, code, state } => AccountFetchV::Known {
                account: account@,
                access_keys: access_keys@,
                code: code@,
                state: state@,
            },
        }
    }
}

impl DeepView for AccountFetch {
    type V = AccountFetchV;

    open spec fn deep_view(&self) -> AccountFetchV {
        self.view()
    }
}

// ---------------------------------------------------------------------------
// What the answers amount to
// ---------------------------------------------------------------------------

/// One access-key update per returned key, in order.
pub open spec fn spec_key_changes(aid: Seq<u8>, ks: Seq<(PublicKeyV, AccessKeyV)>) -> Seq<
    StateChangeV,
>
    decreases ks.len(),
{
    if ks.len() == 0 {
        Seq::empty()
    } else {
        spec_key_changes(aid, ks.drop_last()).push(
            StateChangeV::AccessKeyUpdate {
                account_id: aid,
                public_key: ks.last().0,
                access_key: ks.last().1,
            },
        )
    }
}

/// One data update per returned state item, in order.
pub open spec fn spec_item_changes(aid: Seq<u8>, items: Seq<(Seq<u8>, Seq<u8>)>) -> Seq<
    StateChangeV,
>
    decreases items.len(),
{
    if items.len() == 0 {
        Seq::empty()
    } else {
        spec_item_changes(aid, items.drop_last()).push(
            StateChangeV::DataUpdate {
                account_id: aid,
                key: items.last().0,
                value: items.last().1,
            },
        )
    }
}

/// The state changes one account's answers amount to, or the message of
/// the first fatal answer.
pub open spec fn spec_account_changes(aid: Seq<u8>, f: AccountFetchV) -> Result<
    Seq<StateChangeV>,
    Seq<char>,
> {
    match f {
        AccountFetchV::Failed(m) => Err(m),
        AccountFetchV::Unknown => Ok(Seq::empty()),
        AccountFetchV::Known { account, access_keys, code, state } => {
            match access_keys {
                AccessKeyListOutcomeV::Failed(m) => Err(m),
                AccessKeyListOutcomeV::Keys(ks) => {
                    match code {
                        ViewCodeOutcomeV::Failed(m) => Err(m),
                        _ => {
                            match state {
                                ViewStateOutcomeV::Failed(m) => Err(m),
                                _ => {
                                    let code_changes = (match code {
                                        ViewCodeOutcomeV::Code(c) => seq![
                                            StateChangeV::ContractCodeUpdate {
                                                account_id: aid,
                                                code: c,
                                            },
                                        ],
                                        _ => Seq::empty(),
                                    });
                                    let item_changes = (match state {
                                        ViewStateOutcomeV::Items(items) => spec_item_changes(
                                            aid,
                                            items,
                                        ),
                                        _ => Seq::empty(),
                                    });
                                    Ok(
                                        seq![
                                            StateChangeV::AccountUpdate {
                                                account_id: aid,
                                                account,
                                            },
                                        ] + spec_key_changes(aid, ks) + code_changes
                                            + item_changes,
                                    )
                                },
                            }
                        },
                    }
                },
            }
        },
    }
}

/// The state changes of a whole snapshot run, account by account; the
/// first fatal answer wins.
pub open spec fn spec_rpc_changes(xs: Seq<(Seq<u8>, AccountFetchV)>) -> Result<
    Seq<StateChangeV>,
    Seq<char>,
>
    decreases xs.len(),
{
    if xs.len() == 0 {
        Ok(Seq::empty())
    } else {
        match spec_rpc_changes(xs.drop_last()) {
            Err(m) => Err(m),
            Ok(cs) => match spec_account_changes(xs.last().0, xs.last().1) {
                Err(m) => Err(m),
                Ok(c) => Ok(cs + c),
            },
        }
    }
}

// ---------------------------------------------------------------------------
// Exec: translating one account
// ---------------------------------------------------------------------------

/// Turns one account's answers into state changes, or the first fatal
/// answer into an `RpcError`.
#[verifier::loop_isolation(false)]
pub fn account_state_changes(account_id: &AccountId, fetch: &AccountFetch) -> (r: Result<
    Vec<StateChangeValue>,
    FlatStateError,
>)
    ensures
        match r {
            Ok(cs) => spec_account_changes(account_id@, fetch@) == Ok::<
                Seq<StateChangeV>,
                Seq<char>,
            >(cs.deep_view()),
            Err(e) => {
                &&& e matches FlatStateError::RpcError(m)
                &&& spec_account_changes(account_id@, fetch@) == Err::<
                    Seq<StateChangeV>,
                    Seq<char>,
                >(m@)
            },
        },
{
    match fetch {
        AccountFetch::Failed(m) => Err(FlatStateError::RpcError(m.clone())),
        AccountFetch::Unknown => {
            let cs: Vec<StateChangeValue> = Vec::new();
            proof {
                assert(cs.deep_view() =~= Seq::<StateChangeV>::empty());
            }
            Ok(cs)
        },
        AccountFetch::Known { account, access_keys, code, state } => {
            let keys = match access_keys {
                AccessKeyListOutcome::Failed(m) => {
                    return Err(FlatStateError::RpcError(m.clone()));
                },
                AccessKeyListOutcome::Keys(ks) => ks,
            };
            match code {
                ViewCodeOutcome::Failed(m) => {
                    return Err(FlatStateError::RpcError(m.clone()));
                },
                _ => {},
            }
            match state {
                ViewStateOutcome::Failed(m) => {
                    return Err(FlatStateError::RpcError(m.clone()));
                },
                _ => {},
            }
            let mut cs: Vec<StateChangeValue> = Vec::new();
            cs.push(
                StateChangeValue::AccountUpdate {
                    account_id: account_id.duplicate(),
                    account: *account,
                },
            );
            proof {
                assert(cs.deep_view() =~= seq![
                    StateChangeV::AccountUpdate { account_id: account_id@, account: account@ },
                ]);
            }
            let ghost base = cs.deep_view();
            let ghost ksv = keys.deep_view();
            let mut i: usize = 0;
            proof {
                assert(ksv.take(0) =~= Seq::<(PublicKeyV, AccessKeyV)>::empty());
                assert(cs.deep_view() =~= base + spec_key_changes(account_id@, ksv.take(0)));
            }
            while i < keys.len()
                invariant
                    i <= ksv.len(),
                    ksv.len() == keys@.len(),
                    ksv == keys.deep_view(),
                    cs.deep_view() == base + spec_key_changes(account_id@, ksv.take(i as int)),
                decreases ksv.len() - i,
            {
                let ghost cs0 = cs.deep_view();
                cs.push(
                    StateChangeValue::AccessKeyUpdate {
                        account_id: account_id.duplicate(),
                        public_key: keys[i].0.duplicate(),
                        access_key: keys[i].1.duplicate(),
                    },
                );
                proof {
                    assert(ksv.take(i + 1).drop_last() =~= ksv.take(i as int));
                    assert(ksv.take(i + 1).last() == ksv[i as int]);
                    assert(cs.deep_view() =~= cs0.push(
                        StateChangeV::AccessKeyUpdate {
                            account_id: account_id@,
                            public_key: ksv[i as int].0,
                            access_key: ksv[i as int].1,
                        },
                    ));
                    assert(cs.deep_view() =~= base + spec_key_changes(
                        account_id@,
                        ksv.take(i + 1),
                    ));
                }
                i += 1;
            }
            proof {
                assert(ksv.take(ksv.len() as int) =~= ksv);
            }
            let ghost with_keys = cs.deep_view();
            match code {
                ViewCodeOutcome::Code(c) => {
                    let ghost cs0 = cs.deep_view();
                    cs.push(
                        StateChangeValue::ContractCodeUpdate {
                            account_id: account_id.duplicate(),
                            code: crate::copy_bytes(c),
                        },
                    );
                    proof {
                        assert(cs.deep_view() =~= cs0.push(
                            StateChangeV::ContractCodeUpdate {
                                account_id: account_id@,
                                code: c@,
                            },
                        ));
                    }
                },
                _ => {},
            }
            let ghost with_code = cs.deep_view();
            match state {
                ViewStateOutcome::Items(items) => {
                    let ghost itv = items.deep_view();
                    let mut j: usize = 0;
                    proof {
                        assert(itv.take(0) =~= Seq::<(Seq<u8>, Seq<u8>)>::empty());
                        assert(cs.deep_view() =~= with_code + spec_item_changes(
                            account_id@,
                            itv.take(0),
                        ));
                    }
                    while j < items.len()
                        invariant
                            j <= itv.len(),
                            itv.len() == items@.len(),
                            itv == items.deep_view(),
                            cs.deep_view() == with_code + spec_item_changes(
                                account_id@,
                                itv.take(j as int),
                            ),
                        decreases itv.len() - j,
                    {
                        let ghost cs0 = cs.deep_view();
                        proof {
                            assert(items@[j as int].0.deep_view() =~= items@[j as int].0@);
                            assert(items@[j as int].1.deep_view() =~= items@[j as int].1@);
                        }
                        cs.push(
                            StateChangeValue::DataUpdate {
                                account_id: account_id.duplicate(),
                                key: crate::copy_bytes(&items[j].0),
                                value: crate::copy_bytes(&items[j].1),
                            },
                        );
                        proof {
                            assert(itv.take(j + 1).drop_last() =~= itv.take(j as int));
                            assert(itv.take(j + 1).last() == itv[j as int]);
                            assert(cs.deep_view() =~= cs0.push(
                                StateChangeV::DataUpdate {
                                    account_id: account_id@,
                                    key: itv[j as int].0,
                                    value: itv[j as int].1,
                                },
                            ));
                            assert(cs.deep_view() =~= with_code + spec_item_changes(
                                account_id@,
                                itv.take(j + 1),
                            ));
                        }
                        j += 1;
                    }
                    proof {
                        assert(itv.take(itv.len() as int) =~= itv);
                    }
                },
                _ => {},
            }
            proof {
                assert(cs.deep_view() =~= (match spec_account_changes(account_id@, fetch@) {
                    Ok(v) => v,
                    Err(_) => Seq::<StateChangeV>::empty(),
                }));
            }
            Ok(cs)
        },
    }
}

// ---------------------------------------------------------------------------
// Exec: the whole snapshot
// ---------------------------------------------------------------------------

/// A fatal answer in a prefix is fatal for the whole run.
proof fn lemma_rpc_changes_prefix_err(xs: Seq<(Seq<u8>, AccountFetchV)>, i: int)
    requires
        0 <= i <= xs.len(),
        spec_rpc_changes(xs.take(i)) is Err,
    ensures
        spec_rpc_changes(xs) == spec_rpc_changes(xs.take(i)),
    decreases xs.len(),
{
    if i < xs.len() {
        assert(xs.drop_last().take(i) =~= xs.take(i));
        lemma_rpc_changes_prefix_err(xs.drop_last(), i);
    } else {
        assert(xs.take(i) =~= xs);
    }
}

impl FlatState {
    /// Builds a snapshot of the filtered accounts from the answers of the
    /// four queries per account, all pinned to one block. The filter must
    /// name at least one account and carry no ranges; the first fatal
    /// answer aborts the build. The caller queries exactly the accounts
    /// of `config.filter.accounts`, in order.
    #[verifier::loop_isolation(false)]
    pub fn fetch_from_rpc(
        config: FlatStateConfig,
        block_hash: CryptoHash,
        block_header: BlockHeaderInnerLite,
        accounts: Vec<(AccountId, AccountFetch)>,
    ) -> (r: Result<FlatState, FlatStateError>)
        ensures
            config.filter.account_ranges@.len() != 0 ==> (r matches Err(
                FlatStateError::FilterError(m),
            ) && m@ == "Account ranges are not supported with RPC initialization"@),
            config.filter.account_ranges@.len() == 0 && config.filter.accounts@.len() == 0 ==> (
            r matches Err(FlatStateError::FilterError(m)) && m@
                == "The filter should contain at least one account ID with RPC initialization"@),
            config.filter.account_ranges@.len() == 0 && config.filter.accounts@.len() != 0 ==> (
            match spec_rpc_changes(accounts.deep_view()) {
                Err(m) => r matches Err(FlatStateError::RpcError(em)) && em@ == m,
                Ok(cs) => r matches Ok(st) && st.config == config && st.block_hash == block_hash
                    && st.block_header == block_header && st@.data == spec_apply_changes(
                    empty_data_v(),
                    cs,
                ) && st.wf(),
            }),
    {
        if config.filter.account_ranges.len() > 0 {
            return Err(
                FlatStateError::FilterError(
                    String::from_str("Account ranges are not supported with RPC initialization"),
                ),
            );
        }
        if config.filter.accounts.len() == 0 {
            return Err(
                FlatStateError::FilterError(
                    String::from_str(
                        "The filter should contain at least one account ID with RPC initialization",
                    ),
                ),
            );
        }
        let ghost xs = accounts.deep_view();
        let mut collected: Vec<StateChangeValue> = Vec::new();
        let mut i: usize = 0;
        proof {
            assert(xs.take(0) =~= Seq::<(Seq<u8>, AccountFetchV)>::empty());
            assert(collected.deep_view() =~= Seq::<StateChangeV>::empty());
        }
        while i < accounts.len()
            invariant
                i <= xs.len(),
                xs.len() == accounts@.len(),
                xs == accounts.deep_view(),
                spec_rpc_changes(xs.take(i as int)) == Ok::<Seq<StateChangeV>, Seq<char>>(
                    collected.deep_view(),
                ),
            decreases xs.len() - i,
        {
            let entry = &accounts[i];
            let ghost pre = collected.deep_view();
            proof {
                assert(xs[i as int] == (entry.0@, entry.1@));
                assert(xs.take(i + 1).drop_last() =~= xs.take(i as int));
                assert(xs.take(i + 1).last() == xs[i as int]);
            }
            match account_state_changes(&entry.0, &entry.1) {
                Err(e) => {
                    proof {
                        assert(spec_rpc_changes(xs.take(i + 1)) is Err);
                        lemma_rpc_changes_prefix_err(xs, i + 1);
                    }
                    return Err(e);
                },
                Ok(mut cs) => {
                    let ghost csv = cs.deep_view();
                    let mut k: usize = 0;
                    proof {
                        assert(csv.take(0) =~= Seq::<StateChangeV>::empty());
                        assert(collected.deep_view() =~= pre + csv.take(0));
                    }
                    while k < cs.len()
                        invariant
                            k <= csv.len(),
                            csv.len() == cs@.len(),
                            csv == cs.deep_view(),
                            collected.deep_view() == pre + csv.take(k as int),
                        decreases csv.len() - k,
                    {
                        let ghost col0 = collected.deep_view();
                        let c = cs[k].duplicate();
                        collected.push(c);
                        proof {
                            assert(collected.deep_view() =~= col0.push(csv[k as int]));
                            assert(pre + csv.take(k + 1) =~= col0.push(csv[k as int]));
                        }
                        k += 1;
                    }
                    proof {
                        assert(csv.take(csv.len() as int) =~= csv);
                        assert(collected.deep_view() =~= pre + csv);
                    }
                },
            }
            i += 1;
        }
        proof {
            assert(xs.take(xs.len() as int) =~= xs);
        }
        let mut data = FlatStateData::default();
        let ghost all = collected.deep_view();
        let mut j: usize = 0;
        proof {
            assert(all.take(0) =~= Seq::<StateChangeV>::empty());
        }
        while j < collected.len()
            invariant
                j <= all.len(),
                all.len() == collected@.len(),
                all == collected.deep_view(),
                data.wf(),
                data@ == spec_apply_changes(empty_data_v(), all.take(j as int)),
            decreases all.len() - j,
        {
            proof {
                assert(all.take(j + 1).drop_last() =~= all.take(j as int));
                assert(all.take(j + 1).last() == all[j as int]);
            }
            data.apply_state_change(collected[j].duplicate());
            j += 1;
        }
        proof {
            assert(all.take(all.len() as int) =~= all);
        }
        Ok(FlatState { config, block_header, block_hash, data })
    }
}

} // verus!
