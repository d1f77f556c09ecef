//! The mutable in-memory projection of on-chain state and the application
//! of state-change deltas to it.

use vstd::prelude::*;
use crate::kvlist::{
    assoc_map, distinct_keys, lemma_assoc_map_dom, lemma_assoc_map_index, lemma_assoc_map_push,
    lemma_assoc_map_remove, lemma_assoc_map_update, lemma_distinct_push, lemma_distinct_remove,
    lemma_distinct_update,
};
use crate::types::{
    AccessKey, AccessKeyV, Account, AccountId, AccountV, PublicKey, PublicKeyV, StateChangeV,
    StateChangeValue,
};

verus! {

broadcast use crate::types::lemma_bytes_deep_view;

/// The projection: accounts, access keys, contract storage and contract
/// code, each keyed by account. Inner maps that would become empty are
/// removed together with their outer entry.
#[derive(Clone, Debug, PartialEq)]
pub struct FlatStateData {
    pub access_keys: Vec<(AccountId, Vec<(PublicKey, AccessKey)>)>,
    pub accounts: Vec<(AccountId, Account)>,
    pub data: Vec<(AccountId, Vec<(Vec<u8>, Vec<u8>)>)>,
    pub contracts_code: Vec<(AccountId, Vec<u8>)>,
}

/// The projection as mathematical maps.
pub struct FlatStateDataV {
    pub access_keys: Map<Seq<u8>, Map<PublicKeyV, AccessKeyV>>,
    pub accounts: Map<Seq<u8>, AccountV>,
    pub data: Map<Seq<u8>, Map<Seq<u8>, Seq<u8>>>,
    pub contracts_code: Map<Seq<u8>, Seq<u8>>,
}

/// Interprets a two-level key-value list as a list of maps.
pub open spec fn inner_maps<K2, V2>(s: Seq<(Seq<u8>, Seq<(K2, V2)>)>) -> Seq<(Seq<u8>, Map<K2, V2>)> {
    s.map_values(|p: (Seq<u8>, Seq<(K2, V2)>)| (p.0, assoc_map(p.1)))
}

impl FlatStateData {
    pub open spec fn access_keys_rep(self) -> Seq<(Seq<u8>, Seq<(PublicKeyV, AccessKeyV)>)> {
        self.access_keys.deep_view()
    }

    pub open spec fn accounts_rep(self) -> Seq<(Seq<u8>, AccountV)> {
        self.accounts.deep_view()
    }

    pub open spec fn data_rep(self) -> Seq<(Seq<u8>, Seq<(Seq<u8>, Seq<u8>)>)> {
        self.data.deep_view()
    }

    pub open spec fn contracts_code_rep(self) -> Seq<(Seq<u8>, Seq<u8>)> {
        self.contracts_code.deep_view()
    }

    /// Keys are pairwise distinct on every level, and no inner list is
    /// empty: deleting the last element of an inner map removes the outer
    /// entry.
    pub open spec fn wf(self) -> bool {
        &&& distinct_keys(self.accounts_rep())
        &&& distinct_keys(self.access_keys_rep())
        &&& distinct_keys(self.data_rep())
        &&& distinct_keys(self.contracts_code_rep())
        &&& forall|i: int|
            0 <= i < self.access_keys_rep().len() ==> distinct_keys(
                #[trigger] self.access_keys_rep()[i].1,
            ) && self.access_keys_rep()[i].1.len() > 0
        &&& forall|i: int|
            0 <= i < self.data_rep().len() ==> distinct_keys(#[trigger] self.data_rep()[i].1)
                && self.data_rep()[i].1.len() > 0
    }
}

impl View for FlatStateData {
    type V = FlatStateDataV;

    open spec fn view(&self) -> FlatStateDataV {
        FlatStateDataV {
            access_keys: assoc_map(inner_maps(self.access_keys_rep())),
            accounts: assoc_map(self.accounts_rep()),
            data: assoc_map(inner_maps(self.data_rep())),
            contracts_code: assoc_map(self.contracts_code_rep()),
        }
    }
}

/// The projection with nothing in it.
pub open spec fn empty_data_v() -> FlatStateDataV {
    FlatStateDataV {
        access_keys: Map::empty(),
        accounts: Map::empty(),
        data: Map::empty(),
        contracts_code: Map::empty(),
    }
}

/// What one state change does to the projection, on the map level.
pub open spec fn spec_apply_change(d: FlatStateDataV, c: StateChangeV) -> FlatStateDataV {
    match c {
        StateChangeV::AccountUpdate { account_id, account } => FlatStateDataV {
            accounts: d.accounts.insert(account_id, account),
            ..d
        },
        StateChangeV::AccountDeletion { account_id } => FlatStateDataV {
            accounts: d.accounts.remove(account_id),
            ..d
        },
        StateChangeV::DataUpdate { account_id, key, value } => {
            let inner = if d.data.contains_key(account_id) {
                d.data[account_id]
            } else {
                Map::empty()
            };
            FlatStateDataV { data: d.data.insert(account_id, inner.insert(key, value)), ..d }
        },
        StateChangeV::DataDeletion { account_id, key } => {
            if d.data.contains_key(account_id) {
                let inner = d.data[account_id].remove(key);
                if inner.dom() =~= Set::<Seq<u8>>::empty() {
                    FlatStateDataV { data: d.data.remove(account_id), ..d }
                } else {
                    FlatStateDataV { data: d.data.insert(account_id, inner), ..d }
                }
            } else {
                d
            }
        },
        StateChangeV::AccessKeyUpdate { account_id, public_key, access_key } => {
            let inner = if d.access_keys.contains_key(account_id) {
                d.access_keys[account_id]
            } else {
                Map::empty()
            };
            FlatStateDataV {
                access_keys: d.access_keys.insert(account_id, inner.insert(public_key, access_key)),
                ..d
            }
        },
        StateChangeV::AccessKeyDeletion { account_id, public_key } => {
            if d.access_keys.contains_key(account_id) {
                let inner = d.access_keys[account_id].remove(public_key);
                if inner.dom() =~= Set::<PublicKeyV>::empty() {
                    FlatStateDataV { access_keys: d.access_keys.remove(account_id), ..d }
                } else {
                    FlatStateDataV { access_keys: d.access_keys.insert(account_id, inner), ..d }
                }
            } else {
                d
            }
        },
        StateChangeV::ContractCodeUpdate { account_id, code } => FlatStateDataV {
            contracts_code: d.contracts_code.insert(account_id, code),
            ..d
        },
        StateChangeV::ContractCodeDeletion { account_id } => FlatStateDataV {
            contracts_code: d.contracts_code.remove(account_id),
            ..d
        },
    }
}

/// A whole sequence of state changes, applied left to right.
pub open spec fn spec_apply_changes(d: FlatStateDataV, cs: Seq<StateChangeV>) -> FlatStateDataV
    decreases cs.len(),
{
    if cs.len() == 0 {
        d
    } else {
        spec_apply_change(spec_apply_changes(d, cs.drop_last()), cs.last())
    }
}

// ---------------------------------------------------------------------------
// Lookup helpers
// ---------------------------------------------------------------------------

fn find_account_entry<V: DeepView>(v: &Vec<(AccountId, V)>, key: &AccountId) -> (r: Option<usize>)
    ensures
        match r {
            Option::Some(i) => i < v@.len() && v.deep_view()[i as int].0 == key@,
            Option::None => forall|j: int| 0 <= j < v@.len() ==> v.deep_view()[j].0 != key@,
        },
{
    let mut i: usize = 0;
    while i < v.len()
        invariant
            i <= v@.len(),
            forall|j: int| 0 <= j < i ==> v.deep_view()[j].0 != key@,
        decreases v@.len() - i,
    {
        if v[i].0.eq_id(key) {
            assert(v.deep_view()[i as int].0 == key@);
            return Some(i);
        }
        assert(v.deep_view()[i as int].0 != key@);
        i += 1;
    }
    None
}

fn find_key_entry(v: &Vec<(PublicKey, AccessKey)>, key: &PublicKey) -> (r: Option<usize>)
    ensures
        match r {
            Option::Some(i) => i < v@.len() && v.deep_view()[i as int].0 == key@,
            Option::None => forall|j: int| 0 <= j < v@.len() ==> v.deep_view()[j].0 != key@,
        },
{
    let mut i: usize = 0;
    while i < v.len()
        invariant
            i <= v@.len(),
            forall|j: int| 0 <= j < i ==> v.deep_view()[j].0 != key@,
        decreases v@.len() - i,
    {
        if v[i].0.eq_key(key) {
            assert(v.deep_view()[i as int].0 == key@);
            return Some(i);
        }
        assert(v.deep_view()[i as int].0 != key@);
        i += 1;
    }
    None
}

fn find_bytes_entry(v: &Vec<(Vec<u8>, Vec<u8>)>, key: &Vec<u8>) -> (r: Option<usize>)
    ensures
        match r {
            Option::Some(i) => i < v@.len() && v.deep_view()[i as int].0 == key@,
            Option::None => forall|j: int| 0 <= j < v@.len() ==> v.deep_view()[j].0 != key@,
        },
{
    let mut i: usize = 0;
    while i < v.len()
        invariant
            i <= v@.len(),
            forall|j: int| 0 <= j < i ==> v.deep_view()[j].0 != key@,
        decreases v@.len() - i,
    {
        proof {
            assert(v.deep_view()[i as int].0 == v@[i as int].0.deep_view());
        }
        if crate::types::eq_bytes(&v[i].0, key) {
            assert(v.deep_view()[i as int].0 == key@);
            return Some(i);
        }
        assert(v.deep_view()[i as int].0 != key@);
        i += 1;
    }
    None
}

// ---------------------------------------------------------------------------
// Delta application
// ---------------------------------------------------------------------------

impl Default for FlatStateData {
    /// The empty projection.
    fn default() -> (r: FlatStateData)
        ensures
            r@ == empty_data_v(),
            r.wf(),
    {
        let r = FlatStateData {
            access_keys: Vec::new(),
            accounts: Vec::new(),
            data: Vec::new(),
            contracts_code: Vec::new(),
        };
        proof {
            assert(r.accounts_rep() =~= Seq::<(Seq<u8>, AccountV)>::empty());
            assert(r.access_keys_rep() =~= Seq::<
                (Seq<u8>, Seq<(PublicKeyV, AccessKeyV)>),
            >::empty());
            assert(r.data_rep() =~= Seq::<(Seq<u8>, Seq<(Seq<u8>, Seq<u8>)>)>::empty());
            assert(r.contracts_code_rep() =~= Seq::<(Seq<u8>, Seq<u8>)>::empty());
            assert(inner_maps(r.access_keys_rep()) =~= Seq::<
                (Seq<u8>, Map<PublicKeyV, AccessKeyV>),
            >::empty());
            assert(inner_maps(r.data_rep()) =~= Seq::<
                (Seq<u8>, Map<Seq<u8>, Seq<u8>>),
            >::empty());
            assert(r@.accounts =~= empty_data_v().accounts);
            assert(r@.access_keys =~= empty_data_v().access_keys);
            assert(r@.data =~= empty_data_v().data);
            assert(r@.contracts_code =~= empty_data_v().contracts_code);
        }
        r
    }
}

impl FlatStateData {
    /// Applies one state-change delta. Total and infallible: every variant
    /// maps to an insert or remove as given by `spec_apply_change`.
    pub fn apply_state_change(&mut self, state_change_value: StateChangeValue)
        requires
            old(self).wf(),
        ensures
            final(self).wf(),
            final(self)@ == spec_apply_change(old(self)@, state_change_value@),
    {
        match state_change_value {
            StateChangeValue::AccountUpdate { account_id, account } => {
                self.apply_account_update(account_id, account);
            },
            StateChangeValue::AccountDeletion { account_id } => {
                self.apply_account_deletion(account_id);
            },
            StateChangeValue::DataUpdate { account_id, key, value } => {
                self.apply_data_update(account_id, key, value);
            },
            StateChangeValue::DataDeletion { account_id, key } => {
                self.apply_data_deletion(account_id, key);
            },
            StateChangeValue::AccessKeyUpdate { account_id, public_key, access_key } => {
                self.apply_access_key_update(account_id, public_key, access_key);
            },
            StateChangeValue::AccessKeyDeletion { account_id, public_key } => {
                self.apply_access_key_deletion(account_id, public_key);
            },
            StateChangeValue::ContractCodeUpdate { account_id, code } => {
                self.apply_contract_code_update(account_id, code);
            },
            StateChangeValue::ContractCodeDeletion { account_id } => {
                self.apply_contract_code_deletion(account_id);
            },
        }
    }
    fn apply_account_update(&mut self, account_id: AccountId, account: Account)
        requires
            old(self).wf(),
        ensures
            final(self).wf(),
            final(self)@ == (FlatStateDataV {
                accounts: old(self)@.accounts.insert(account_id@, account@),
                ..old(self)@
            }),
    {
        let ghost dv0 = self.accounts_rep();
        let ghost aidv = account_id@;
        let ghost av = account@;
        match find_account_entry(&self.accounts, &account_id) {
            Option::Some(i) => {
                let entry = self.accounts.remove(i);
                self.accounts.insert(i, (entry.0, account));
                proof {
                    assert(self.accounts_rep() =~= dv0.update(i as int, (aidv, av)));
                    lemma_assoc_map_update(dv0, i as int, av);
                    lemma_distinct_update(dv0, i as int, av);
                }
            },
            Option::None => {
                self.accounts.push((account_id, account));
                proof {
                    assert(self.accounts_rep() =~= dv0.push((aidv, av)));
                    lemma_assoc_map_push(dv0, aidv, av);
                    lemma_distinct_push(dv0, aidv, av);
                }
            },
        }
    }

    fn apply_account_deletion(&mut self, account_id: AccountId)
        requires
            old(self).wf(),
        ensures
            final(self).wf(),
            final(self)@ == (FlatStateDataV {
                accounts: old(self)@.accounts.remove(account_id@),
                ..old(self)@
            }),
    {
        let ghost dv0 = self.accounts_rep();
        let ghost aidv = account_id@;
        match find_account_entry(&self.accounts, &account_id) {
            Option::Some(i) => {
                self.accounts.remove(i);
                proof {
                    assert(self.accounts_rep() =~= dv0.remove(i as int));
                    lemma_assoc_map_remove(dv0, i as int);
                    lemma_distinct_remove(dv0, i as int);
                }
            },
            Option::None => {
                proof {
                    lemma_assoc_map_dom(dv0, aidv);
                    assert(!assoc_map(dv0).contains_key(aidv));
                    assert(assoc_map(dv0).remove(aidv) =~= assoc_map(dv0));
                }
            },
        }
    }

    fn apply_contract_code_update(&mut self, account_id: AccountId, code: Vec<u8>)
        requires
            old(self).wf(),
        ensures
            final(self).wf(),
            final(self)@ == (FlatStateDataV {
                contracts_code: old(self)@.contracts_code.insert(account_id@, code@),
                ..old(self)@
            }),
    {
        let ghost dv0 = self.contracts_code_rep();
        let ghost aidv = account_id@;
        let ghost codev = code@;
        match find_account_entry(&self.contracts_code, &account_id) {
            Option::Some(i) => {
                let entry = self.contracts_code.remove(i);
                self.contracts_code.insert(i, (entry.0, code));
                proof {
                    assert(self.contracts_code_rep() =~= dv0.update(i as int, (aidv, codev)));
                    lemma_assoc_map_update(dv0, i as int, codev);
                    lemma_distinct_update(dv0, i as int, codev);
                }
            },
            Option::None => {
                self.contracts_code.push((account_id, code));
                proof {
                    assert(self.contracts_code_rep() =~= dv0.push((aidv, codev)));
                    lemma_assoc_map_push(dv0, aidv, codev);
                    lemma_distinct_push(dv0, aidv, codev);
                }
            },
        }
    }

    fn apply_contract_code_deletion(&mut self, account_id: AccountId)
        requires
            old(self).wf(),
        ensures
            final(self).wf(),
            final(self)@ == (FlatStateDataV {
                contracts_code: old(self)@.contracts_code.remove(account_id@),
                ..old(self)@
            }),
    {
        let ghost dv0 = self.contracts_code_rep();
        let ghost aidv = account_id@;
        match find_account_entry(&self.contracts_code, &account_id) {
            Option::Some(i) => {
                self.contracts_code.remove(i);
                proof {
                    assert(self.contracts_code_rep() =~= dv0.remove(i as int));
                    lemma_assoc_map_remove(dv0, i as int);
                    lemma_distinct_remove(dv0, i as int);
                }
            },
            Option::None => {
                proof {
                    lemma_assoc_map_dom(dv0, aidv);
                    assert(assoc_map(dv0).remove(aidv) =~= assoc_map(dv0));
                }
            },
        }
    }

    fn apply_data_update(&mut self, account_id: AccountId, key: Vec<u8>, value: Vec<u8>)
        requires
            old(self).wf(),
        ensures
            final(self).wf(),
            final(self)@ == spec_apply_change(
                old(self)@,
                StateChangeV::DataUpdate { account_id: account_id@, key: key@, value: value@ },
            ),
    {
        let ghost dv0 = self.data_rep();
        let ghost aidv = account_id@;
        let ghost keyv = key@;
        let ghost valuev = value@;
        match find_account_entry(&self.data, &account_id) {
            Option::Some(i) => {
                let ghost inner0 = dv0[i as int].1;
                proof {
                    lemma_assoc_map_index(inner_maps(dv0), i as int);
                    assert(inner_maps(dv0)[i as int] == (aidv, assoc_map(inner0)));
                }
                let pair = self.data.remove(i);
                let k0 = pair.0;
                let mut inner = pair.1;
                match find_bytes_entry(&inner, &key) {
                    Option::Some(j) => {
                        let e = inner.remove(j);
                        inner.insert(j, (e.0, value));
                        proof {
                            assert(inner.deep_view() =~= inner0.update(j as int, (keyv, valuev)));
                            lemma_assoc_map_update(inner0, j as int, valuev);
                            lemma_distinct_update(inner0, j as int, valuev);
                        }
                    },
                    Option::None => {
                        inner.push((key, value));
                        proof {
                            assert(inner.deep_view() =~= inner0.push((keyv, valuev)));
                            lemma_assoc_map_push(inner0, keyv, valuev);
                            lemma_distinct_push(inner0, keyv, valuev);
                        }
                    },
                }
                let ghost innerv = inner.deep_view();
                proof {
                    assert(innerv.len() > 0);
                    assert(assoc_map(innerv) == assoc_map(inner0).insert(keyv, valuev));
                }
                self.data.insert(i, (k0, inner));
                proof {
                    assert(self.data_rep() =~= dv0.update(i as int, (aidv, innerv)));
                    assert(inner_maps(self.data_rep()) =~= inner_maps(dv0).update(
                        i as int,
                        (aidv, assoc_map(innerv)),
                    ));
                    lemma_assoc_map_update(inner_maps(dv0), i as int, assoc_map(innerv));
                    lemma_distinct_update(inner_maps(dv0), i as int, assoc_map(innerv));
                }
            },
            Option::None => {
                let mut inner: Vec<(Vec<u8>, Vec<u8>)> = Vec::new();
                inner.push((key, value));
                let ghost innerv = inner.deep_view();
                proof {
                    assert(innerv =~= Seq::<(Seq<u8>, Seq<u8>)>::empty().push((keyv, valuev)));
                    assert(innerv.drop_last() =~= Seq::<(Seq<u8>, Seq<u8>)>::empty());
                    assert(assoc_map(Seq::<(Seq<u8>, Seq<u8>)>::empty()) == Map::<
                        Seq<u8>,
                        Seq<u8>,
                    >::empty());
                    assert(assoc_map(innerv) =~= Map::<Seq<u8>, Seq<u8>>::empty().insert(
                        keyv,
                        valuev,
                    ));
                }
                self.data.push((account_id, inner));
                proof {
                    assert(self.data_rep() =~= dv0.push((aidv, innerv)));
                    assert(inner_maps(self.data_rep()) =~= inner_maps(dv0).push(
                        (aidv, assoc_map(innerv)),
                    ));
                    lemma_assoc_map_push(inner_maps(dv0), aidv, assoc_map(innerv));
                    lemma_distinct_push(inner_maps(dv0), aidv, assoc_map(innerv));
                    lemma_assoc_map_dom(inner_maps(dv0), aidv);
                    assert(!assoc_map(inner_maps(dv0)).contains_key(aidv));
                }
            },
        }
    }

    fn apply_data_deletion(&mut self, account_id: AccountId, key: Vec<u8>)
        requires
            old(self).wf(),
        ensures
            final(self).wf(),
            final(self)@ == spec_apply_change(
                old(self)@,
                StateChangeV::DataDeletion { account_id: account_id@, key: key@ },
            ),
    {
        let ghost dv0 = self.data_rep();
        let ghost aidv = account_id@;
        let ghost keyv = key@;
        match find_account_entry(&self.data, &account_id) {
            Option::Some(i) => {
                let ghost inner0 = dv0[i as int].1;
                proof {
                    lemma_assoc_map_index(inner_maps(dv0), i as int);
                    assert(inner_maps(dv0)[i as int] == (aidv, assoc_map(inner0)));
                }
                let pair = self.data.remove(i);
                let k0 = pair.0;
                let mut inner = pair.1;
                match find_bytes_entry(&inner, &key) {
                    Option::Some(j) => {
                        inner.remove(j);
                        proof {
                            assert(inner.deep_view() =~= inner0.remove(j as int));
                            lemma_assoc_map_remove(inner0, j as int);
                            lemma_distinct_remove(inner0, j as int);
                        }
                    },
                    Option::None => {
                        proof {
                            lemma_assoc_map_dom(inner0, keyv);
                            assert(assoc_map(inner0).remove(keyv) =~= assoc_map(inner0));
                        }
                    },
                }
                let ghost innerv = inner.deep_view();
                proof {
                    assert(assoc_map(innerv) == assoc_map(inner0).remove(keyv));
                }
                if inner.is_empty() {
                    proof {
                        assert(innerv =~= Seq::<(Seq<u8>, Seq<u8>)>::empty());
                        assert(assoc_map(innerv).dom() =~= Set::<Seq<u8>>::empty());
                        assert(self.data_rep() =~= dv0.remove(i as int));
                        assert(inner_maps(self.data_rep()) =~= inner_maps(dv0).remove(i as int));
                        lemma_assoc_map_remove(inner_maps(dv0), i as int);
                        lemma_distinct_remove(inner_maps(dv0), i as int);
                    }
                } else {
                    proof {
                        crate::kvlist::lemma_assoc_map_nonempty(innerv);
                    }
                    self.data.insert(i, (k0, inner));
                    proof {
                        assert(self.data_rep() =~= dv0.update(i as int, (aidv, innerv)));
                        assert(inner_maps(self.data_rep()) =~= inner_maps(dv0).update(
                            i as int,
                            (aidv, assoc_map(innerv)),
                        ));
                        lemma_assoc_map_update(inner_maps(dv0), i as int, assoc_map(innerv));
                        lemma_distinct_update(inner_maps(dv0), i as int, assoc_map(innerv));
                    }
                }
            },
            Option::None => {
                proof {
                    lemma_assoc_map_dom(inner_maps(dv0), aidv);
                    assert(!assoc_map(inner_maps(dv0)).contains_key(aidv));
                }
            },
        }
    }

    fn apply_access_key_update(
        &mut self,
        account_id: AccountId,
        public_key: PublicKey,
        access_key: AccessKey,
    )
        requires
            old(self).wf(),
        ensures
            final(self).wf(),
            final(self)@ == spec_apply_change(
                old(self)@,
                StateChangeV::AccessKeyUpdate {
                    account_id: account_id@,
                    public_key: public_key@,
                    access_key: access_key@,
                },
            ),
    {
        let ghost dv0 = self.access_keys_rep();
        let ghost aidv = account_id@;
        let ghost pkv = public_key@;
        let ghost akv = access_key@;
        match find_account_entry(&self.access_keys, &account_id) {
            Option::Some(i) => {
                let ghost inner0 = dv0[i as int].1;
                proof {
                    lemma_assoc_map_index(inner_maps(dv0), i as int);
                    assert(inner_maps(dv0)[i as int] == (aidv, assoc_map(inner0)));
                }
                let pair = self.access_keys.remove(i);
                let k0 = pair.0;
                let mut inner = pair.1;
                match find_key_entry(&inner, &public_key) {
                    Option::Some(j) => {
                        let e = inner.remove(j);
                        inner.insert(j, (e.0, access_key));
                        proof {
                            assert(inner.deep_view() =~= inner0.update(j as int, (pkv, akv)));
                            lemma_assoc_map_update(inner0, j as int, akv);
                            lemma_distinct_update(inner0, j as int, akv);
                        }
                    },
                    Option::None => {
                        inner.push((public_key, access_key));
                        proof {
                            assert(inner.deep_view() =~= inner0.push((pkv, akv)));
                            lemma_assoc_map_push(inner0, pkv, akv);
                            lemma_distinct_push(inner0, pkv, akv);
                        }
                    },
                }
                let ghost innerv = inner.deep_view();
                proof {
                    assert(innerv.len() > 0);
                    assert(assoc_map(innerv) == assoc_map(inner0).insert(pkv, akv));
                }
                self.access_keys.insert(i, (k0, inner));
                proof {
                    assert(self.access_keys_rep() =~= dv0.update(i as int, (aidv, innerv)));
                    assert(inner_maps(self.access_keys_rep()) =~= inner_maps(dv0).update(
                        i as int,
                        (aidv, assoc_map(innerv)),
                    ));
                    lemma_assoc_map_update(inner_maps(dv0), i as int, assoc_map(innerv));
                    lemma_distinct_update(inner_maps(dv0), i as int, assoc_map(innerv));
                }
            },
            Option::None => {
                let mut inner: Vec<(PublicKey, AccessKey)> = Vec::new();
                inner.push((public_key, access_key));
                let ghost innerv = inner.deep_view();
                proof {
                    assert(innerv =~= Seq::<(PublicKeyV, AccessKeyV)>::empty().push((pkv, akv)));
                    assert(innerv.drop_last() =~= Seq::<(PublicKeyV, AccessKeyV)>::empty());
                    assert(assoc_map(Seq::<(PublicKeyV, AccessKeyV)>::empty()) == Map::<
                        PublicKeyV,
                        AccessKeyV,
                    >::empty());
                    assert(assoc_map(innerv) =~= Map::<PublicKeyV, AccessKeyV>::empty().insert(
                        pkv,
                        akv,
                    ));
                }
                self.access_keys.push((account_id, inner));
                proof {
                    assert(self.access_keys_rep() =~= dv0.push((aidv, innerv)));
                    assert(inner_maps(self.access_keys_rep()) =~= inner_maps(dv0).push(
                        (aidv, assoc_map(innerv)),
                    ));
                    lemma_assoc_map_push(inner_maps(dv0), aidv, assoc_map(innerv));
                    lemma_distinct_push(inner_maps(dv0), aidv, assoc_map(innerv));
                    lemma_assoc_map_dom(inner_maps(dv0), aidv);
                    assert(!assoc_map(inner_maps(dv0)).contains_key(aidv));
                }
            },
        }
    }

    fn apply_access_key_deletion(&mut self, account_id: AccountId, public_key: PublicKey)
        requires
            old(self).wf(),
        ensures
            final(self).wf(),
            final(self)@ == spec_apply_change(
                old(self)@,
                StateChangeV::AccessKeyDeletion {
                    account_id: account_id@,
                    public_key: public_key@,
                },
            ),
    {
        let ghost dv0 = self.access_keys_rep();
        let ghost aidv = account_id@;
        let ghost pkv = public_key@;
        match find_account_entry(&self.access_keys, &account_id) {
            Option::Some(i) => {
                let ghost inner0 = dv0[i as int].1;
                proof {
                    lemma_assoc_map_index(inner_maps(dv0), i as int);
                    assert(inner_maps(dv0)[i as int] == (aidv, assoc_map(inner0)));
                }
                let pair = self.access_keys.remove(i);
                let k0 = pair.0;
                let mut inner = pair.1;
                match find_key_entry(&inner, &public_key) {
                    Option::Some(j) => {
                        inner.remove(j);
                        proof {
                            assert(inner.deep_view() =~= inner0.remove(j as int));
                            lemma_assoc_map_remove(inner0, j as int);
                            lemma_distinct_remove(inner0, j as int);
                        }
                    },
                    Option::None => {
                        proof {
                            lemma_assoc_map_dom(inner0, pkv);
                            assert(assoc_map(inner0).remove(pkv) =~= assoc_map(inner0));
                        }
                    },
                }
                let ghost innerv = inner.deep_view();
                proof {
                    assert(assoc_map(innerv) == assoc_map(inner0).remove(pkv));
                }
                if inner.is_empty() {
                    proof {
                        assert(innerv =~= Seq::<(PublicKeyV, AccessKeyV)>::empty());
                        assert(assoc_map(innerv).dom() =~= Set::<PublicKeyV>::empty());
                        assert(self.access_keys_rep() =~= dv0.remove(i as int));
                        assert(inner_maps(self.access_keys_rep()) =~= inner_maps(dv0).remove(
                            i as int,
                        ));
                        lemma_assoc_map_remove(inner_maps(dv0), i as int);
                        lemma_distinct_remove(inner_maps(dv0), i as int);
                    }
                } else {
                    proof {
                        crate::kvlist::lemma_assoc_map_nonempty(innerv);
                    }
                    self.access_keys.insert(i, (k0, inner));
                    proof {
                        assert(self.access_keys_rep() =~= dv0.update(i as int, (aidv, innerv)));
                        assert(inner_maps(self.access_keys_rep()) =~= inner_maps(dv0).update(
                            i as int,
                            (aidv, assoc_map(innerv)),
                        ));
                        lemma_assoc_map_update(inner_maps(dv0), i as int, assoc_map(innerv));
                        lemma_distinct_update(inner_maps(dv0), i as int, assoc_map(innerv));
                    }
                }
            },
            Option::None => {
                proof {
                    lemma_assoc_map_dom(inner_maps(dv0), aidv);
                    assert(!assoc_map(inner_maps(dv0)).contains_key(aidv));
                }
            },
        }
    }
}


// ---------------------------------------------------------------------------
// Laws of delta application
// ---------------------------------------------------------------------------

/// Map-level well-formedness: an account appears in `access_keys` or in
/// `data` only while its inner map is non-empty.
pub open spec fn wf_v(d: FlatStateDataV) -> bool {
    &&& forall|a: Seq<u8>|
        #[trigger] d.access_keys.contains_key(a) ==> d.access_keys[a].dom() != Set::<
            PublicKeyV,
        >::empty()
    &&& forall|a: Seq<u8>|
        #[trigger] d.data.contains_key(a) ==> d.data[a].dom() != Set::<Seq<u8>>::empty()
}

/// One state change keeps the projection well formed.
pub proof fn lemma_apply_change_preserves_wf_v(d: FlatStateDataV, c: StateChangeV)
    requires
        wf_v(d),
    ensures
        wf_v(spec_apply_change(d, c)),
{
    let d1 = spec_apply_change(d, c);
    match c {
        StateChangeV::DataUpdate { account_id, key, value } => {
            assert forall|a: Seq<u8>| #[trigger] d1.data.contains_key(a) implies d1.data[a].dom()
                != Set::<Seq<u8>>::empty() by {
                if a == account_id {
                    assert(d1.data[a].dom().contains(key));
                } else {
                    assert(d.data.contains_key(a) && d1.data[a] == d.data[a]);
                }
            }
        },
        StateChangeV::DataDeletion { account_id, key } => {
            assert forall|a: Seq<u8>| #[trigger] d1.data.contains_key(a) implies d1.data[a].dom()
                != Set::<Seq<u8>>::empty() by {
                if a != account_id {
                    assert(d.data.contains_key(a) && d1.data[a] == d.data[a]);
                }
            }
        },
        StateChangeV::AccessKeyUpdate { account_id, public_key, access_key } => {
            assert forall|a: Seq<u8>| #[trigger] d1.access_keys.contains_key(a)
                implies d1.access_keys[a].dom() != Set::<PublicKeyV>::empty() by {
                if a == account_id {
                    assert(d1.access_keys[a].dom().contains(public_key));
                } else {
                    assert(d.access_keys.contains_key(a) && d1.access_keys[a] == d.access_keys[a]);
                }
            }
        },
        StateChangeV::AccessKeyDeletion { account_id, public_key } => {
            assert forall|a: Seq<u8>| #[trigger] d1.access_keys.contains_key(a)
                implies d1.access_keys[a].dom() != Set::<PublicKeyV>::empty() by {
                if a != account_id {
                    assert(d.access_keys.contains_key(a) && d1.access_keys[a] == d.access_keys[a]);
                }
            }
        },
        _ => {},
    }
}

/// Any sequence of state changes applied to the empty projection leaves a
/// well-formed projection: an entry of `access_keys` or `data` is present
/// exactly while it is non-empty.
pub proof fn lemma_changes_from_empty_wf(cs: Seq<StateChangeV>)
    ensures
        wf_v(spec_apply_changes(empty_data_v(), cs)),
    decreases cs.len(),
{
    if cs.len() > 0 {
        lemma_changes_from_empty_wf(cs.drop_last());
        lemma_apply_change_preserves_wf_v(
            spec_apply_changes(empty_data_v(), cs.drop_last()),
            cs.last(),
        );
    }
}

/// Deleting an account twice is the same as deleting it once.
pub proof fn lemma_account_deletion_idempotent(d: FlatStateDataV, a: Seq<u8>)
    ensures
        spec_apply_change(
            spec_apply_change(d, StateChangeV::AccountDeletion { account_id: a }),
            StateChangeV::AccountDeletion { account_id: a },
        ) == spec_apply_change(d, StateChangeV::AccountDeletion { account_id: a }),
{
    assert(d.accounts.remove(a).remove(a) =~= d.accounts.remove(a));
}

/// Of two access-key updates for the same account and key, the later one
/// wins.
pub proof fn lemma_access_key_update_last_wins(
    d: FlatStateDataV,
    a: Seq<u8>,
    k: PublicKeyV,
    v1: AccessKeyV,
    v2: AccessKeyV,
)
    ensures
        ({
            let d2 = spec_apply_change(
                spec_apply_change(
                    d,
                    StateChangeV::AccessKeyUpdate {
                        account_id: a,
                        public_key: k,
                        access_key: v1,
                    },
                ),
                StateChangeV::AccessKeyUpdate { account_id: a, public_key: k, access_key: v2 },
            );
            &&& d2.access_keys.contains_key(a)
            &&& d2.access_keys[a].contains_key(k)
            &&& d2.access_keys[a][k] == v2
        }),
{
}

} // verus!

