use neardata::data::FlatStateData;
use neardata::filter::FlatStateFilter;
use neardata::state::{FlatState, FlatStateConfig, FlatStateError};
use neardata::types::{
    state_change_account_id, AccessKey, AccessKeyPermission, Account, AccountId,
    BlockHeaderInnerLite, BlockHeaderView, BlockWithTxHashes, ChainId, CryptoHash, PublicKey,
    Shard, StateChangeValue,
};

fn account_id(name: &str) -> AccountId {
    AccountId::new(name.as_bytes().to_vec())
}

fn some_account(amount: u128) -> Account {
    Account { amount, locked: 0, code_hash: CryptoHash([0; 32]), storage_usage: 100 }
}

fn full_access_key(nonce: u64) -> AccessKey {
    AccessKey { nonce, permission: AccessKeyPermission::FullAccess }
}

fn ed_key(byte: u8) -> PublicKey {
    PublicKey::ED25519(vec![byte; 32])
}

#[test]
fn filter_from_accounts_accepts_exactly_the_given_accounts() {
    let filter = FlatStateFilter::from_accounts(&[account_id("alice.near"), account_id("bob")]);
    assert!(filter.is_account_allowed(&account_id("alice.near")));
    assert!(filter.is_account_allowed(&account_id("bob")));
    assert!(!filter.is_account_allowed(&account_id("carol")));
    assert!(!filter.is_account_allowed(&account_id("alice.nea")));
}

#[test]
fn filter_full_accepts_every_account() {
    let filter = FlatStateFilter::full();
    assert!(filter.is_account_allowed(&account_id("anyone")));
    assert!(filter.is_account_allowed(&account_id("")));
    assert!(filter.is_account_allowed(&account_id("zzzzzz")));
}

#[test]
fn filter_empty_accepts_no_account() {
    let filter = FlatStateFilter::empty();
    assert!(!filter.is_account_allowed(&account_id("anyone")));
    assert!(!filter.is_account_allowed(&account_id("")));
}

#[test]
fn filter_range_is_inclusive_on_both_sides() {
    let filter = FlatStateFilter {
        accounts: Vec::new(),
        account_ranges: vec![(Some(account_id("b")), Some(account_id("d")))],
    };
    assert!(!filter.is_account_allowed(&account_id("a")));
    assert!(filter.is_account_allowed(&account_id("b")));
    assert!(filter.is_account_allowed(&account_id("c")));
    assert!(filter.is_account_allowed(&account_id("cz")));
    assert!(filter.is_account_allowed(&account_id("d")));
    assert!(!filter.is_account_allowed(&account_id("da")));
}

#[test]
fn filter_range_unbounded_sides() {
    let low = FlatStateFilter {
        accounts: Vec::new(),
        account_ranges: vec![(None, Some(account_id("m")))],
    };
    assert!(low.is_account_allowed(&account_id("")));
    assert!(low.is_account_allowed(&account_id("m")));
    assert!(!low.is_account_allowed(&account_id("n")));
    let high = FlatStateFilter {
        accounts: Vec::new(),
        account_ranges: vec![(Some(account_id("m")), None)],
    };
    assert!(!high.is_account_allowed(&account_id("a")));
    assert!(high.is_account_allowed(&account_id("m")));
    assert!(high.is_account_allowed(&account_id("zzz")));
}

#[test]
fn delta_application_scenario() {
    // Start from empty, apply an account update, an access-key update and
    // the deletion of that same key: the account stays, the emptied
    // access-key entry disappears.
    let mut data = FlatStateData::default();
    let a1 = account_id("a1");
    let account = some_account(10);
    data.apply_state_change(StateChangeValue::AccountUpdate {
        account_id: a1.clone(),
        account,
    });
    data.apply_state_change(StateChangeValue::AccessKeyUpdate {
        account_id: a1.clone(),
        public_key: ed_key(1),
        access_key: full_access_key(7),
    });
    data.apply_state_change(StateChangeValue::AccessKeyDeletion {
        account_id: a1.clone(),
        public_key: ed_key(1),
    });
    assert_eq!(data.accounts.len(), 1);
    assert_eq!(data.accounts[0].0, a1);
    assert_eq!(data.accounts[0].1, account);
    assert!(data.access_keys.is_empty());
}

#[test]
fn account_deletion_twice_is_a_no_op_after_the_first() {
    let a = account_id("gone");
    let mut once = FlatStateData::default();
    once.apply_state_change(StateChangeValue::AccountUpdate {
        account_id: a.clone(),
        account: some_account(5),
    });
    once.apply_state_change(StateChangeValue::AccountDeletion { account_id: a.clone() });
    let mut twice = once.clone();
    twice.apply_state_change(StateChangeValue::AccountDeletion { account_id: a.clone() });
    assert_eq!(once, twice);
}

#[test]
fn later_access_key_update_wins() {
    let a = account_id("a");
    let k = ed_key(9);
    let mut data = FlatStateData::default();
    data.apply_state_change(StateChangeValue::AccessKeyUpdate {
        account_id: a.clone(),
        public_key: k.clone(),
        access_key: full_access_key(1),
    });
    data.apply_state_change(StateChangeValue::AccessKeyUpdate {
        account_id: a.clone(),
        public_key: k.clone(),
        access_key: full_access_key(2),
    });
    assert_eq!(data.access_keys.len(), 1);
    assert_eq!(data.access_keys[0].0, a);
    assert_eq!(data.access_keys[0].1.len(), 1);
    assert_eq!(data.access_keys[0].1[0].0, k);
    assert_eq!(data.access_keys[0].1[0].1, full_access_key(2));
}

#[test]
fn data_deletion_removes_emptied_entry() {
    let a = account_id("store");
    let mut data = FlatStateData::default();
    data.apply_state_change(StateChangeValue::DataUpdate {
        account_id: a.clone(),
        key: b"k".to_vec(),
        value: b"v".to_vec(),
    });
    assert_eq!(data.data.len(), 1);
    data.apply_state_change(StateChangeValue::DataDeletion {
        account_id: a.clone(),
        key: b"k".to_vec(),
    });
    assert!(data.data.is_empty());
}

#[test]
fn contract_code_update_and_deletion() {
    let a = account_id("c");
    let mut data = FlatStateData::default();
    data.apply_state_change(StateChangeValue::ContractCodeUpdate {
        account_id: a.clone(),
        code: vec![1, 2, 3],
    });
    assert_eq!(data.contracts_code.len(), 1);
    assert_eq!(data.contracts_code[0].1, vec![1, 2, 3]);
    data.apply_state_change(StateChangeValue::ContractCodeDeletion { account_id: a.clone() });
    assert!(data.contracts_code.is_empty());
}

#[test]
fn state_change_account_id_names_the_owner() {
    let c = StateChangeValue::DataDeletion { account_id: account_id("owner"), key: vec![1] };
    assert_eq!(state_change_account_id(&c), &account_id("owner"));
}

fn state_at(hash: CryptoHash) -> FlatState {
    FlatState {
        config: FlatStateConfig { chain_id: ChainId::Mainnet, filter: FlatStateFilter::full() },
        block_header: BlockHeaderInnerLite { height: 0, timestamp_nanosec: 0 },
        block_hash: hash,
        data: FlatStateData::default(),
    }
}

fn block(prev: CryptoHash, hash: CryptoHash, height: u64, changes: Vec<StateChangeValue>) -> BlockWithTxHashes {
    BlockWithTxHashes {
        header: BlockHeaderView { height, hash, prev_hash: prev, timestamp_nanosec: height },
        shards: vec![Shard { state_changes: changes }],
    }
}

#[test]
fn apply_block_advances_along_the_hash_chain() {
    let h0 = CryptoHash([0; 32]);
    let h1 = CryptoHash([1; 32]);
    let h2 = CryptoHash([2; 32]);
    let mut state = state_at(h0);
    let r = state.apply_block(block(h0, h1, 7, vec![StateChangeValue::AccountUpdate {
        account_id: account_id("x"),
        account: some_account(1),
    }]));
    assert_eq!(r, Ok(()));
    assert_eq!(state.block_hash, h1);
    assert_eq!(state.block_header.height, 7);
    assert_eq!(state.data.accounts.len(), 1);

    // A fork off the consumed parent is rejected and changes nothing.
    let before = state.data.clone();
    let r2 = state.apply_block(block(h0, h2, 8, vec![StateChangeValue::AccountDeletion {
        account_id: account_id("x"),
    }]));
    assert_eq!(r2, Err(FlatStateError::BlockHashMismatch));
    assert_eq!(state.block_hash, h1);
    assert_eq!(state.data, before);
}

#[test]
fn apply_block_filters_disallowed_accounts() {
    let h0 = CryptoHash([0; 32]);
    let h1 = CryptoHash([3; 32]);
    let mut state = state_at(h0);
    state.config.filter = FlatStateFilter::from_accounts(&[account_id("kept")]);
    let r = state.apply_block(block(h0, h1, 1, vec![
        StateChangeValue::AccountUpdate { account_id: account_id("kept"), account: some_account(1) },
        StateChangeValue::AccountUpdate { account_id: account_id("dropped"), account: some_account(2) },
    ]));
    assert_eq!(r, Ok(()));
    assert_eq!(state.data.accounts.len(), 1);
    assert_eq!(state.data.accounts[0].0, account_id("kept"));
}

#[test]
fn chain_id_parses_its_lowercase_names_only() {
    assert_eq!(ChainId::try_from("mainnet".to_string()), Ok(ChainId::Mainnet));
    assert_eq!(ChainId::try_from("testnet".to_string()), Ok(ChainId::Testnet));
    assert!(ChainId::try_from("Mainnet".to_string()).is_err());
    assert!(ChainId::try_from("betanet".to_string()).is_err());
    assert_eq!(ChainId::Mainnet.as_str(), "mainnet");
    assert_eq!(ChainId::Testnet.as_str(), "testnet");
}
