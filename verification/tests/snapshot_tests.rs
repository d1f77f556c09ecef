use neardata::data::FlatStateData;
use neardata::filter::FlatStateFilter;
use neardata::state::{FlatState, FlatStateConfig, FlatStateError};
use neardata::types::{
    AccessKey, AccessKeyPermission, Account, AccountId, BlockHeaderInnerLite, ChainId,
    CryptoHash, PublicKey, StateChangeValue,
};

fn account_id(name: &str) -> AccountId {
    AccountId::new(name.as_bytes().to_vec())
}

fn sample_state() -> FlatState {
    let mut data = FlatStateData::default();
    data.apply_state_change(StateChangeValue::AccountUpdate {
        account_id: account_id("holder.near"),
        account: Account {
            amount: 12345678901234567890,
            locked: 42,
            code_hash: CryptoHash([7; 32]),
            storage_usage: 1000,
        },
    });
    data.apply_state_change(StateChangeValue::DataUpdate {
        account_id: account_id("holder.near"),
        key: b"the-key".to_vec(),
        value: b"the-value".to_vec(),
    });
    data.apply_state_change(StateChangeValue::AccessKeyUpdate {
        account_id: account_id("holder.near"),
        public_key: PublicKey::ED25519(vec![9; 32]),
        access_key: AccessKey {
            nonce: 3,
            permission: AccessKeyPermission::FunctionCall {
                allowance: Some(777),
                receiver_id: b"sink.near".to_vec(),
                method_names: vec![b"get".to_vec(), b"set".to_vec()],
            },
        },
    });
    FlatState {
        config: FlatStateConfig {
            chain_id: ChainId::Testnet,
            filter: FlatStateFilter::from_accounts(&[account_id("holder.near")]),
        },
        block_header: BlockHeaderInnerLite { height: 55, timestamp_nanosec: 123456789 },
        block_hash: CryptoHash([11; 32]),
        data,
    }
}

#[test]
fn snapshot_round_trip_restores_an_equal_state() {
    let state = sample_state();
    let bytes = state.save();
    let loaded = FlatState::load(&bytes).expect("snapshot should load");
    assert_eq!(loaded, state);
}

#[test]
fn snapshot_round_trip_with_ranges_in_the_filter() {
    let mut state = sample_state();
    state.config.filter = FlatStateFilter {
        accounts: vec![account_id("a")],
        account_ranges: vec![
            (None, None),
            (Some(account_id("b")), None),
            (None, Some(account_id("c"))),
        ],
    };
    let bytes = state.save();
    let loaded = FlatState::load(&bytes).expect("snapshot should load");
    assert_eq!(loaded, state);
}

#[test]
fn saving_is_pure() {
    let state = sample_state();
    let first = state.save();
    let second = state.save();
    assert_eq!(first, second);
}

#[test]
fn snapshot_starts_with_the_version_byte() {
    let bytes = sample_state().save();
    assert_eq!(bytes[0], 1);
}

#[test]
fn wrong_version_byte_is_an_unsupported_version() {
    let mut bytes = sample_state().save();
    bytes[0] = 0;
    match FlatState::load(&bytes) {
        Err(FlatStateError::StorageError(m)) => assert_eq!(m, "Unsupported version"),
        other => panic!("expected a storage error, got {:?}", other),
    }
    bytes[0] = 2;
    match FlatState::load(&bytes) {
        Err(FlatStateError::StorageError(m)) => assert_eq!(m, "Unsupported version"),
        other => panic!("expected a storage error, got {:?}", other),
    }
}

#[test]
fn empty_input_is_an_end_of_data_error() {
    match FlatState::load(&Vec::new()) {
        Err(FlatStateError::StorageError(m)) => assert_eq!(m, "Unexpected end of data"),
        other => panic!("expected a storage error, got {:?}", other),
    }
}

#[test]
fn truncated_snapshot_is_invalid() {
    let bytes = sample_state().save();
    let truncated: Vec<u8> = bytes[..bytes.len() - 1].to_vec();
    match FlatState::load(&truncated) {
        Err(FlatStateError::StorageError(m)) => assert_eq!(m, "Invalid snapshot data"),
        other => panic!("expected a storage error, got {:?}", other),
    }
}

#[test]
fn trailing_bytes_are_ignored() {
    let state = sample_state();
    let mut bytes = state.save();
    bytes.push(0xFF);
    bytes.push(0x00);
    let loaded = FlatState::load(&bytes).expect("snapshot should load");
    assert_eq!(loaded, state);
}
