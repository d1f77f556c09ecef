use neardata::dump::StateRecord;
use neardata::fetcher::{
    archive_response_decision, archive_wait_ms, capped_last_height, filter_bundle,
    live_claim_done, live_wait_ms, live_worker_count, may_send, parse_archive,
    redirect_decision, rounded_archive_height, should_archive_sync, sort_blocks_by_height,
    ArchiveStep, FetchError, FetcherConfigBuilder, DEFAULT_RETRY_MS, DEFAULT_TIMEOUT_MS,
};
use neardata::filter::FlatStateFilter;
use neardata::rpc::{
    AccessKeyListOutcome, AccountFetch, ViewCodeOutcome, ViewStateOutcome,
};
use neardata::state::{FlatState, FlatStateConfig, FlatStateError};
use neardata::types::{
    AccessKey, AccessKeyPermission, Account, AccountId, BlockHeaderInnerLite, BlockHeaderView,
    BlockWithTxHashes, ChainId, CryptoHash, Finality, PublicKey,
};

fn account_id(name: &str) -> AccountId {
    AccountId::new(name.as_bytes().to_vec())
}

fn block_at(height: u64) -> BlockWithTxHashes {
    BlockWithTxHashes {
        header: BlockHeaderView {
            height,
            hash: CryptoHash([height as u8; 32]),
            prev_hash: CryptoHash([0; 32]),
            timestamp_nanosec: 0,
        },
        shards: Vec::new(),
    }
}

#[test]
fn builder_defaults_and_setters() {
    let config = FetcherConfigBuilder::new().build();
    assert_eq!(config.num_threads, 4);
    assert_eq!(config.start_block_height, None);
    assert_eq!(config.end_block_height, None);
    assert_eq!(config.chain_id, ChainId::Mainnet);
    assert_eq!(config.timeout_duration_ms, None);
    assert_eq!(config.retry_duration_ms, None);
    assert!(!config.disable_archive_sync);
    assert_eq!(config.auth_bearer_token, None);
    assert_eq!(config.finality, Finality::Final);
    assert!(!config.enable_r2_archive_sync);
    assert_eq!(config.effective_timeout_ms(), DEFAULT_TIMEOUT_MS);
    assert_eq!(config.effective_retry_ms(), DEFAULT_RETRY_MS);
    assert_eq!(config.effective_end_height(), u64::MAX);

    let config = FetcherConfigBuilder::new()
        .num_threads(8)
        .start_block_height(10)
        .end_block_height(20)
        .chain_id(ChainId::Testnet)
        .timeout_duration(2500)
        .retry_duration(100)
        .disable_archive_sync(true)
        .auth_bearer_token("test-token".to_string())
        .finality(Finality::Optimistic)
        .enable_r2_archive_sync(true)
        .build();
    assert_eq!(config.num_threads, 8);
    assert_eq!(config.start_block_height, Some(10));
    assert_eq!(config.end_block_height, Some(20));
    assert_eq!(config.chain_id, ChainId::Testnet);
    assert_eq!(config.effective_timeout_ms(), 2500);
    assert_eq!(config.effective_retry_ms(), 100);
    assert_eq!(config.effective_end_height(), 20);
    assert!(config.disable_archive_sync);
    assert_eq!(config.finality, Finality::Optimistic);
    assert!(config.enable_r2_archive_sync);
}

#[test]
fn redirects_stop_after_the_cap() {
    let current = "https://example.net/a".to_string();
    let location = "/b".to_string();
    // The fifth follow is still allowed; the next one is not.
    assert!(redirect_decision(4, &current, Some(&location)).is_ok());
    assert_eq!(
        redirect_decision(5, &current, Some(&location)),
        Err(FetchError::RedirectError)
    );
    assert_eq!(
        redirect_decision(6, &current, Some(&location)),
        Err(FetchError::RedirectError)
    );
}

#[test]
fn redirect_location_resolves_against_the_current_url() {
    let current = "https://example.net/a/b".to_string();
    assert_eq!(
        redirect_decision(0, &current, Some(&"/c/d".to_string())),
        Ok("https://example.net/c/d".to_string())
    );
    assert_eq!(
        redirect_decision(0, &current, Some(&"e".to_string())),
        Ok("https://example.net/a/e".to_string())
    );
    assert_eq!(
        redirect_decision(0, &current, Some(&"https://other.example/z".to_string())),
        Ok("https://other.example/z".to_string())
    );
    assert_eq!(redirect_decision(0, &current, None), Err(FetchError::RedirectError));
}

fn build_tgz(entries: &[&[u8]]) -> Vec<u8> {
    let mut builder = tar::Builder::new(Vec::new());
    for (i, content) in entries.iter().enumerate() {
        let mut header = tar::Header::new_gnu();
        header.set_size(content.len() as u64);
        header.set_cksum();
        builder
            .append_data(&mut header, format!("{:010}.json", i), *content)
            .expect("append tar entry");
    }
    let tar_bytes = builder.into_inner().expect("finish tar");
    let mut encoder =
        flate2::write::GzEncoder::new(Vec::new(), flate2::Compression::default());
    std::io::Write::write_all(&mut encoder, &tar_bytes).expect("gzip");
    encoder.finish().expect("finish gzip")
}

#[test]
fn parse_archive_returns_the_bundle_entries() {
    let tgz = build_tgz(&[b"first entry", b"second entry"]);
    let entries = parse_archive(&tgz).expect("bundle should unpack");
    assert_eq!(entries, vec![b"first entry".to_vec(), b"second entry".to_vec()]);
}

#[test]
fn parse_archive_rejects_garbage() {
    assert!(parse_archive(&vec![1, 2, 3, 4]).is_err());
}

#[test]
fn a_missing_bundle_is_an_empty_list_with_no_retry() {
    match archive_response_decision(None) {
        ArchiveStep::Empty => {},
        _ => panic!("a missing bundle must deliver an empty list"),
    }
    match archive_response_decision(Some(build_tgz(&[b"x"]))) {
        ArchiveStep::Deliver(entries) => assert_eq!(entries, vec![b"x".to_vec()]),
        _ => panic!("a well-formed bundle must be delivered"),
    }
    match archive_response_decision(Some(vec![0, 1, 2])) {
        ArchiveStep::Retry(_) => {},
        _ => panic!("a garbled bundle must be retried"),
    }
}

#[test]
fn bundles_are_sorted_ascending_by_height() {
    let sorted = sort_blocks_by_height(vec![block_at(3), block_at(1), block_at(2)]);
    let heights: Vec<u64> = sorted.iter().map(|b| b.header.height).collect();
    assert_eq!(heights, vec![1, 2, 3]);
}

#[test]
fn bundle_filter_skips_heights_below_the_sink() {
    let kept = filter_bundle(
        vec![block_at(20), block_at(21), block_at(22), block_at(23)],
        22,
    );
    let heights: Vec<u64> = kept.iter().map(|b| b.header.height).collect();
    assert_eq!(heights, vec![22, 23]);
}

#[test]
fn scheduling_decisions() {
    assert_eq!(rounded_archive_height(127), 120);
    assert_eq!(rounded_archive_height(120), 120);
    assert_eq!(capped_last_height(100, 50), 50);
    assert_eq!(capped_last_height(40, 50), 40);
    // Archive sync needs more than a twenty-block lag behind the rounded tip.
    assert!(should_archive_sync(false, 121, 100));
    assert!(!should_archive_sync(false, 120, 100));
    assert!(!should_archive_sync(true, 200, 100));
    // Backfill only when the gap exceeds the worker count.
    assert_eq!(live_worker_count(110, 100, 4), (true, 4));
    assert_eq!(live_worker_count(104, 100, 4), (false, 1));
    assert!(live_claim_done(11, true, 10, 100));
    assert!(!live_claim_done(11, false, 10, 100));
    assert!(live_claim_done(101, false, 10, 100));
    assert!(may_send(10, 10));
    assert!(!may_send(9, 10));
    assert_eq!(live_wait_ms(10, 5), 5);
    assert_eq!(archive_wait_ms(25, 7), 20);
    assert_eq!(archive_wait_ms(30, 29), 10);
}

fn rpc_config(accounts: &[AccountId]) -> FlatStateConfig {
    FlatStateConfig {
        chain_id: ChainId::Mainnet,
        filter: FlatStateFilter::from_accounts(accounts),
    }
}

#[test]
fn rpc_rejects_range_filters() {
    let config = FlatStateConfig {
        chain_id: ChainId::Mainnet,
        filter: FlatStateFilter::full(),
    };
    match FlatState::fetch_from_rpc(
        config,
        CryptoHash([0; 32]),
        BlockHeaderInnerLite { height: 1, timestamp_nanosec: 0 },
        Vec::new(),
    ) {
        Err(FlatStateError::FilterError(m)) => {
            assert_eq!(m, "Account ranges are not supported with RPC initialization")
        },
        other => panic!("expected a filter error, got {:?}", other),
    }
}

#[test]
fn rpc_rejects_an_empty_account_set() {
    match FlatState::fetch_from_rpc(
        rpc_config(&[]),
        CryptoHash([0; 32]),
        BlockHeaderInnerLite { height: 1, timestamp_nanosec: 0 },
        Vec::new(),
    ) {
        Err(FlatStateError::FilterError(m)) => assert_eq!(
            m,
            "The filter should contain at least one account ID with RPC initialization"
        ),
        other => panic!("expected a filter error, got {:?}", other),
    }
}

#[test]
fn rpc_builds_the_snapshot_from_the_answers() {
    let a = account_id("a.near");
    let account = Account {
        amount: 9,
        locked: 0,
        code_hash: CryptoHash([1; 32]),
        storage_usage: 10,
    };
    let key = PublicKey::ED25519(vec![5; 32]);
    let access_key = AccessKey { nonce: 1, permission: AccessKeyPermission::FullAccess };
    let fetched = vec![
        (
            a.clone(),
            AccountFetch::Known {
                account,
                access_keys: AccessKeyListOutcome::Keys(vec![(key.clone(), access_key.clone())]),
                code: ViewCodeOutcome::Code(vec![0xCA, 0xFE]),
                state: ViewStateOutcome::Items(vec![(b"k".to_vec(), b"v".to_vec())]),
            },
        ),
        (account_id("missing.near"), AccountFetch::Unknown),
    ];
    let state = FlatState::fetch_from_rpc(
        rpc_config(&[a.clone(), account_id("missing.near")]),
        CryptoHash([9; 32]),
        BlockHeaderInnerLite { height: 77, timestamp_nanosec: 1 },
        fetched,
    )
    .expect("snapshot should build");
    assert_eq!(state.block_hash, CryptoHash([9; 32]));
    assert_eq!(state.data.accounts, vec![(a.clone(), account)]);
    assert_eq!(state.data.access_keys, vec![(a.clone(), vec![(key, access_key)])]);
    assert_eq!(state.data.contracts_code, vec![(a.clone(), vec![0xCA, 0xFE])]);
    assert_eq!(state.data.data, vec![(a.clone(), vec![(b"k".to_vec(), b"v".to_vec())])]);
}

#[test]
fn rpc_surfaces_the_first_fatal_answer() {
    let fetched = vec![
        (account_id("one"), AccountFetch::Unknown),
        (account_id("two"), AccountFetch::Failed("boom".to_string())),
    ];
    match FlatState::fetch_from_rpc(
        rpc_config(&[account_id("one"), account_id("two")]),
        CryptoHash([0; 32]),
        BlockHeaderInnerLite { height: 1, timestamp_nanosec: 0 },
        fetched,
    ) {
        Err(FlatStateError::RpcError(m)) => assert_eq!(m, "boom"),
        other => panic!("expected an rpc error, got {:?}", other),
    }
}

#[test]
fn state_dump_translates_and_filters_records() {
    let kept = account_id("kept");
    let dropped = account_id("dropped");
    let records = vec![
        StateRecord::Account {
            account_id: kept.clone(),
            account: Account {
                amount: 1,
                locked: 0,
                code_hash: CryptoHash([0; 32]),
                storage_usage: 1,
            },
        },
        StateRecord::Account {
            account_id: dropped.clone(),
            account: Account {
                amount: 2,
                locked: 0,
                code_hash: CryptoHash([0; 32]),
                storage_usage: 2,
            },
        },
        StateRecord::Data {
            account_id: kept.clone(),
            data_key: b"d".to_vec(),
            value: b"v".to_vec(),
        },
        StateRecord::PostponedReceipt { account_id: kept.clone() },
        StateRecord::Contract { account_id: kept.clone(), code: vec![1] },
    ];
    let state = FlatState::from_state_dump(
        FlatStateFilter::from_accounts(&[kept.clone()]),
        ChainId::Testnet,
        CryptoHash([4; 32]),
        BlockHeaderInnerLite { height: 9, timestamp_nanosec: 0 },
        records,
    );
    assert_eq!(state.config.chain_id, ChainId::Testnet);
    assert_eq!(state.block_hash, CryptoHash([4; 32]));
    assert_eq!(state.data.accounts.len(), 1);
    assert_eq!(state.data.accounts[0].0, kept);
    assert_eq!(state.data.data.len(), 1);
    assert_eq!(state.data.contracts_code.len(), 1);
    assert!(state.data.access_keys.is_empty());
}
