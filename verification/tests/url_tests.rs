use neardata::types::{ChainId, Finality};
use neardata::urls::{archive_url, block_suffix, last_block_suffix, target_url};

#[test]
fn archive_url_mainnet_second_bucket() {
    assert_eq!(
        archive_url(ChainId::Mainnet, false, 130_000_000),
        "https://a1.mainnet.neardata.xyz/raw/000130/000/000130000000.tgz"
    );
}

#[test]
fn archive_url_mainnet_first_bucket() {
    assert_eq!(
        archive_url(ChainId::Mainnet, false, 100_000_000),
        "https://a0.mainnet.neardata.xyz/raw/000100/000/000100000000.tgz"
    );
}

#[test]
fn archive_url_mainnet_r2_bucket() {
    assert_eq!(
        archive_url(ChainId::Mainnet, true, 50_000_000),
        "https://archive.data.fastnear.com/mainnet/000050/000/000050000000.tgz"
    );
}

#[test]
fn archive_url_mainnet_tier_boundaries() {
    // The boundary heights themselves fall into the next bucket.
    assert_eq!(
        archive_url(ChainId::Mainnet, false, 122_000_000),
        "https://a1.mainnet.neardata.xyz/raw/000122/000/000122000000.tgz"
    );
    assert_eq!(
        archive_url(ChainId::Mainnet, false, 142_000_000),
        "https://a2.mainnet.neardata.xyz/raw/000142/000/000142000000.tgz"
    );
    assert_eq!(
        archive_url(ChainId::Mainnet, false, 121_999_990),
        "https://a0.mainnet.neardata.xyz/raw/000121/999/000121999990.tgz"
    );
}

#[test]
fn archive_url_mainnet_r2_only_up_to_its_last_height() {
    assert_eq!(
        archive_url(ChainId::Mainnet, true, 142_000_000),
        "https://archive.data.fastnear.com/mainnet/000142/000/000142000000.tgz"
    );
    assert_eq!(
        archive_url(ChainId::Mainnet, true, 142_000_010),
        "https://a2.mainnet.neardata.xyz/raw/000142/000/000142000010.tgz"
    );
}

#[test]
fn archive_url_testnet() {
    assert_eq!(
        archive_url(ChainId::Testnet, false, 130_000_000),
        "https://testnet.neardata.xyz/raw/000130/000/000130000000.tgz"
    );
    assert_eq!(
        archive_url(ChainId::Testnet, true, 130_000_000),
        "https://archive.data.fastnear.com/testnet/000130/000/000130000000.tgz"
    );
    assert_eq!(
        archive_url(ChainId::Testnet, true, 185_670_010),
        "https://testnet.neardata.xyz/raw/000185/670/000185670010.tgz"
    );
}

#[test]
fn target_url_prefixes_the_chain_base() {
    assert_eq!(
        target_url("/v0/last_block/final", ChainId::Mainnet),
        "https://mainnet.neardata.xyz/v0/last_block/final"
    );
    assert_eq!(
        target_url("/v0/first_block", ChainId::Testnet),
        "https://testnet.neardata.xyz/v0/first_block"
    );
}

#[test]
fn endpoint_suffixes() {
    assert_eq!(last_block_suffix(&Finality::Final), "/v0/last_block/final");
    assert_eq!(last_block_suffix(&Finality::Optimistic), "/v0/last_block/optimistic");
    assert_eq!(block_suffix(12345, &Finality::Final), "/v0/block/12345");
    assert_eq!(block_suffix(12345, &Finality::Optimistic), "/v0/block_opt/12345");
    assert_eq!(block_suffix(0, &Finality::Final), "/v0/block/0");
}
