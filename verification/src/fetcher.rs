//! The pure core of the ordered block fetcher: configuration, the manual
//! redirect walk, archive-bundle decoding and ordering, and the scheduling
//! decisions of the sync loop. The surrounding application performs the
//! HTTP requests and sleeps; every decision it acts on is computed here.

use vstd::prelude::*;
use vstd::seq_lib::group_to_multiset_ensures;
use crate::types::{BlockWithTxHashes, ChainId, Finality};
use crate::urls::BLOCKS_PER_ARCHIVE;

verus! {

/// Default request timeout, in milliseconds.
pub const DEFAULT_TIMEOUT_MS: u64 = 10000;

/// Default wait between retries, in milliseconds.
pub const DEFAULT_RETRY_MS: u64 = 1000;

/// Archive sync runs while the consumer lags the tip by more than two
/// bundles.
pub const ARCHIVE_SYNC_THRESHOLD: u64 = 20;

/// How many redirects one fetch may follow.
pub const MAX_REDIRECTS: usize = 5;

/// Why a single fetch attempt failed: a transport problem, or a broken
/// redirect chain.
#[derive(Debug, Clone, PartialEq, Eq)]
pub enum FetchError {
    ReqwestError(String),
    RedirectError,
}

// ---------------------------------------------------------------------------
// Configuration
// ---------------------------------------------------------------------------

/// What the fetcher is told to do; durations are in milliseconds.
#[derive(Debug, Clone)]
pub struct FetcherConfig {
    pub num_threads: u64,
    /// The start block height to fetch from (inclusive).
    pub start_block_height: Option<u64>,
    /// The end block height to fetch up to (inclusive).
    pub end_block_height: Option<u64>,
    pub chain_id: ChainId,
    pub timeout_duration_ms: Option<u64>,
    pub retry_duration_ms: Option<u64>,
    pub disable_archive_sync: bool,
    /// The Bearer token to use for authentication.
    pub auth_bearer_token: Option<String>,
    pub finality: Finality,
    pub enable_r2_archive_sync: bool,
}

#[derive(Debug, Clone)]
pub struct FetcherConfigBuilder {
    pub config: FetcherConfig,
}

impl FetcherConfigBuilder {
    pub fn new() -> (r: FetcherConfigBuilder)
        ensures
            r.config.num_threads == 4,
            r.config.start_block_height is None,
            r.config.end_block_height is None,
            r.config.chain_id == ChainId::Mainnet,
            r.config.timeout_duration_ms is None,
            r.config.retry_duration_ms is None,
            r.config.disable_archive_sync == false,
            r.config.auth_bearer_token is None,
            r.config.finality == Finality::Final,
            r.config.enable_r2_archive_sync == false,
    {
        FetcherConfigBuilder {
            config: FetcherConfig {
                num_threads: 4,
                start_block_height: None,
                end_block_height: None,
                chain_id: ChainId::Mainnet,
                timeout_duration_ms: None,
                retry_duration_ms: None,
                disable_archive_sync: false,
                auth_bearer_token: None,
                finality: Finality::Final,
                enable_r2_archive_sync: false,
            },
        }
    }

    pub fn num_threads(self, num_threads: u64) -> (r: FetcherConfigBuilder)
        ensures
            r.config == (FetcherConfig { num_threads, ..self.config }),
    {
        let mut b = self;
        b.config.num_threads = num_threads;
        b
    }

    /// The start block height to fetch from (inclusive).
    pub fn start_block_height(self, start_block_height: u64) -> (r: FetcherConfigBuilder)
        ensures
            r.config == (FetcherConfig {
                start_block_height: Some(start_block_height),
                ..self.config
            }),
    {
        let mut b = self;
        b.config.start_block_height = Some(start_block_height);
        b
    }

    /// The end block height to fetch up to (inclusive).
    pub fn end_block_height(self, end_block_height: u64) -> (r: FetcherConfigBuilder)
        ensures
            r.config == (FetcherConfig {
                end_block_height: Some(end_block_height),
                ..self.config
            }),
    {
        let mut b = self;
        b.config.end_block_height = Some(end_block_height);
        b
    }

    pub fn chain_id(self, chain_id: ChainId) -> (r: FetcherConfigBuilder)
        ensures
            r.config == (FetcherConfig { chain_id, ..self.config }),
    {
        let mut b = self;
        b.config.chain_id = chain_id;
        b
    }

    pub fn timeout_duration(self, timeout_duration_ms: u64) -> (r: FetcherConfigBuilder)
        ensures
            r.config == (FetcherConfig {
                timeout_duration_ms: Some(timeout_duration_ms),
                ..self.config
            }),
    {
        let mut b = self;
        b.config.timeout_duration_ms = Some(timeout_duration_ms);
        b
    }

    pub fn retry_duration(self, retry_duration_ms: u64) -> (r: FetcherConfigBuilder)
        ensures
            r.config == (FetcherConfig {
                retry_duration_ms: Some(retry_duration_ms),
                ..self.config
            }),
    {
        let mut b = self;
        b.config.retry_duration_ms = Some(retry_duration_ms);
        b
    }

    pub fn disable_archive_sync(self, disable_archive_sync: bool) -> (r: FetcherConfigBuilder)
        ensures
            r.config == (FetcherConfig { disable_archive_sync, ..self.config }),
    {
        let mut b = self;
        b.config.disable_archive_sync = disable_archive_sync;
        b
    }

    pub fn auth_bearer_token(self, auth_bearer_token: String) -> (r: FetcherConfigBuilder)
        ensures
            r.config == (FetcherConfig {
                auth_bearer_token: Some(auth_bearer_token),
                ..self.config
            }),
    {
        let mut b = self;
        b.config.auth_bearer_token = Some(auth_bearer_token);
        b
    }

    pub fn finality(self, finality: Finality) -> (r: FetcherConfigBuilder)
        ensures
            r.config == (FetcherConfig { finality, ..self.config }),
    {
        let mut b = self;
        b.config.finality = finality;
        b
    }

    /// The R2 endpoint has lower rate limits and should be used with
    /// authentication.
    pub fn enable_r2_archive_sync(self, enable_r2_archive_sync: bool) -> (r: FetcherConfigBuilder)
        ensures
            r.config == (FetcherConfig { enable_r2_archive_sync, ..self.config }),
    {
        let mut b = self;
        b.config.enable_r2_archive_sync = enable_r2_archive_sync;
        b
    }

    pub fn build(self) -> (r: FetcherConfig)
        ensures
            r == self.config,
    {
        self.config
    }
}

impl FetcherConfig {
    /// The request timeout to use, in milliseconds.
    pub fn effective_timeout_ms(&self) -> (r: u64)
        ensures
            r == (match self.timeout_duration_ms {
                Some(t) => t,
                None => DEFAULT_TIMEOUT_MS,
            }),
    {
        match self.timeout_duration_ms {
            Some(t) => t,
            None => DEFAULT_TIMEOUT_MS,
        }
    }

    /// The wait between retries, in milliseconds.
    pub fn effective_retry_ms(&self) -> (r: u64)
        ensures
            r == (match self.retry_duration_ms {
                Some(t) => t,
                None => DEFAULT_RETRY_MS,
            }),
    {
        match self.retry_duration_ms {
            Some(t) => t,
            None => DEFAULT_RETRY_MS,
        }
    }

    /// The inclusive upper bound of the run; unbounded means the largest
    /// height.
    pub fn effective_end_height(&self) -> (r: u64)
        ensures
            r == (match self.end_block_height {
                Some(e) => e,
                None => u64::MAX,
            }),
    {
        match self.end_block_height {
            Some(e) => e,
            None => u64::MAX,
        }
    }
}

// ---------------------------------------------------------------------------
// Trusted items: the HTTP client and URL resolution
// ---------------------------------------------------------------------------

#[verifier::external_type_specification]
#[verifier::external_body]
pub struct ExClient(reqwest::Client);

/// Relies on reqwest::Client::new, which builds a pooled HTTP client; with
/// no TLS backend compiled in there is nothing to initialise that could
/// fail. The client carries no state this library reasons about.
#[verifier::external_body]
fn fresh_reqwest_client() -> reqwest::Client {
    reqwest::Client::new()
}

/// A pooled HTTP client for the fetcher's requests.
pub fn new_reqwest_client() -> reqwest::Client {
    fresh_reqwest_client()
}

pub uninterp spec fn joined_url(base: Seq<char>, location: Seq<char>) -> Option<Seq<char>>;

/// Relies on url::Url::parse and url::Url::join: what a location header
/// resolves to against a base URL is a function of the two strings alone.
#[verifier::external_body]
fn join_url(base: &String, location: &String) -> (r: Option<String>)
    ensures
        r matches Some(u) ==> joined_url(base@, location@) == Some(u@),
        r is None ==> joined_url(base@, location@) is None,
{
    match url::Url::parse(base) {
        Ok(b) => match b.join(location) {
            Ok(j) => Some(j.to_string()),
            Err(_) => None,
        },
        Err(_) => None,
    }
}

// ---------------------------------------------------------------------------
// The manual redirect walk
// ---------------------------------------------------------------------------

/// Decides one step of the manual redirect walk. `hops_taken` counts the
/// redirects already followed for this request: once it reaches
/// `MAX_REDIRECTS` the walk fails, and a missing or unresolvable location
/// header fails it too; otherwise the next URL is the location resolved
/// against the current one.
pub fn redirect_decision(hops_taken: usize, current_url: &String, location: Option<&String>) -> (r:
    Result<String, FetchError>)
    ensures
        hops_taken >= MAX_REDIRECTS ==> r matches Err(FetchError::RedirectError),
        hops_taken < MAX_REDIRECTS && location is None ==> r matches Err(
            FetchError::RedirectError,
        ),
        (hops_taken < MAX_REDIRECTS && location is Some) ==> (match r {
            Ok(u) => joined_url(current_url@, location->Some_0@) == Some(u@),
            Err(e) => e matches FetchError::RedirectError && joined_url(
                current_url@,
                location->Some_0@,
            ) is None,
        }),
{
    if hops_taken >= MAX_REDIRECTS {
        return Err(FetchError::RedirectError);
    }
    match location {
        None => Err(FetchError::RedirectError),
        Some(l) => match join_url(current_url, l) {
            Some(u) => Ok(u),
            None => Err(FetchError::RedirectError),
        },
    }
}

// ---------------------------------------------------------------------------
// Trusted item: archive unpacking
// ---------------------------------------------------------------------------

pub uninterp spec fn archive_entries(bytes: Seq<u8>) -> Option<Seq<Seq<u8>>>;

/// Relies on flate2::read::GzDecoder and tar::Archive: which entries a
/// gzipped tar holds, in order, is a function of the bytes alone.
#[verifier::external_body]
fn unpack_tgz(bytes: &Vec<u8>) -> (r: Result<Vec<Vec<u8>>, String>)
    ensures
        r matches Ok(entries) ==> archive_entries(bytes@) == Some(entries.deep_view()),
        r is Err ==> archive_entries(bytes@) is None,
{
    let cursor = std::io::Cursor::new(bytes);
    let mut archive = tar::Archive::new(flate2::read::GzDecoder::new(cursor));
    let mut out = Vec::new();
    for entry in archive.entries().map_err(|e| e.to_string())? {
        let mut entry = entry.map_err(|e| e.to_string())?;
        let mut content = Vec::new();
        std::io::Read::read_to_end(&mut entry, &mut content).map_err(|e| e.to_string())?;
        out.push(content);
    }
    Ok(out)
}

/// Unpacks an archive bundle into its raw entries, one byte string per
/// block, in bundle order. The caller decodes each entry and hands the
/// blocks to `sort_blocks_by_height`.
pub fn parse_archive(bytes: &Vec<u8>) -> (r: Result<Vec<Vec<u8>>, String>)
    ensures
        r matches Ok(entries) ==> archive_entries(bytes@) == Some(entries.deep_view()),
        r is Err ==> archive_entries(bytes@) is None,
{
    unpack_tgz(bytes)
}


/// What one archive response leads to.
pub enum ArchiveStep {
    /// The bundle's raw entries, ready for decoding and sorting.
    Deliver(Vec<Vec<u8>>),
    /// The bundle does not exist: an empty block list, delivered at once,
    /// with no retry and no error.
    Empty,
    /// The body did not unpack; fetch the bundle again.
    Retry(String),
}

/// Decides what an archive response amounts to. A missing bundle
/// (HTTP 404, reported as `None`) is an empty block list; a body that
/// unpacks is delivered; a body that does not is retried.
pub fn archive_response_decision(response: Option<Vec<u8>>) -> (r: ArchiveStep)
    ensures
        response is None ==> r is Empty,
        response matches Some(body) ==> (match r {
            ArchiveStep::Deliver(entries) => archive_entries(body@) == Some(entries.deep_view()),
            ArchiveStep::Retry(m) => archive_entries(body@) is None,
            ArchiveStep::Empty => false,
        }),
{
    match response {
        None => ArchiveStep::Empty,
        Some(body) => match parse_archive(&body) {
            Ok(entries) => ArchiveStep::Deliver(entries),
            Err(m) => ArchiveStep::Retry(m),
        },
    }
}

// ---------------------------------------------------------------------------
// Ordering the bundle
// ---------------------------------------------------------------------------

/// Ascending by header height.
pub open spec fn sorted_by_height(s: Seq<BlockWithTxHashes>) -> bool {
    forall|i: int, j: int|
        0 <= i < j < s.len() ==> (#[trigger] s[i]).header.height <= (#[trigger] s[j]).header.height
}

proof fn lemma_insert_multiset<A>(s: Seq<A>, i: int, x: A)
    requires
        0 <= i <= s.len(),
    ensures
        s.insert(i, x).to_multiset() == s.to_multiset().insert(x),
{
    broadcast use group_to_multiset_ensures;

    let t = s.insert(i, x);
    assert(t.remove(i) =~= s);
    assert(t[i] == x);
    assert(t.remove(i).to_multiset() =~= t.to_multiset().remove(x));
    assert(t.to_multiset().contains(x)) by {
        assert(t.contains(x));
    }
    assert(t.to_multiset() =~= s.to_multiset().insert(x)) by {
        assert forall|y: A| true implies t.to_multiset().count(y) == s.to_multiset().insert(
            x,
        ).count(y) by {
            assert(s.to_multiset().count(y) == t.to_multiset().remove(x).count(y));
        }
    }
}

/// Sorts a decoded bundle ascending by height. The result holds exactly
/// the blocks that went in.
#[verifier::loop_isolation(false)]
pub fn sort_blocks_by_height(blocks: Vec<BlockWithTxHashes>) -> (r: Vec<BlockWithTxHashes>)
    ensures
        sorted_by_height(r@),
        r@.to_multiset() == blocks@.to_multiset(),
        r@.len() == blocks@.len(),
{
    broadcast use group_to_multiset_ensures;

    let mut input = blocks;
    let mut out: Vec<BlockWithTxHashes> = Vec::new();
    proof {
        assert(out@.to_multiset() =~= Seq::<BlockWithTxHashes>::empty().to_multiset());
    }
    while input.len() > 0
        invariant
            sorted_by_height(out@),
            out@.to_multiset().add(input@.to_multiset()) == blocks@.to_multiset(),
            out@.len() + input@.len() == blocks@.len(),
        decreases input@.len(),
    {
        let ghost input0 = input@;
        let b = input.remove(0);
        proof {
            assert(input@ =~= input0.remove(0));
            assert(input0.remove(0).to_multiset() =~= input0.to_multiset().remove(input0[0]));
        }
        let mut pos: usize = 0;
        while pos < out.len() && out[pos].header.height <= b.header.height
            invariant
                pos <= out@.len(),
                forall|j: int| 0 <= j < pos ==> (#[trigger] out@[j]).header.height <= b.header.height,
            decreases out@.len() - pos,
        {
            pos += 1;
        }
        let ghost out0 = out@;
        let ghost bh = b.header.height;
        proof {
            assert(forall|j: int| 0 <= j < pos ==> (#[trigger] out0[j]).header.height <= bh);
            assert(pos < out0.len() ==> out0[pos as int].header.height > bh);
        }
        out.insert(pos, b);
        proof {
            assert(out@ =~= out0.insert(pos as int, b));
            lemma_insert_multiset(out0, pos as int, b);
            assert forall|i: int, j: int| 0 <= i < j < out@.len() implies (
            #[trigger] out@[i]).header.height <= (#[trigger] out@[j]).header.height by {
                if i < pos && j < pos {
                } else if i == pos {
                    assert(out@[j] == out0[j - 1]);
                    assert(out0[j - 1].header.height > bh || out0[j - 1].header.height
                        >= out0[pos as int].header.height);
                } else if j == pos {
                    assert(out@[i] == out0[i]);
                } else if i > pos {
                    assert(out@[i] == out0[i - 1] && out@[j] == out0[j - 1]);
                } else {
                    assert(out@[i] == out0[i] && out@[j] == out0[j - 1]);
                    assert(j - 1 >= pos);
                    if j - 1 == pos {
                        assert(out0[pos as int].header.height > bh || pos == out0.len());
                    }
                }
            }
        }
    }
    proof {
        assert(input@.to_multiset() =~= Seq::<BlockWithTxHashes>::empty().to_multiset());
        assert(out@.to_multiset() =~= blocks@.to_multiset());
    }
    out
}

// ---------------------------------------------------------------------------
// Scheduling decisions
// ---------------------------------------------------------------------------

/// The greatest bundle-aligned height at or below `h`.
pub fn rounded_archive_height(h: u64) -> (r: u64)
    ensures
        r == h / BLOCKS_PER_ARCHIVE * BLOCKS_PER_ARCHIVE,
{
    h / BLOCKS_PER_ARCHIVE * BLOCKS_PER_ARCHIVE
}

/// The smaller of the server tip and the configured end.
pub fn capped_last_height(last: u64, end: u64) -> (r: u64)
    ensures
        r == (if last < end {
            last
        } else {
            end
        }),
{
    if last < end {
        last
    } else {
        end
    }
}

/// Archive mode runs when it is enabled and the consumer lags the rounded
/// tip by more than the threshold.
pub fn should_archive_sync(disable_archive_sync: bool, rounded_last: u64, start: u64) -> (r: bool)
    ensures
        r == (!disable_archive_sync && rounded_last as int > start as int
            + ARCHIVE_SYNC_THRESHOLD as int),
{
    !disable_archive_sync && rounded_last > start && rounded_last - start > ARCHIVE_SYNC_THRESHOLD
}

/// Live mode runs backfill with all workers while the tip is more than
/// one claim per worker away; otherwise a single worker follows the tip.
pub fn live_worker_count(last: u64, start: u64, num_threads: u64) -> (r: (bool, u64))
    ensures
        r.0 == (last as int > start as int + num_threads as int),
        r.1 == (if r.0 {
            num_threads
        } else {
            1u64
        }),
{
    let is_backfill = last > start && last - start > num_threads;
    (
        is_backfill,
        if is_backfill {
            num_threads
        } else {
            1
        },
    )
}

/// A live worker stops claiming when its height passes the window.
pub fn live_claim_done(block_height: u64, is_backfill: bool, last: u64, end: u64) -> (r: bool)
    ensures
        r == ((is_backfill && block_height > last) || block_height > end),
{
    (is_backfill && block_height > last) || block_height > end
}

/// An archive worker stops claiming at the end of the archive window.
pub fn archive_claim_done(archive_height: u64, end: u64) -> (r: bool)
    ensures
        r == (archive_height >= end),
{
    archive_height >= end
}

/// A worker may send once the sink has caught up to its claim.
pub fn may_send(expected: u64, claimed: u64) -> (r: bool)
    ensures
        r == (expected >= claimed),
{
    expected >= claimed
}

/// How long a live worker waits for the sink, in milliseconds.
pub fn live_wait_ms(claimed: u64, expected: u64) -> (r: u64)
    requires
        expected < claimed,
    ensures
        r == claimed - expected,
{
    claimed - expected
}

/// How long an archive worker waits for the sink, in milliseconds: the
/// lag in bundles, rounded up, times the bundle size.
pub fn archive_wait_ms(claimed: u64, expected: u64) -> (r: u64)
    requires
        expected < claimed,
        claimed as int - expected as int + BLOCKS_PER_ARCHIVE as int - 1 <= u64::MAX as int,
    ensures
        r == (claimed - expected + BLOCKS_PER_ARCHIVE - 1) / (BLOCKS_PER_ARCHIVE as int) * (
        BLOCKS_PER_ARCHIVE as int),
{
    let d = claimed - expected + (BLOCKS_PER_ARCHIVE - 1);
    let q = d / BLOCKS_PER_ARCHIVE;
    proof {
        assert(d as int / 10 * 10 <= d as int) by (nonlinear_arith);
    }
    q * BLOCKS_PER_ARCHIVE
}

/// The blocks of a bundle at or above the sink position, in their sorted
/// order: items the consumer has already passed are skipped.
#[verifier::loop_isolation(false)]
pub fn filter_bundle(blocks: Vec<BlockWithTxHashes>, expected: u64) -> (r: Vec<BlockWithTxHashes>)
    ensures
        r.deep_view() == blocks.deep_view().filter(
            |b: crate::types::BlockWithTxHashesV| b.header.height >= expected,
        ),
{
    let mut out: Vec<BlockWithTxHashes> = Vec::new();
    let mut input = blocks;
    let ghost all = input.deep_view();
    let ghost f = |b: crate::types::BlockWithTxHashesV| b.header.height >= expected;
    let mut i: usize = 0;
    proof {
        reveal(Seq::filter);
        assert(all.len() == input@.len());
        assert(input@.len() == input.len());
        assert(all.take(0) =~= Seq::<crate::types::BlockWithTxHashesV>::empty());
        assert(all.take(0).filter(f) =~= Seq::<crate::types::BlockWithTxHashesV>::empty());
        assert(out.deep_view() =~= all.take(0).filter(f));
    }
    while input.len() > 0
        invariant
            i + input@.len() == all.len(),
            i <= all.len(),
            all.len() <= usize::MAX,
            input.deep_view() =~= all.skip(i as int),
            out.deep_view() == all.take(i as int).filter(f),
        decreases input@.len(),
    {
        let ghost inpre = input.deep_view();
        let b = input.remove(0);
        let ghost bv = b.deep_view();
        proof {
            assert(input.deep_view() =~= inpre.remove(0));
            assert(inpre == all.skip(i as int));
            assert(inpre[0] == all.skip(i as int)[0]);
            assert(all.skip(i as int)[0] == all[i as int]);
            assert(bv == inpre[0]);
            assert(bv == all[i as int]);
            assert(input.deep_view() =~= all.skip(i + 1));
            assert(all.take(i + 1) =~= all.take(i as int).push(bv));
            assert(all.take(i + 1).drop_last() =~= all.take(i as int));
            assert(all.take(i + 1).last() == bv);
        }
        let ghost outpre = out.deep_view();
        if b.header.height >= expected {
            proof {
                reveal(Seq::filter);
                assert(f(bv));
                assert(all.take(i + 1).filter(f) == all.take(i as int).filter(f).push(bv));
            }
            out.push(b);
            proof {
                assert(out.deep_view() =~= outpre.push(bv));
            }
        } else {
            proof {
                reveal(Seq::filter);
                assert(!f(bv));
                assert(all.take(i + 1).filter(f) == all.take(i as int).filter(f));
            }
        }
        i += 1;
    }
    proof {
        assert(all.take(all.len() as int) =~= all);
    }
    out
}

} // verus!
