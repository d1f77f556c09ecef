//! URL routing: the live endpoints and the height-tiered archive buckets.

use vstd::prelude::*;
use vstd::string::StringExecFns;
use crate::types::{ChainId, Finality};

verus! {

/// Blocks are bundled ten to an archive.
pub const BLOCKS_PER_ARCHIVE: u64 = 10;

/// The last mainnet height served from the R2 archive bucket.
pub const MAINNET_R2_LAST_BLOCK_HEIGHT: u64 = 142000000;

/// The last testnet height served from the R2 archive bucket.
pub const TESTNET_ARCHIVE_LAST_BLOCK_HEIGHT: u64 = 185670000;

/// The mainnet archive tier boundaries: bucket `k` serves heights below
/// the `k`-th boundary, and the last bucket everything above.
pub const MAINNET_ARCHIVE_BOUNDARY_0: u64 = 122000000;

pub const MAINNET_ARCHIVE_BOUNDARY_1: u64 = 142000000;

// ---------------------------------------------------------------------------
// Decimal digits
// ---------------------------------------------------------------------------

pub open spec fn spec_digit_char(d: nat) -> char {
    if d == 0 {
        '0'
    } else if d == 1 {
        '1'
    } else if d == 2 {
        '2'
    } else if d == 3 {
        '3'
    } else if d == 4 {
        '4'
    } else if d == 5 {
        '5'
    } else if d == 6 {
        '6'
    } else if d == 7 {
        '7'
    } else if d == 8 {
        '8'
    } else {
        '9'
    }
}

/// The decimal form of `n`, most significant digit first, no leading
/// zeros.
pub open spec fn spec_digits(n: nat) -> Seq<char>
    decreases n,
{
    if n < 10 {
        seq![spec_digit_char(n)]
    } else {
        spec_digits(n / 10).push(spec_digit_char(n % 10))
    }
}

/// The decimal form of `n`, left-padded with zeros to twelve places.
pub open spec fn spec_padded12(n: nat) -> Seq<char> {
    if spec_digits(n).len() >= 12 {
        spec_digits(n)
    } else {
        Seq::new((12 - spec_digits(n).len()) as nat, |i: int| '0') + spec_digits(n)
    }
}

pub open spec fn spec_num_digits(n: nat) -> nat
    decreases n,
{
    if n < 10 {
        1
    } else {
        1 + spec_num_digits(n / 10)
    }
}

pub open spec fn spec_pow10(k: nat) -> nat
    decreases k,
{
    if k == 0 {
        1
    } else {
        10 * spec_pow10((k - 1) as nat)
    }
}

pub proof fn lemma_num_digits_bound(n: nat, k: nat)
    requires
        k >= 1,
        n < spec_pow10(k),
    ensures
        spec_num_digits(n) <= k,
    decreases k,
{
    if n >= 10 {
        assert(spec_pow10(k) == 10 * spec_pow10((k - 1) as nat));
        assert(n / 10 < spec_pow10((k - 1) as nat)) by (nonlinear_arith)
            requires
                n < 10 * spec_pow10((k - 1) as nat),
        ;
        assert(k >= 2) by {
            if k == 1 {
                assert(spec_pow10(1nat) == 10);
            }
        }
        lemma_num_digits_bound(n / 10, (k - 1) as nat);
    }
}

/// A 64-bit value has at most twenty decimal digits.
pub proof fn lemma_num_digits_u64(n: u64)
    ensures
        spec_num_digits(n as nat) <= 20,
{
    reveal_with_fuel(spec_pow10, 21);
    assert(spec_pow10(20) > u64::MAX as nat);
    lemma_num_digits_bound(n as nat, 20);
}

pub proof fn lemma_digits_len(n: nat)
    ensures
        spec_digits(n).len() == spec_num_digits(n),
    decreases n,
{
    if n >= 10 {
        lemma_digits_len(n / 10);
    }
}

/// Decimal digits are ASCII.
pub proof fn lemma_digits_ascii(n: nat)
    ensures
        vstd::utf8::is_ascii_chars(spec_digits(n)),
    decreases n,
{
    if n < 10 {
        assert(forall|i: int|
            0 <= i < spec_digits(n).len() ==> '\u{0}' <= #[trigger] spec_digits(n)[i]
                <= '\u{7f}');
    } else {
        lemma_digits_ascii(n / 10);
        assert(forall|i: int|
            0 <= i < spec_digits(n).len() ==> '\u{0}' <= #[trigger] spec_digits(n)[i]
                <= '\u{7f}');
    }
}

fn digit_str(d: u64) -> (r: &'static str)
    requires
        d < 10,
    ensures
        r@ == seq![spec_digit_char(d as nat)],
        r@.len() == 1,
{
    let r = if d == 0 {
        "0"
    } else if d == 1 {
        "1"
    } else if d == 2 {
        "2"
    } else if d == 3 {
        "3"
    } else if d == 4 {
        "4"
    } else if d == 5 {
        "5"
    } else if d == 6 {
        "6"
    } else if d == 7 {
        "7"
    } else if d == 8 {
        "8"
    } else {
        "9"
    };
    proof {
        reveal_strlit("0");
        reveal_strlit("1");
        reveal_strlit("2");
        reveal_strlit("3");
        reveal_strlit("4");
        reveal_strlit("5");
        reveal_strlit("6");
        reveal_strlit("7");
        reveal_strlit("8");
        reveal_strlit("9");
        assert(r@ =~= seq![spec_digit_char(d as nat)]);
    }
    r
}

/// Appends the decimal form of `n`.
pub fn push_digits(out: &mut String, n: u64)
    ensures
        final(out)@ == old(out)@ + spec_digits(n as nat),
    decreases n,
{
    if n < 10 {
        out.append(digit_str(n));
    } else {
        push_digits(out, n / 10);
        out.append(digit_str(n % 10));
        proof {
            assert(out@ =~= old(out)@ + spec_digits(n as nat));
        }
    }
}

/// Appends the decimal form of `n`, zero-padded to twelve places.
pub fn push_padded12(out: &mut String, n: u64)
    ensures
        final(out)@ == old(out)@ + spec_padded12(n as nat),
{
    let mut m = n;
    let mut c: u64 = 1;
    proof {
        lemma_digits_len(n as nat);
        lemma_num_digits_u64(n);
    }
    while m >= 10
        invariant
            1 <= c,
            spec_num_digits(n as nat) == c - 1 + spec_num_digits(m as nat),
            spec_num_digits(n as nat) <= 20,
        decreases m,
    {
        proof {
            assert(spec_num_digits(m as nat) == 1 + spec_num_digits((m / 10) as nat));
            assert(spec_num_digits((m / 10) as nat) >= 1);
        }
        m = m / 10;
        c = c + 1;
    }
    proof {
        assert(spec_num_digits(m as nat) == 1);
        assert(c == spec_digits(n as nat).len());
    }
    let mut k: u64 = c;
    proof {
        reveal_strlit("0");
        assert(out@ =~= old(out)@ + Seq::new(0, |i: int| '0'));
    }
    while k < 12
        invariant
            c <= k <= 12 || (c > 12 && k == c),
            c == spec_digits(n as nat).len(),
            k - c <= 12,
            out@ == old(out)@ + Seq::new((k - c) as nat, |i: int| '0'),
        decreases 12 - k,
    {
        out.append("0");
        proof {
            reveal_strlit("0");
            assert(out@ =~= old(out)@ + Seq::new((k + 1 - c) as nat, |i: int| '0'));
        }
        k = k + 1;
    }
    push_digits(out, n);
    proof {
        if spec_digits(n as nat).len() >= 12 {
            assert(out@ =~= old(out)@ + spec_padded12(n as nat));
        } else {
            assert(out@ =~= old(out)@ + spec_padded12(n as nat));
        }
    }
}

// ---------------------------------------------------------------------------
// Live endpoints
// ---------------------------------------------------------------------------

/// The base URL of the live block service for a chain.
pub open spec fn spec_live_base(chain_id: ChainId) -> Seq<char> {
    match chain_id {
        ChainId::Mainnet => "https://mainnet.neardata.xyz"@,
        ChainId::Testnet => "https://testnet.neardata.xyz"@,
    }
}

/// The live-service URL for a path suffix.
pub fn target_url(suffix: &str, chain_id: ChainId) -> (r: String)
    ensures
        r@ == spec_live_base(chain_id) + suffix@,
{
    let base = match chain_id {
        ChainId::Mainnet => "https://mainnet.neardata.xyz",
        ChainId::Testnet => "https://testnet.neardata.xyz",
    };
    String::from_str(base).concat(suffix)
}

/// The path of the tip-of-chain endpoint for a finality.
pub fn last_block_suffix(finality: &Finality) -> (r: &'static str)
    ensures
        *finality == Finality::Final ==> r@ == "/v0/last_block/final"@,
        *finality == Finality::Optimistic ==> r@ == "/v0/last_block/optimistic"@,
{
    match finality {
        Finality::Final => "/v0/last_block/final",
        Finality::Optimistic => "/v0/last_block/optimistic",
    }
}

/// The path of the single-block endpoint for a height and finality.
pub open spec fn spec_block_suffix(height: u64, finality: Finality) -> Seq<char> {
    match finality {
        Finality::Final => "/v0/block/"@ + spec_digits(height as nat),
        Finality::Optimistic => "/v0/block_opt/"@ + spec_digits(height as nat),
    }
}

pub fn block_suffix(height: u64, finality: &Finality) -> (r: String)
    ensures
        r@ == spec_block_suffix(height, *finality),
{
    let mut out = match finality {
        Finality::Final => String::from_str("/v0/block/"),
        Finality::Optimistic => String::from_str("/v0/block_opt/"),
    };
    push_digits(&mut out, height);
    out
}

// ---------------------------------------------------------------------------
// Archive bundles
// ---------------------------------------------------------------------------

/// Which mainnet archive bucket serves a height: the index of the first
/// boundary strictly above it.
pub open spec fn spec_mainnet_bucket(height: u64) -> nat {
    if height < MAINNET_ARCHIVE_BOUNDARY_0 {
        0
    } else if height < MAINNET_ARCHIVE_BOUNDARY_1 {
        1
    } else {
        2
    }
}

/// The base URL an archive bundle is fetched from.
pub open spec fn spec_archive_prefix(chain_id: ChainId, enable_r2: bool, height: u64) -> Seq<
    char,
> {
    if chain_id == ChainId::Mainnet && enable_r2 && height <= MAINNET_R2_LAST_BLOCK_HEIGHT {
        "https://archive.data.fastnear.com/mainnet/"@
    } else if chain_id == ChainId::Testnet && enable_r2 && height
        <= TESTNET_ARCHIVE_LAST_BLOCK_HEIGHT {
        "https://archive.data.fastnear.com/testnet/"@
    } else if chain_id == ChainId::Mainnet {
        "https://a"@ + spec_digits(spec_mainnet_bucket(height)) + ".mainnet.neardata.xyz/raw/"@
    } else {
        "https://testnet.neardata.xyz/raw/"@
    }
}

/// The bundle path for a twelve-digit zero-padded height `H`:
/// `H[0:6]/H[6:9]/H.tgz`.
pub open spec fn spec_archive_suffix(height: u64) -> Seq<char> {
    let h = spec_padded12(height as nat);
    h.subrange(0, 6) + "/"@ + h.subrange(6, 9) + "/"@ + h + ".tgz"@
}

pub open spec fn spec_archive_url(chain_id: ChainId, enable_r2: bool, height: u64) -> Seq<char> {
    spec_archive_prefix(chain_id, enable_r2, height) + spec_archive_suffix(height)
}

/// The URL of the archive bundle that starts at `height`.
pub fn archive_url(chain_id: ChainId, enable_r2: bool, height: u64) -> (r: String)
    ensures
        r@ == spec_archive_url(chain_id, enable_r2, height),
{
    let mut out: String;
    if (match chain_id {
        ChainId::Mainnet => enable_r2 && height <= MAINNET_R2_LAST_BLOCK_HEIGHT,
        ChainId::Testnet => false,
    }) {
        out = String::from_str("https://archive.data.fastnear.com/mainnet/");
    } else if (match chain_id {
        ChainId::Mainnet => false,
        ChainId::Testnet => enable_r2 && height <= TESTNET_ARCHIVE_LAST_BLOCK_HEIGHT,
    }) {
        out = String::from_str("https://archive.data.fastnear.com/testnet/");
    } else if (match chain_id {
        ChainId::Mainnet => true,
        ChainId::Testnet => false,
    }) {
        out = String::from_str("https://a");
        let bucket: u64 = if height < MAINNET_ARCHIVE_BOUNDARY_0 {
            0
        } else if height < MAINNET_ARCHIVE_BOUNDARY_1 {
            1
        } else {
            2
        };
        push_digits(&mut out, bucket);
        out.append(".mainnet.neardata.xyz/raw/");
    } else {
        out = String::from_str("https://testnet.neardata.xyz/raw/");
    }
    proof {
        assert(out@ =~= spec_archive_prefix(chain_id, enable_r2, height));
    }
    let ghost prefix = out@;
    let mut padded = String::new();
    push_padded12(&mut padded, height);
    proof {
        lemma_digits_ascii(height as nat);
        assert(vstd::utf8::is_ascii_chars(padded@)) by {
            assert(forall|i: int|
                0 <= i < padded@.len() ==> '\u{0}' <= #[trigger] padded@[i] <= '\u{7f}');
        }
        assert(padded@.len() >= 12);
    }
    let p = padded.as_str();
    let head = p.substring_ascii(0, 6);
    let mid = p.substring_ascii(6, 9);
    out.append(head);
    out.append("/");
    out.append(mid);
    out.append("/");
    out.append(p);
    out.append(".tgz");
    proof {
        assert(out@ =~= prefix + spec_archive_suffix(height));
    }
    out
}

} // verus!
