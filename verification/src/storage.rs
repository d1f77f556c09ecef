//! The versioned binary snapshot of a `FlatState`: byte layout, writer,
//! reader, and the proof that loading undoes saving.
//!
//! Layout: one version byte, then the configuration, the block header, the
//! block hash, and the four maps of the projection, all little-endian and
//! length-prefixed.

use vstd::prelude::*;
use vstd::bytes::{spec_u128_to_le_bytes, spec_u64_to_le_bytes};
use crate::codec::{
    dec_matches, enc_list, enc_seq, enc_tuple2, lemma_dec_enc_bytes, lemma_dec_enc_list,
    lemma_dec_enc_u128, lemma_dec_enc_u64, lemma_dec_enc_u8, lemma_dec_matches_tuple2,
    lemma_subrange_split, sdec_bytes, sdec_list, sdec_tuple2, sdec_u128, sdec_u64, sdec_u8,
    spec_enc_bytes, wf_tuple2,
};
use crate::codec::{read_bytes, read_u128, read_u64, read_u8, write_bytes, write_u128, write_u64, write_u8};
use vstd::string::StringExecFns;
use crate::data::FlatStateData;
use crate::filter::FlatStateFilter;
use crate::state::{FlatState, FlatStateConfig, FlatStateError};
use crate::types::{
    AccessKey, AccessKeyPermission, AccessKeyPermissionV, AccessKeyV, Account, AccountId,
    AccountV, BlockHeaderInnerLite, ChainId, CryptoHash, PublicKey, PublicKeyV,
};

verus! {

/// The version byte this library writes and the only one it accepts.
pub const FLAT_STATE_VERSION: u8 = 1;

// ---------------------------------------------------------------------------
// Closure builders for the primitive coders
// ---------------------------------------------------------------------------

pub open spec fn bytes_wf() -> spec_fn(Seq<u8>) -> bool {
    |x: Seq<u8>| x.len() <= u64::MAX
}

pub open spec fn bytes_fe() -> spec_fn(Seq<u8>) -> Seq<u8> {
    |x: Seq<u8>| spec_enc_bytes(x)
}

pub open spec fn bytes_fd() -> spec_fn(Seq<u8>, int) -> Option<(Seq<u8>, int)> {
    |s: Seq<u8>, p: int| sdec_bytes(s, p)
}

pub proof fn lemma_bytes_matches()
    ensures
        dec_matches(bytes_wf(), bytes_fe(), bytes_fd()),
{
    let wf = bytes_wf();
    let fe = bytes_fe();
    let fd = bytes_fd();
    assert forall|s: Seq<u8>, pos: int, x: Seq<u8>|
        wf(x) && 0 <= pos && pos + (#[trigger] fe(x)).len() <= s.len() && s.subrange(
            pos,
            pos + fe(x).len() as int,
        ) == fe(x) implies #[trigger] fd(s, pos) == Some((x, pos + fe(x).len())) by {
        lemma_dec_enc_bytes(s, pos, x);
    }
}

// ---------------------------------------------------------------------------
// Options over byte strings, and ranges
// ---------------------------------------------------------------------------

pub open spec fn spec_enc_opt_bytes(o: Option<Seq<u8>>) -> Seq<u8> {
    match o {
        None => seq![0u8],
        Some(b) => seq![1u8] + spec_enc_bytes(b),
    }
}

pub open spec fn sdec_opt_bytes(s: Seq<u8>, pos: int) -> Option<(Option<Seq<u8>>, int)> {
    match sdec_u8(s, pos) {
        Some((tag, p)) => {
            if tag == 0 {
                Some((None, p))
            } else if tag == 1 {
                match sdec_bytes(s, p) {
                    Some((b, q)) => Some((Some(b), q)),
                    None => None,
                }
            } else {
                None
            }
        },
        None => None,
    }
}

pub open spec fn opt_bytes_wf() -> spec_fn(Option<Seq<u8>>) -> bool {
    |o: Option<Seq<u8>>| o matches Some(b) ==> b.len() <= u64::MAX
}

pub open spec fn opt_bytes_fe() -> spec_fn(Option<Seq<u8>>) -> Seq<u8> {
    |o: Option<Seq<u8>>| spec_enc_opt_bytes(o)
}

pub open spec fn opt_bytes_fd() -> spec_fn(Seq<u8>, int) -> Option<(Option<Seq<u8>>, int)> {
    |s: Seq<u8>, p: int| sdec_opt_bytes(s, p)
}

pub proof fn lemma_opt_bytes_matches()
    ensures
        dec_matches(opt_bytes_wf(), opt_bytes_fe(), opt_bytes_fd()),
{
    let wf = opt_bytes_wf();
    let fe = opt_bytes_fe();
    let fd = opt_bytes_fd();
    assert forall|s: Seq<u8>, pos: int, x: Option<Seq<u8>>|
        wf(x) && 0 <= pos && pos + (#[trigger] fe(x)).len() <= s.len() && s.subrange(
            pos,
            pos + fe(x).len() as int,
        ) == fe(x) implies #[trigger] fd(s, pos) == Some((x, pos + fe(x).len())) by {
        match x {
            None => {
                lemma_dec_enc_u8(s, pos, 0u8);
            },
            Some(b) => {
                lemma_subrange_split(s, pos, seq![1u8], spec_enc_bytes(b));
                lemma_dec_enc_u8(s, pos, 1u8);
                lemma_dec_enc_bytes(s, pos + 1, b);
            },
        }
    }
}

pub open spec fn range_wf() -> spec_fn((Option<Seq<u8>>, Option<Seq<u8>>)) -> bool {
    wf_tuple2(opt_bytes_wf(), opt_bytes_wf())
}

pub open spec fn range_fe() -> spec_fn((Option<Seq<u8>>, Option<Seq<u8>>)) -> Seq<u8> {
    enc_tuple2(opt_bytes_fe(), opt_bytes_fe())
}

pub open spec fn range_fd() -> spec_fn(Seq<u8>, int) -> Option<
    ((Option<Seq<u8>>, Option<Seq<u8>>), int),
> {
    sdec_tuple2(opt_bytes_fd(), opt_bytes_fd())
}

pub proof fn lemma_range_matches()
    ensures
        dec_matches(range_wf(), range_fe(), range_fd()),
{
    lemma_opt_bytes_matches();
    lemma_dec_matches_tuple2(
        opt_bytes_wf(),
        opt_bytes_fe(),
        opt_bytes_fd(),
        opt_bytes_wf(),
        opt_bytes_fe(),
        opt_bytes_fd(),
    );
}

// ---------------------------------------------------------------------------
// Chain id, header, hash
// ---------------------------------------------------------------------------

pub open spec fn spec_enc_chain_id(c: ChainId) -> Seq<u8> {
    match c {
        ChainId::Mainnet => seq![0u8],
        ChainId::Testnet => seq![1u8],
    }
}

pub open spec fn sdec_chain_id(s: Seq<u8>, pos: int) -> Option<(ChainId, int)> {
    match sdec_u8(s, pos) {
        Some((tag, p)) => {
            if tag == 0 {
                Some((ChainId::Mainnet, p))
            } else if tag == 1 {
                Some((ChainId::Testnet, p))
            } else {
                None
            }
        },
        None => None,
    }
}

pub proof fn lemma_dec_enc_chain_id(s: Seq<u8>, pos: int, c: ChainId)
    requires
        0 <= pos,
        pos + spec_enc_chain_id(c).len() <= s.len(),
        s.subrange(pos, pos + spec_enc_chain_id(c).len() as int) == spec_enc_chain_id(c),
    ensures
        sdec_chain_id(s, pos) == Some((c, pos + spec_enc_chain_id(c).len())),
{
    match c {
        ChainId::Mainnet => lemma_dec_enc_u8(s, pos, 0u8),
        ChainId::Testnet => lemma_dec_enc_u8(s, pos, 1u8),
    }
}

pub open spec fn spec_enc_header(h: BlockHeaderInnerLite) -> Seq<u8> {
    spec_u64_to_le_bytes(h.height) + spec_u64_to_le_bytes(h.timestamp_nanosec)
}

pub open spec fn sdec_header(s: Seq<u8>, pos: int) -> Option<(BlockHeaderInnerLite, int)> {
    match sdec_u64(s, pos) {
        Some((height, p)) => match sdec_u64(s, p) {
            Some((timestamp_nanosec, q)) => Some(
                (BlockHeaderInnerLite { height, timestamp_nanosec }, q),
            ),
            None => None,
        },
        None => None,
    }
}

pub proof fn lemma_dec_enc_header(s: Seq<u8>, pos: int, h: BlockHeaderInnerLite)
    requires
        0 <= pos,
        pos + spec_enc_header(h).len() <= s.len(),
        s.subrange(pos, pos + spec_enc_header(h).len() as int) == spec_enc_header(h),
    ensures
        sdec_header(s, pos) == Some((h, pos + spec_enc_header(h).len())),
{
    vstd::bytes::lemma_auto_spec_u64_to_from_le_bytes();
    vstd::bytes::lemma_auto_spec_u128_to_from_le_bytes();
    lemma_subrange_split(
        s,
        pos,
        spec_u64_to_le_bytes(h.height),
        spec_u64_to_le_bytes(h.timestamp_nanosec),
    );
    lemma_dec_enc_u64(s, pos, h.height);
    lemma_dec_enc_u64(s, pos + 8, h.timestamp_nanosec);
}

/// A hash is stored as its raw 32 bytes.
pub open spec fn sdec_hash(s: Seq<u8>, pos: int) -> Option<(Seq<u8>, int)> {
    if 0 <= pos && pos + 32 <= s.len() {
        Some((s.subrange(pos, pos + 32), pos + 32))
    } else {
        None
    }
}

pub proof fn lemma_dec_enc_hash(s: Seq<u8>, pos: int, h: Seq<u8>)
    requires
        0 <= pos,
        h.len() == 32,
        pos + 32 <= s.len(),
        s.subrange(pos, pos + 32) == h,
    ensures
        sdec_hash(s, pos) == Some((h, pos + 32)),
{
}

// ---------------------------------------------------------------------------
// Public keys, permissions, access keys, accounts
// ---------------------------------------------------------------------------

pub open spec fn spec_enc_public_key(k: PublicKeyV) -> Seq<u8> {
    match k {
        PublicKeyV::ED25519(b) => seq![0u8] + spec_enc_bytes(b),
        PublicKeyV::SECP256K1(b) => seq![1u8] + spec_enc_bytes(b),
    }
}

pub open spec fn sdec_public_key(s: Seq<u8>, pos: int) -> Option<(PublicKeyV, int)> {
    match sdec_u8(s, pos) {
        Some((tag, p)) => {
            if tag == 0 {
                match sdec_bytes(s, p) {
                    Some((b, q)) => Some((PublicKeyV::ED25519(b), q)),
                    None => None,
                }
            } else if tag == 1 {
                match sdec_bytes(s, p) {
                    Some((b, q)) => Some((PublicKeyV::SECP256K1(b), q)),
                    None => None,
                }
            } else {
                None
            }
        },
        None => None,
    }
}

pub open spec fn public_key_wf(k: PublicKeyV) -> bool {
    match k {
        PublicKeyV::ED25519(b) => b.len() <= u64::MAX,
        PublicKeyV::SECP256K1(b) => b.len() <= u64::MAX,
    }
}

pub proof fn lemma_dec_enc_public_key(s: Seq<u8>, pos: int, k: PublicKeyV)
    requires
        public_key_wf(k),
        0 <= pos,
        pos + spec_enc_public_key(k).len() <= s.len(),
        s.subrange(pos, pos + spec_enc_public_key(k).len() as int) == spec_enc_public_key(k),
    ensures
        sdec_public_key(s, pos) == Some((k, pos + spec_enc_public_key(k).len())),
{
    match k {
        PublicKeyV::ED25519(b) => {
            lemma_subrange_split(s, pos, seq![0u8], spec_enc_bytes(b));
            lemma_dec_enc_u8(s, pos, 0u8);
            lemma_dec_enc_bytes(s, pos + 1, b);
        },
        PublicKeyV::SECP256K1(b) => {
            lemma_subrange_split(s, pos, seq![1u8], spec_enc_bytes(b));
            lemma_dec_enc_u8(s, pos, 1u8);
            lemma_dec_enc_bytes(s, pos + 1, b);
        },
    }
}

pub open spec fn spec_enc_opt_u128(o: Option<u128>) -> Seq<u8> {
    match o {
        None => seq![0u8],
        Some(x) => seq![1u8] + spec_u128_to_le_bytes(x),
    }
}

pub open spec fn sdec_opt_u128(s: Seq<u8>, pos: int) -> Option<(Option<u128>, int)> {
    match sdec_u8(s, pos) {
        Some((tag, p)) => {
            if tag == 0 {
                Some((None, p))
            } else if tag == 1 {
                match sdec_u128(s, p) {
                    Some((x, q)) => Some((Some(x), q)),
                    None => None,
                }
            } else {
                None
            }
        },
        None => None,
    }
}

pub proof fn lemma_dec_enc_opt_u128(s: Seq<u8>, pos: int, o: Option<u128>)
    requires
        0 <= pos,
        pos + spec_enc_opt_u128(o).len() <= s.len(),
        s.subrange(pos, pos + spec_enc_opt_u128(o).len() as int) == spec_enc_opt_u128(o),
    ensures
        sdec_opt_u128(s, pos) == Some((o, pos + spec_enc_opt_u128(o).len())),
{
    vstd::bytes::lemma_auto_spec_u64_to_from_le_bytes();
    vstd::bytes::lemma_auto_spec_u128_to_from_le_bytes();
    match o {
        None => lemma_dec_enc_u8(s, pos, 0u8),
        Some(x) => {
            lemma_subrange_split(s, pos, seq![1u8], spec_u128_to_le_bytes(x));
            lemma_dec_enc_u8(s, pos, 1u8);
            lemma_dec_enc_u128(s, pos + 1, x);
        },
    }
}

pub open spec fn spec_enc_permission(p: AccessKeyPermissionV) -> Seq<u8> {
    match p {
        AccessKeyPermissionV::FullAccess => seq![0u8],
        AccessKeyPermissionV::FunctionCall { allowance, receiver_id, method_names } => seq![1u8]
            + spec_enc_opt_u128(allowance) + spec_enc_bytes(receiver_id) + enc_list(
            bytes_fe(),
            method_names,
        ),
    }
}

pub open spec fn sdec_permission(s: Seq<u8>, pos: int) -> Option<(AccessKeyPermissionV, int)> {
    match sdec_u8(s, pos) {
        Some((tag, p)) => {
            if tag == 0 {
                Some((AccessKeyPermissionV::FullAccess, p))
            } else if tag == 1 {
                match sdec_opt_u128(s, p) {
                    Some((allowance, p1)) => match sdec_bytes(s, p1) {
                        Some((receiver_id, p2)) => match sdec_list(bytes_fd(), s, p2) {
                            Some((method_names, p3)) => Some(
                                (
                                    AccessKeyPermissionV::FunctionCall {
                                        allowance,
                                        receiver_id,
                                        method_names,
                                    },
                                    p3,
                                ),
                            ),
                            None => None,
                        },
                        None => None,
                    },
                    None => None,
                }
            } else {
                None
            }
        },
        None => None,
    }
}

pub open spec fn permission_wf(p: AccessKeyPermissionV) -> bool {
    match p {
        AccessKeyPermissionV::FullAccess => true,
        AccessKeyPermissionV::FunctionCall { allowance, receiver_id, method_names } => {
            &&& receiver_id.len() <= u64::MAX
            &&& method_names.len() <= u64::MAX
            &&& forall|i: int| 0 <= i < method_names.len() ==> (#[trigger] method_names[i]).len() <= u64::MAX
        },
    }
}

pub proof fn lemma_dec_enc_permission(s: Seq<u8>, pos: int, p: AccessKeyPermissionV)
    requires
        permission_wf(p),
        0 <= pos,
        pos + spec_enc_permission(p).len() <= s.len(),
        s.subrange(pos, pos + spec_enc_permission(p).len() as int) == spec_enc_permission(p),
    ensures
        sdec_permission(s, pos) == Some((p, pos + spec_enc_permission(p).len())),
{
    vstd::bytes::lemma_auto_spec_u64_to_from_le_bytes();
    vstd::bytes::lemma_auto_spec_u128_to_from_le_bytes();
    match p {
        AccessKeyPermissionV::FullAccess => lemma_dec_enc_u8(s, pos, 0u8),
        AccessKeyPermissionV::FunctionCall { allowance, receiver_id, method_names } => {
            let e1 = spec_enc_opt_u128(allowance);
            let e2 = spec_enc_bytes(receiver_id);
            let e3 = enc_list(bytes_fe(), method_names);
            assert(spec_enc_permission(p) =~= seq![1u8] + (e1 + (e2 + e3)));
            lemma_subrange_split(s, pos, seq![1u8], e1 + (e2 + e3));
            lemma_dec_enc_u8(s, pos, 1u8);
            assert(s.subrange(pos + 1, pos + 1 + e1.len() + (e2 + e3).len()) =~= s.subrange(
                pos + 1,
                pos + 1 + (e1 + (e2 + e3)).len() as int,
            ));
            lemma_subrange_split(s, pos + 1, e1, e2 + e3);
            lemma_dec_enc_opt_u128(s, pos + 1, allowance);
            lemma_subrange_split(s, pos + 1 + e1.len(), e2, e3);
            lemma_dec_enc_bytes(s, pos + 1 + e1.len(), receiver_id);
            lemma_bytes_matches();
            lemma_dec_enc_list(
                s,
                pos + 1 + e1.len() + e2.len(),
                method_names,
                bytes_wf(),
                bytes_fe(),
                bytes_fd(),
            );
        },
    }
}

pub open spec fn spec_enc_access_key(k: AccessKeyV) -> Seq<u8> {
    spec_u64_to_le_bytes(k.nonce) + spec_enc_permission(k.permission)
}

pub open spec fn sdec_access_key(s: Seq<u8>, pos: int) -> Option<(AccessKeyV, int)> {
    match sdec_u64(s, pos) {
        Some((nonce, p)) => match sdec_permission(s, p) {
            Some((permission, q)) => Some((AccessKeyV { nonce, permission }, q)),
            None => None,
        },
        None => None,
    }
}

pub open spec fn access_key_wf(k: AccessKeyV) -> bool {
    permission_wf(k.permission)
}

pub proof fn lemma_dec_enc_access_key(s: Seq<u8>, pos: int, k: AccessKeyV)
    requires
        access_key_wf(k),
        0 <= pos,
        pos + spec_enc_access_key(k).len() <= s.len(),
        s.subrange(pos, pos + spec_enc_access_key(k).len() as int) == spec_enc_access_key(k),
    ensures
        sdec_access_key(s, pos) == Some((k, pos + spec_enc_access_key(k).len())),
{
    vstd::bytes::lemma_auto_spec_u64_to_from_le_bytes();
    vstd::bytes::lemma_auto_spec_u128_to_from_le_bytes();
    lemma_subrange_split(s, pos, spec_u64_to_le_bytes(k.nonce), spec_enc_permission(k.permission));
    lemma_dec_enc_u64(s, pos, k.nonce);
    lemma_dec_enc_permission(s, pos + 8, k.permission);
}

pub open spec fn spec_enc_account(a: AccountV) -> Seq<u8> {
    spec_u128_to_le_bytes(a.amount) + spec_u128_to_le_bytes(a.locked) + a.code_hash
        + spec_u64_to_le_bytes(a.storage_usage)
}

pub open spec fn sdec_account(s: Seq<u8>, pos: int) -> Option<(AccountV, int)> {
    match sdec_u128(s, pos) {
        Some((amount, p1)) => match sdec_u128(s, p1) {
            Some((locked, p2)) => match sdec_hash(s, p2) {
                Some((code_hash, p3)) => match sdec_u64(s, p3) {
                    Some((storage_usage, p4)) => Some(
                        (AccountV { amount, locked, code_hash, storage_usage }, p4),
                    ),
                    None => None,
                },
                None => None,
            },
            None => None,
        },
        None => None,
    }
}

pub open spec fn account_wf(a: AccountV) -> bool {
    a.code_hash.len() == 32
}

pub proof fn lemma_dec_enc_account(s: Seq<u8>, pos: int, a: AccountV)
    requires
        account_wf(a),
        0 <= pos,
        pos + spec_enc_account(a).len() <= s.len(),
        s.subrange(pos, pos + spec_enc_account(a).len() as int) == spec_enc_account(a),
    ensures
        sdec_account(s, pos) == Some((a, pos + spec_enc_account(a).len())),
{
    vstd::bytes::lemma_auto_spec_u64_to_from_le_bytes();
    vstd::bytes::lemma_auto_spec_u128_to_from_le_bytes();
    let e1 = spec_u128_to_le_bytes(a.amount);
    let e2 = spec_u128_to_le_bytes(a.locked);
    let e3 = a.code_hash;
    let e4 = spec_u64_to_le_bytes(a.storage_usage);
    assert(spec_enc_account(a) =~= e1 + (e2 + (e3 + e4)));
    assert(s.subrange(pos, pos + e1.len() + (e2 + (e3 + e4)).len()) =~= s.subrange(
        pos,
        pos + spec_enc_account(a).len() as int,
    ));
    lemma_subrange_split(s, pos, e1, e2 + (e3 + e4));
    lemma_dec_enc_u128(s, pos, a.amount);
    lemma_subrange_split(s, pos + 16, e2, e3 + e4);
    lemma_dec_enc_u128(s, pos + 16, a.locked);
    lemma_subrange_split(s, pos + 32, e3, e4);
    lemma_dec_enc_hash(s, pos + 32, a.code_hash);
    lemma_dec_enc_u64(s, pos + 32 + 32, a.storage_usage);
}


// ---------------------------------------------------------------------------
// Entries of the four maps
// ---------------------------------------------------------------------------

pub open spec fn account_wf_fn() -> spec_fn(AccountV) -> bool {
    |a: AccountV| account_wf(a)
}

pub open spec fn account_fe() -> spec_fn(AccountV) -> Seq<u8> {
    |a: AccountV| spec_enc_account(a)
}

pub open spec fn account_fd() -> spec_fn(Seq<u8>, int) -> Option<(AccountV, int)> {
    |s: Seq<u8>, p: int| sdec_account(s, p)
}

pub proof fn lemma_account_matches()
    ensures
        dec_matches(account_wf_fn(), account_fe(), account_fd()),
{
    let wf = account_wf_fn();
    let fe = account_fe();
    let fd = account_fd();
    assert forall|s: Seq<u8>, pos: int, x: AccountV|
        wf(x) && 0 <= pos && pos + (#[trigger] fe(x)).len() <= s.len() && s.subrange(
            pos,
            pos + fe(x).len() as int,
        ) == fe(x) implies #[trigger] fd(s, pos) == Some((x, pos + fe(x).len())) by {
        lemma_dec_enc_account(s, pos, x);
    }
}

pub open spec fn public_key_wf_fn() -> spec_fn(PublicKeyV) -> bool {
    |k: PublicKeyV| public_key_wf(k)
}

pub open spec fn public_key_fe() -> spec_fn(PublicKeyV) -> Seq<u8> {
    |k: PublicKeyV| spec_enc_public_key(k)
}

pub open spec fn public_key_fd() -> spec_fn(Seq<u8>, int) -> Option<(PublicKeyV, int)> {
    |s: Seq<u8>, p: int| sdec_public_key(s, p)
}

pub proof fn lemma_public_key_matches()
    ensures
        dec_matches(public_key_wf_fn(), public_key_fe(), public_key_fd()),
{
    let wf = public_key_wf_fn();
    let fe = public_key_fe();
    let fd = public_key_fd();
    assert forall|s: Seq<u8>, pos: int, x: PublicKeyV|
        wf(x) && 0 <= pos && pos + (#[trigger] fe(x)).len() <= s.len() && s.subrange(
            pos,
            pos + fe(x).len() as int,
        ) == fe(x) implies #[trigger] fd(s, pos) == Some((x, pos + fe(x).len())) by {
        lemma_dec_enc_public_key(s, pos, x);
    }
}

pub open spec fn access_key_wf_fn() -> spec_fn(AccessKeyV) -> bool {
    |k: AccessKeyV| access_key_wf(k)
}

pub open spec fn access_key_fe() -> spec_fn(AccessKeyV) -> Seq<u8> {
    |k: AccessKeyV| spec_enc_access_key(k)
}

pub open spec fn access_key_fd() -> spec_fn(Seq<u8>, int) -> Option<(AccessKeyV, int)> {
    |s: Seq<u8>, p: int| sdec_access_key(s, p)
}

pub proof fn lemma_access_key_matches()
    ensures
        dec_matches(access_key_wf_fn(), access_key_fe(), access_key_fd()),
{
    let wf = access_key_wf_fn();
    let fe = access_key_fe();
    let fd = access_key_fd();
    assert forall|s: Seq<u8>, pos: int, x: AccessKeyV|
        wf(x) && 0 <= pos && pos + (#[trigger] fe(x)).len() <= s.len() && s.subrange(
            pos,
            pos + fe(x).len() as int,
        ) == fe(x) implies #[trigger] fd(s, pos) == Some((x, pos + fe(x).len())) by {
        lemma_dec_enc_access_key(s, pos, x);
    }
}

// account entries: (key, account)
pub open spec fn acct_entry_wf() -> spec_fn((Seq<u8>, AccountV)) -> bool {
    wf_tuple2(bytes_wf(), account_wf_fn())
}

pub open spec fn acct_entry_fe() -> spec_fn((Seq<u8>, AccountV)) -> Seq<u8> {
    enc_tuple2(bytes_fe(), account_fe())
}

pub open spec fn acct_entry_fd() -> spec_fn(Seq<u8>, int) -> Option<((Seq<u8>, AccountV), int)> {
    sdec_tuple2(bytes_fd(), account_fd())
}

pub proof fn lemma_acct_entry_matches()
    ensures
        dec_matches(acct_entry_wf(), acct_entry_fe(), acct_entry_fd()),
{
    lemma_bytes_matches();
    lemma_account_matches();
    lemma_dec_matches_tuple2(
        bytes_wf(),
        bytes_fe(),
        bytes_fd(),
        account_wf_fn(),
        account_fe(),
        account_fd(),
    );
}

// access-key entries: (public key, access key)
pub open spec fn ak_entry_wf() -> spec_fn((PublicKeyV, AccessKeyV)) -> bool {
    wf_tuple2(public_key_wf_fn(), access_key_wf_fn())
}

pub open spec fn ak_entry_fe() -> spec_fn((PublicKeyV, AccessKeyV)) -> Seq<u8> {
    enc_tuple2(public_key_fe(), access_key_fe())
}

pub open spec fn ak_entry_fd() -> spec_fn(Seq<u8>, int) -> Option<
    ((PublicKeyV, AccessKeyV), int),
> {
    sdec_tuple2(public_key_fd(), access_key_fd())
}

pub proof fn lemma_ak_entry_matches()
    ensures
        dec_matches(ak_entry_wf(), ak_entry_fe(), ak_entry_fd()),
{
    lemma_public_key_matches();
    lemma_access_key_matches();
    lemma_dec_matches_tuple2(
        public_key_wf_fn(),
        public_key_fe(),
        public_key_fd(),
        access_key_wf_fn(),
        access_key_fe(),
        access_key_fd(),
    );
}

// the inner access-key list as one element
pub open spec fn ak_inner_wf() -> spec_fn(Seq<(PublicKeyV, AccessKeyV)>) -> bool {
    |xs: Seq<(PublicKeyV, AccessKeyV)>|
        xs.len() <= u64::MAX && forall|i: int| 0 <= i < xs.len() ==> ak_entry_wf()(#[trigger] xs[i])
}

pub open spec fn ak_inner_fe() -> spec_fn(Seq<(PublicKeyV, AccessKeyV)>) -> Seq<u8> {
    |xs: Seq<(PublicKeyV, AccessKeyV)>| enc_list(ak_entry_fe(), xs)
}

pub open spec fn ak_inner_fd() -> spec_fn(Seq<u8>, int) -> Option<
    (Seq<(PublicKeyV, AccessKeyV)>, int),
> {
    |s: Seq<u8>, p: int| sdec_list(ak_entry_fd(), s, p)
}

pub proof fn lemma_ak_inner_matches()
    ensures
        dec_matches(ak_inner_wf(), ak_inner_fe(), ak_inner_fd()),
{
    lemma_ak_entry_matches();
    let wf = ak_inner_wf();
    let fe = ak_inner_fe();
    let fd = ak_inner_fd();
    assert forall|s: Seq<u8>, pos: int, x: Seq<(PublicKeyV, AccessKeyV)>|
        wf(x) && 0 <= pos && pos + (#[trigger] fe(x)).len() <= s.len() && s.subrange(
            pos,
            pos + fe(x).len() as int,
        ) == fe(x) implies #[trigger] fd(s, pos) == Some((x, pos + fe(x).len())) by {
        lemma_dec_enc_list(s, pos, x, ak_entry_wf(), ak_entry_fe(), ak_entry_fd());
    }
}

// outer access-key entries: (key, inner list)
pub open spec fn ak_outer_wf() -> spec_fn((Seq<u8>, Seq<(PublicKeyV, AccessKeyV)>)) -> bool {
    wf_tuple2(bytes_wf(), ak_inner_wf())
}

pub open spec fn ak_outer_fe() -> spec_fn((Seq<u8>, Seq<(PublicKeyV, AccessKeyV)>)) -> Seq<u8> {
    enc_tuple2(bytes_fe(), ak_inner_fe())
}

pub open spec fn ak_outer_fd() -> spec_fn(Seq<u8>, int) -> Option<
    ((Seq<u8>, Seq<(PublicKeyV, AccessKeyV)>), int),
> {
    sdec_tuple2(bytes_fd(), ak_inner_fd())
}

pub proof fn lemma_ak_outer_matches()
    ensures
        dec_matches(ak_outer_wf(), ak_outer_fe(), ak_outer_fd()),
{
    lemma_bytes_matches();
    lemma_ak_inner_matches();
    lemma_dec_matches_tuple2(
        bytes_wf(),
        bytes_fe(),
        bytes_fd(),
        ak_inner_wf(),
        ak_inner_fe(),
        ak_inner_fd(),
    );
}

// pairs of byte strings: contract-code entries and storage entries
pub open spec fn bytes_pair_wf() -> spec_fn((Seq<u8>, Seq<u8>)) -> bool {
    wf_tuple2(bytes_wf(), bytes_wf())
}

pub open spec fn bytes_pair_fe() -> spec_fn((Seq<u8>, Seq<u8>)) -> Seq<u8> {
    enc_tuple2(bytes_fe(), bytes_fe())
}

pub open spec fn bytes_pair_fd() -> spec_fn(Seq<u8>, int) -> Option<((Seq<u8>, Seq<u8>), int)> {
    sdec_tuple2(bytes_fd(), bytes_fd())
}

pub proof fn lemma_bytes_pair_matches()
    ensures
        dec_matches(bytes_pair_wf(), bytes_pair_fe(), bytes_pair_fd()),
{
    lemma_bytes_matches();
    lemma_dec_matches_tuple2(
        bytes_wf(),
        bytes_fe(),
        bytes_fd(),
        bytes_wf(),
        bytes_fe(),
        bytes_fd(),
    );
}

// the inner storage list as one element
pub open spec fn data_inner_wf() -> spec_fn(Seq<(Seq<u8>, Seq<u8>)>) -> bool {
    |xs: Seq<(Seq<u8>, Seq<u8>)>|
        xs.len() <= u64::MAX && forall|i: int|
            0 <= i < xs.len() ==> bytes_pair_wf()(#[trigger] xs[i])
}

pub open spec fn data_inner_fe() -> spec_fn(Seq<(Seq<u8>, Seq<u8>)>) -> Seq<u8> {
    |xs: Seq<(Seq<u8>, Seq<u8>)>| enc_list(bytes_pair_fe(), xs)
}

pub open spec fn data_inner_fd() -> spec_fn(Seq<u8>, int) -> Option<
    (Seq<(Seq<u8>, Seq<u8>)>, int),
> {
    |s: Seq<u8>, p: int| sdec_list(bytes_pair_fd(), s, p)
}

pub proof fn lemma_data_inner_matches()
    ensures
        dec_matches(data_inner_wf(), data_inner_fe(), data_inner_fd()),
{
    lemma_bytes_pair_matches();
    let wf = data_inner_wf();
    let fe = data_inner_fe();
    let fd = data_inner_fd();
    assert forall|s: Seq<u8>, pos: int, x: Seq<(Seq<u8>, Seq<u8>)>|
        wf(x) && 0 <= pos && pos + (#[trigger] fe(x)).len() <= s.len() && s.subrange(
            pos,
            pos + fe(x).len() as int,
        ) == fe(x) implies #[trigger] fd(s, pos) == Some((x, pos + fe(x).len())) by {
        lemma_dec_enc_list(s, pos, x, bytes_pair_wf(), bytes_pair_fe(), bytes_pair_fd());
    }
}

// outer storage entries: (key, inner list)
pub open spec fn data_outer_wf() -> spec_fn((Seq<u8>, Seq<(Seq<u8>, Seq<u8>)>)) -> bool {
    wf_tuple2(bytes_wf(), data_inner_wf())
}

pub open spec fn data_outer_fe() -> spec_fn((Seq<u8>, Seq<(Seq<u8>, Seq<u8>)>)) -> Seq<u8> {
    enc_tuple2(bytes_fe(), data_inner_fe())
}

pub open spec fn data_outer_fd() -> spec_fn(Seq<u8>, int) -> Option<
    ((Seq<u8>, Seq<(Seq<u8>, Seq<u8>)>), int),
> {
    sdec_tuple2(bytes_fd(), data_inner_fd())
}

pub proof fn lemma_data_outer_matches()
    ensures
        dec_matches(data_outer_wf(), data_outer_fe(), data_outer_fd()),
{
    lemma_bytes_matches();
    lemma_data_inner_matches();
    lemma_dec_matches_tuple2(
        bytes_wf(),
        bytes_fe(),
        bytes_fd(),
        data_inner_wf(),
        data_inner_fe(),
        data_inner_fd(),
    );
}


// ---------------------------------------------------------------------------
// The whole snapshot
// ---------------------------------------------------------------------------

/// Everything a snapshot stores, as ghost data in writing order.
pub struct FlatStateRep {
    pub chain_id: ChainId,
    pub filter_accounts: Seq<Seq<u8>>,
    pub filter_ranges: Seq<(Option<Seq<u8>>, Option<Seq<u8>>)>,
    pub block_header: BlockHeaderInnerLite,
    pub block_hash: Seq<u8>,
    pub accounts: Seq<(Seq<u8>, AccountV)>,
    pub access_keys: Seq<(Seq<u8>, Seq<(PublicKeyV, AccessKeyV)>)>,
    pub data: Seq<(Seq<u8>, Seq<(Seq<u8>, Seq<u8>)>)>,
    pub contracts_code: Seq<(Seq<u8>, Seq<u8>)>,
}

/// Every length in the snapshot fits its prefix and the hash is 32 bytes.
pub open spec fn rep_wf(r: FlatStateRep) -> bool {
    &&& r.filter_accounts.len() <= u64::MAX
    &&& forall|i: int| 0 <= i < r.filter_accounts.len() ==> bytes_wf()(#[trigger] r.filter_accounts[i])
    &&& r.filter_ranges.len() <= u64::MAX
    &&& forall|i: int| 0 <= i < r.filter_ranges.len() ==> range_wf()(#[trigger] r.filter_ranges[i])
    &&& r.block_hash.len() == 32
    &&& r.accounts.len() <= u64::MAX
    &&& forall|i: int| 0 <= i < r.accounts.len() ==> acct_entry_wf()(#[trigger] r.accounts[i])
    &&& r.access_keys.len() <= u64::MAX
    &&& forall|i: int| 0 <= i < r.access_keys.len() ==> ak_outer_wf()(#[trigger] r.access_keys[i])
    &&& r.data.len() <= u64::MAX
    &&& forall|i: int| 0 <= i < r.data.len() ==> data_outer_wf()(#[trigger] r.data[i])
    &&& r.contracts_code.len() <= u64::MAX
    &&& forall|i: int| 0 <= i < r.contracts_code.len() ==> bytes_pair_wf()(
        #[trigger] r.contracts_code[i],
    )
}

/// The snapshot body, after the version byte.
pub open spec fn spec_enc_body(r: FlatStateRep) -> Seq<u8> {
    spec_enc_chain_id(r.chain_id) + (enc_list(bytes_fe(), r.filter_accounts) + (enc_list(
        range_fe(),
        r.filter_ranges,
    ) + (spec_enc_header(r.block_header) + (r.block_hash + (enc_list(acct_entry_fe(), r.accounts)
        + (enc_list(ak_outer_fe(), r.access_keys) + (enc_list(data_outer_fe(), r.data) + enc_list(
        bytes_pair_fe(),
        r.contracts_code,
    ))))))))
}

/// A whole snapshot: the version byte, then the body.
pub open spec fn spec_enc_state(r: FlatStateRep) -> Seq<u8> {
    seq![FLAT_STATE_VERSION] + spec_enc_body(r)
}

pub open spec fn sdec_body(s: Seq<u8>, pos: int) -> Option<(FlatStateRep, int)> {
    match sdec_chain_id(s, pos) {
        Some((chain_id, p1)) => match sdec_list(bytes_fd(), s, p1) {
            Some((filter_accounts, p2)) => match sdec_list(range_fd(), s, p2) {
                Some((filter_ranges, p3)) => match sdec_header(s, p3) {
                    Some((block_header, p4)) => match sdec_hash(s, p4) {
                        Some((block_hash, p5)) => match sdec_list(acct_entry_fd(), s, p5) {
                            Some((accounts, p6)) => match sdec_list(ak_outer_fd(), s, p6) {
                                Some((access_keys, p7)) => match sdec_list(
                                    data_outer_fd(),
                                    s,
                                    p7,
                                ) {
                                    Some((data, p8)) => match sdec_list(bytes_pair_fd(), s, p8) {
                                        Some((contracts_code, p9)) => Some(
                                            (
                                                FlatStateRep {
                                                    chain_id,
                                                    filter_accounts,
                                                    filter_ranges,
                                                    block_header,
                                                    block_hash,
                                                    accounts,
                                                    access_keys,
                                                    data,
                                                    contracts_code,
                                                },
                                                p9,
                                            ),
                                        ),
                                        None => None,
                                    },
                                    None => None,
                                },
                                None => None,
                            },
                            None => None,
                        },
                        None => None,
                    },
                    None => None,
                },
                None => None,
            },
            None => None,
        },
        None => None,
    }
}

/// Decoding a snapshot body undoes encoding it, wherever it sits and
/// whatever follows it.
#[verifier::rlimit(100)]
pub proof fn lemma_dec_enc_body(s: Seq<u8>, pos: int, r: FlatStateRep)
    requires
        rep_wf(r),
        0 <= pos,
        pos + spec_enc_body(r).len() <= s.len(),
        s.subrange(pos, pos + spec_enc_body(r).len() as int) == spec_enc_body(r),
    ensures
        sdec_body(s, pos) == Some((r, pos + spec_enc_body(r).len())),
{
    let e1 = spec_enc_chain_id(r.chain_id);
    let e2 = enc_list(bytes_fe(), r.filter_accounts);
    let e3 = enc_list(range_fe(), r.filter_ranges);
    let e4 = spec_enc_header(r.block_header);
    let e5 = r.block_hash;
    let e6 = enc_list(acct_entry_fe(), r.accounts);
    let e7 = enc_list(ak_outer_fe(), r.access_keys);
    let e8 = enc_list(data_outer_fe(), r.data);
    let e9 = enc_list(bytes_pair_fe(), r.contracts_code);
    lemma_subrange_split(s, pos, e1, e2 + (e3 + (e4 + (e5 + (e6 + (e7 + (e8 + e9)))))));
    let p1 = pos + e1.len();
    lemma_dec_enc_chain_id(s, pos, r.chain_id);
    lemma_subrange_split(s, p1, e2, e3 + (e4 + (e5 + (e6 + (e7 + (e8 + e9))))));
    let p2 = p1 + e2.len();
    lemma_bytes_matches();
    lemma_dec_enc_list(s, p1, r.filter_accounts, bytes_wf(), bytes_fe(), bytes_fd());
    lemma_subrange_split(s, p2, e3, e4 + (e5 + (e6 + (e7 + (e8 + e9)))));
    let p3 = p2 + e3.len();
    lemma_range_matches();
    lemma_dec_enc_list(s, p2, r.filter_ranges, range_wf(), range_fe(), range_fd());
    lemma_subrange_split(s, p3, e4, e5 + (e6 + (e7 + (e8 + e9))));
    let p4 = p3 + e4.len();
    lemma_dec_enc_header(s, p3, r.block_header);
    lemma_subrange_split(s, p4, e5, e6 + (e7 + (e8 + e9)));
    let p5 = p4 + e5.len();
    lemma_dec_enc_hash(s, p4, r.block_hash);
    lemma_subrange_split(s, p5, e6, e7 + (e8 + e9));
    let p6 = p5 + e6.len();
    lemma_acct_entry_matches();
    lemma_dec_enc_list(s, p5, r.accounts, acct_entry_wf(), acct_entry_fe(), acct_entry_fd());
    lemma_subrange_split(s, p6, e7, e8 + e9);
    let p7 = p6 + e7.len();
    lemma_ak_outer_matches();
    lemma_dec_enc_list(s, p6, r.access_keys, ak_outer_wf(), ak_outer_fe(), ak_outer_fd());
    lemma_subrange_split(s, p7, e8, e9);
    let p8 = p7 + e8.len();
    lemma_data_outer_matches();
    lemma_dec_enc_list(s, p7, r.data, data_outer_wf(), data_outer_fe(), data_outer_fd());
    lemma_bytes_pair_matches();
    lemma_dec_enc_list(
        s,
        p8,
        r.contracts_code,
        bytes_pair_wf(),
        bytes_pair_fe(),
        bytes_pair_fd(),
    );
}

/// Loading undoes saving: a saved snapshot, with anything appended after
/// it, reads back as the exact value that was saved.
pub proof fn lemma_snapshot_round_trip(r: FlatStateRep, extra: Seq<u8>)
    requires
        rep_wf(r),
    ensures
        ({
            let s = spec_enc_state(r) + extra;
            &&& sdec_u8(s, 0) == Some((FLAT_STATE_VERSION, 1int))
            &&& sdec_body(s, 1) == Some((r, spec_enc_state(r).len() as int))
        }),
{
    let s = spec_enc_state(r) + extra;
    assert(s[0] == FLAT_STATE_VERSION);
    assert(s.subrange(1, 1 + spec_enc_body(r).len() as int) =~= spec_enc_body(r));
    lemma_dec_enc_body(s, 1, r);
}


// ---------------------------------------------------------------------------
// Exec writers
// ---------------------------------------------------------------------------

fn write_chain_id(out: &mut Vec<u8>, c: &ChainId)
    ensures
        final(out)@ == old(out)@ + spec_enc_chain_id(*c),
{
    match c {
        ChainId::Mainnet => write_u8(out, 0),
        ChainId::Testnet => write_u8(out, 1),
    }
}

fn write_header(out: &mut Vec<u8>, h: &BlockHeaderInnerLite)
    ensures
        final(out)@ == old(out)@ + spec_enc_header(*h),
{
    write_u64(out, h.height);
    write_u64(out, h.timestamp_nanosec);
    proof {
        assert(out@ =~= old(out)@ + spec_enc_header(*h));
    }
}

fn write_hash(out: &mut Vec<u8>, h: &CryptoHash)
    ensures
        final(out)@ == old(out)@ + h.0@,
{
    let mut i: usize = 0;
    proof {
        assert(out@ =~= old(out)@ + h.0@.subrange(0, 0));
    }
    while i < 32
        invariant
            i <= 32,
            out@ == old(out)@ + h.0@.subrange(0, i as int),
        decreases 32 - i,
    {
        out.push(h.0[i]);
        proof {
            assert(out@ =~= old(out)@ + h.0@.subrange(0, i + 1));
        }
        i += 1;
    }
    proof {
        assert(out@ =~= old(out)@ + h.0@);
    }
}

fn write_opt_u128(out: &mut Vec<u8>, o: &Option<u128>)
    ensures
        final(out)@ == old(out)@ + spec_enc_opt_u128(*o),
{
    match o {
        Option::None => write_u8(out, 0),
        Option::Some(x) => {
            write_u8(out, 1);
            write_u128(out, *x);
            proof {
                assert(out@ =~= old(out)@ + spec_enc_opt_u128(*o));
            }
        },
    }
}

fn write_public_key(out: &mut Vec<u8>, k: &PublicKey)
    ensures
        final(out)@ == old(out)@ + spec_enc_public_key(k@),
{
    match k {
        PublicKey::ED25519(b) => {
            write_u8(out, 0);
            write_bytes(out, b);
        },
        PublicKey::SECP256K1(b) => {
            write_u8(out, 1);
            write_bytes(out, b);
        },
    }
    proof {
        assert(out@ =~= old(out)@ + spec_enc_public_key(k@));
    }
}

fn write_permission(out: &mut Vec<u8>, p: &AccessKeyPermission)
    ensures
        final(out)@ == old(out)@ + spec_enc_permission(p@),
{
    match p {
        AccessKeyPermission::FullAccess => {
            write_u8(out, 0);
            proof {
                assert(out@ =~= old(out)@ + spec_enc_permission(p@));
            }
        },
        AccessKeyPermission::FunctionCall { allowance, receiver_id, method_names } => {
            write_u8(out, 1);
            write_opt_u128(out, allowance);
            write_bytes(out, receiver_id);
            write_u64(out, method_names.len() as u64);
            let ghost mnv = method_names.deep_view();
            let ghost base = out@;
            let mut i: usize = 0;
            proof {
                assert(out@ =~= base + enc_seq(bytes_fe(), mnv.take(0)));
            }
            while i < method_names.len()
                invariant
                    i <= mnv.len(),
                    mnv.len() == method_names@.len(),
                    mnv == method_names.deep_view(),
                    out@ == base + enc_seq(bytes_fe(), mnv.take(i as int)),
                decreases mnv.len() - i,
            {
                write_bytes(out, &method_names[i]);
                proof {
                    crate::codec::lemma_enc_seq_push(bytes_fe(), mnv.take(i as int), mnv[i as int]);
                    assert(mnv.take(i + 1) =~= mnv.take(i as int).push(mnv[i as int]));
                    assert(method_names@[i as int].deep_view() =~= method_names@[i as int]@);
                    assert(out@ =~= base + enc_seq(bytes_fe(), mnv.take(i + 1)));
                }
                i += 1;
            }
            proof {
                assert(mnv.take(mnv.len() as int) =~= mnv);
                assert(out@ =~= old(out)@ + spec_enc_permission(p@));
            }
        },
    }
}

fn write_access_key(out: &mut Vec<u8>, k: &AccessKey)
    ensures
        final(out)@ == old(out)@ + spec_enc_access_key(k@),
{
    write_u64(out, k.nonce);
    write_permission(out, &k.permission);
    proof {
        assert(out@ =~= old(out)@ + spec_enc_access_key(k@));
    }
}

fn write_account(out: &mut Vec<u8>, a: &Account)
    ensures
        final(out)@ == old(out)@ + spec_enc_account(a@),
{
    write_u128(out, a.amount);
    write_u128(out, a.locked);
    write_hash(out, &a.code_hash);
    write_u64(out, a.storage_usage);
    proof {
        assert(out@ =~= old(out)@ + spec_enc_account(a@));
    }
}

fn write_opt_account_id(out: &mut Vec<u8>, o: &Option<AccountId>)
    ensures
        final(out)@ == old(out)@ + spec_enc_opt_bytes(o.deep_view()),
{
    match o {
        Option::None => write_u8(out, 0),
        Option::Some(id) => {
            write_u8(out, 1);
            write_bytes(out, &id.bytes);
            proof {
                assert(out@ =~= old(out)@ + spec_enc_opt_bytes(o.deep_view()));
            }
        },
    }
}

fn write_filter_accounts(out: &mut Vec<u8>, v: &Vec<AccountId>)
    ensures
        final(out)@ == old(out)@ + enc_list(bytes_fe(), v.deep_view()),
{
    write_u64(out, v.len() as u64);
    let ghost dv = v.deep_view();
    let ghost base = out@;
    let mut i: usize = 0;
    proof {
        assert(out@ =~= base + enc_seq(bytes_fe(), dv.take(0)));
    }
    while i < v.len()
        invariant
            i <= dv.len(),
            dv.len() == v@.len(),
            dv == v.deep_view(),
            out@ == base + enc_seq(bytes_fe(), dv.take(i as int)),
        decreases dv.len() - i,
    {
        write_bytes(out, &v[i].bytes);
        proof {
            crate::codec::lemma_enc_seq_push(bytes_fe(), dv.take(i as int), dv[i as int]);
            assert(dv.take(i + 1) =~= dv.take(i as int).push(dv[i as int]));
            assert(out@ =~= base + enc_seq(bytes_fe(), dv.take(i + 1)));
        }
        i += 1;
    }
    proof {
        assert(dv.take(dv.len() as int) =~= dv);
        assert(out@ =~= old(out)@ + enc_list(bytes_fe(), dv));
    }
}

fn write_filter_ranges(out: &mut Vec<u8>, v: &Vec<(Option<AccountId>, Option<AccountId>)>)
    ensures
        final(out)@ == old(out)@ + enc_list(range_fe(), v.deep_view()),
{
    write_u64(out, v.len() as u64);
    let ghost dv = v.deep_view();
    let ghost base = out@;
    let mut i: usize = 0;
    proof {
        assert(out@ =~= base + enc_seq(range_fe(), dv.take(0)));
    }
    while i < v.len()
        invariant
            i <= dv.len(),
            dv.len() == v@.len(),
            dv == v.deep_view(),
            out@ == base + enc_seq(range_fe(), dv.take(i as int)),
        decreases dv.len() - i,
    {
        write_opt_account_id(out, &v[i].0);
        write_opt_account_id(out, &v[i].1);
        proof {
            crate::codec::lemma_enc_seq_push(range_fe(), dv.take(i as int), dv[i as int]);
            assert(dv.take(i + 1) =~= dv.take(i as int).push(dv[i as int]));
            assert(range_fe()(dv[i as int]) == spec_enc_opt_bytes(dv[i as int].0)
                + spec_enc_opt_bytes(dv[i as int].1));
            assert(out@ =~= base + enc_seq(range_fe(), dv.take(i + 1)));
        }
        i += 1;
    }
    proof {
        assert(dv.take(dv.len() as int) =~= dv);
        assert(out@ =~= old(out)@ + enc_list(range_fe(), dv));
    }
}

fn write_accounts(out: &mut Vec<u8>, v: &Vec<(AccountId, Account)>)
    ensures
        final(out)@ == old(out)@ + enc_list(acct_entry_fe(), v.deep_view()),
{
    write_u64(out, v.len() as u64);
    let ghost dv = v.deep_view();
    let ghost base = out@;
    let mut i: usize = 0;
    proof {
        assert(out@ =~= base + enc_seq(acct_entry_fe(), dv.take(0)));
    }
    while i < v.len()
        invariant
            i <= dv.len(),
            dv.len() == v@.len(),
            dv == v.deep_view(),
            out@ == base + enc_seq(acct_entry_fe(), dv.take(i as int)),
        decreases dv.len() - i,
    {
        write_bytes(out, &v[i].0.bytes);
        write_account(out, &v[i].1);
        proof {
            crate::codec::lemma_enc_seq_push(acct_entry_fe(), dv.take(i as int), dv[i as int]);
            assert(dv.take(i + 1) =~= dv.take(i as int).push(dv[i as int]));
            assert(acct_entry_fe()(dv[i as int]) == spec_enc_bytes(dv[i as int].0)
                + spec_enc_account(dv[i as int].1));
            assert(out@ =~= base + enc_seq(acct_entry_fe(), dv.take(i + 1)));
        }
        i += 1;
    }
    proof {
        assert(dv.take(dv.len() as int) =~= dv);
        assert(out@ =~= old(out)@ + enc_list(acct_entry_fe(), dv));
    }
}

fn write_ak_inner(out: &mut Vec<u8>, v: &Vec<(PublicKey, AccessKey)>)
    ensures
        final(out)@ == old(out)@ + enc_list(ak_entry_fe(), v.deep_view()),
{
    write_u64(out, v.len() as u64);
    let ghost dv = v.deep_view();
    let ghost base = out@;
    let mut i: usize = 0;
    proof {
        assert(out@ =~= base + enc_seq(ak_entry_fe(), dv.take(0)));
    }
    while i < v.len()
        invariant
            i <= dv.len(),
            dv.len() == v@.len(),
            dv == v.deep_view(),
            out@ == base + enc_seq(ak_entry_fe(), dv.take(i as int)),
        decreases dv.len() - i,
    {
        write_public_key(out, &v[i].0);
        write_access_key(out, &v[i].1);
        proof {
            crate::codec::lemma_enc_seq_push(ak_entry_fe(), dv.take(i as int), dv[i as int]);
            assert(dv.take(i + 1) =~= dv.take(i as int).push(dv[i as int]));
            assert(ak_entry_fe()(dv[i as int]) == spec_enc_public_key(dv[i as int].0)
                + spec_enc_access_key(dv[i as int].1));
            assert(out@ =~= base + enc_seq(ak_entry_fe(), dv.take(i + 1)));
        }
        i += 1;
    }
    proof {
        assert(dv.take(dv.len() as int) =~= dv);
        assert(out@ =~= old(out)@ + enc_list(ak_entry_fe(), dv));
    }
}

fn write_access_keys(out: &mut Vec<u8>, v: &Vec<(AccountId, Vec<(PublicKey, AccessKey)>)>)
    ensures
        final(out)@ == old(out)@ + enc_list(ak_outer_fe(), v.deep_view()),
{
    write_u64(out, v.len() as u64);
    let ghost dv = v.deep_view();
    let ghost base = out@;
    let mut i: usize = 0;
    proof {
        assert(out@ =~= base + enc_seq(ak_outer_fe(), dv.take(0)));
    }
    while i < v.len()
        invariant
            i <= dv.len(),
            dv.len() == v@.len(),
            dv == v.deep_view(),
            out@ == base + enc_seq(ak_outer_fe(), dv.take(i as int)),
        decreases dv.len() - i,
    {
        write_bytes(out, &v[i].0.bytes);
        write_ak_inner(out, &v[i].1);
        proof {
            crate::codec::lemma_enc_seq_push(ak_outer_fe(), dv.take(i as int), dv[i as int]);
            assert(dv.take(i + 1) =~= dv.take(i as int).push(dv[i as int]));
            assert(ak_outer_fe()(dv[i as int]) == spec_enc_bytes(dv[i as int].0) + enc_list(
                ak_entry_fe(),
                dv[i as int].1,
            ));
            assert(out@ =~= base + enc_seq(ak_outer_fe(), dv.take(i + 1)));
        }
        i += 1;
    }
    proof {
        assert(dv.take(dv.len() as int) =~= dv);
        assert(out@ =~= old(out)@ + enc_list(ak_outer_fe(), dv));
    }
}

fn write_data_inner(out: &mut Vec<u8>, v: &Vec<(Vec<u8>, Vec<u8>)>)
    ensures
        final(out)@ == old(out)@ + enc_list(bytes_pair_fe(), v.deep_view()),
{
    write_u64(out, v.len() as u64);
    let ghost dv = v.deep_view();
    let ghost base = out@;
    let mut i: usize = 0;
    proof {
        assert(out@ =~= base + enc_seq(bytes_pair_fe(), dv.take(0)));
    }
    while i < v.len()
        invariant
            i <= dv.len(),
            dv.len() == v@.len(),
            dv == v.deep_view(),
            out@ == base + enc_seq(bytes_pair_fe(), dv.take(i as int)),
        decreases dv.len() - i,
    {
        write_bytes(out, &v[i].0);
        write_bytes(out, &v[i].1);
        proof {
            crate::codec::lemma_enc_seq_push(bytes_pair_fe(), dv.take(i as int), dv[i as int]);
            assert(dv.take(i + 1) =~= dv.take(i as int).push(dv[i as int]));
            assert(v@[i as int].0.deep_view() =~= v@[i as int].0@);
            assert(v@[i as int].1.deep_view() =~= v@[i as int].1@);
            assert(bytes_pair_fe()(dv[i as int]) == spec_enc_bytes(dv[i as int].0)
                + spec_enc_bytes(dv[i as int].1));
            assert(out@ =~= base + enc_seq(bytes_pair_fe(), dv.take(i + 1)));
        }
        i += 1;
    }
    proof {
        assert(dv.take(dv.len() as int) =~= dv);
        assert(out@ =~= old(out)@ + enc_list(bytes_pair_fe(), dv));
    }
}

fn write_data(out: &mut Vec<u8>, v: &Vec<(AccountId, Vec<(Vec<u8>, Vec<u8>)>)>)
    ensures
        final(out)@ == old(out)@ + enc_list(data_outer_fe(), v.deep_view()),
{
    write_u64(out, v.len() as u64);
    let ghost dv = v.deep_view();
    let ghost base = out@;
    let mut i: usize = 0;
    proof {
        assert(out@ =~= base + enc_seq(data_outer_fe(), dv.take(0)));
    }
    while i < v.len()
        invariant
            i <= dv.len(),
            dv.len() == v@.len(),
            dv == v.deep_view(),
            out@ == base + enc_seq(data_outer_fe(), dv.take(i as int)),
        decreases dv.len() - i,
    {
        write_bytes(out, &v[i].0.bytes);
        write_data_inner(out, &v[i].1);
        proof {
            crate::codec::lemma_enc_seq_push(data_outer_fe(), dv.take(i as int), dv[i as int]);
            assert(dv.take(i + 1) =~= dv.take(i as int).push(dv[i as int]));
            assert(data_outer_fe()(dv[i as int]) == spec_enc_bytes(dv[i as int].0) + enc_list(
                bytes_pair_fe(),
                dv[i as int].1,
            ));
            assert(out@ =~= base + enc_seq(data_outer_fe(), dv.take(i + 1)));
        }
        i += 1;
    }
    proof {
        assert(dv.take(dv.len() as int) =~= dv);
        assert(out@ =~= old(out)@ + enc_list(data_outer_fe(), dv));
    }
}

fn write_contracts(out: &mut Vec<u8>, v: &Vec<(AccountId, Vec<u8>)>)
    ensures
        final(out)@ == old(out)@ + enc_list(bytes_pair_fe(), v.deep_view()),
{
    write_u64(out, v.len() as u64);
    let ghost dv = v.deep_view();
    let ghost base = out@;
    let mut i: usize = 0;
    proof {
        assert(out@ =~= base + enc_seq(bytes_pair_fe(), dv.take(0)));
    }
    while i < v.len()
        invariant
            i <= dv.len(),
            dv.len() == v@.len(),
            dv == v.deep_view(),
            out@ == base + enc_seq(bytes_pair_fe(), dv.take(i as int)),
        decreases dv.len() - i,
    {
        write_bytes(out, &v[i].0.bytes);
        write_bytes(out, &v[i].1);
        proof {
            crate::codec::lemma_enc_seq_push(bytes_pair_fe(), dv.take(i as int), dv[i as int]);
            assert(dv.take(i + 1) =~= dv.take(i as int).push(dv[i as int]));
            assert(v@[i as int].1.deep_view() =~= v@[i as int].1@);
            assert(bytes_pair_fe()(dv[i as int]) == spec_enc_bytes(dv[i as int].0)
                + spec_enc_bytes(dv[i as int].1));
            assert(out@ =~= base + enc_seq(bytes_pair_fe(), dv.take(i + 1)));
        }
        i += 1;
    }
    proof {
        assert(dv.take(dv.len() as int) =~= dv);
        assert(out@ =~= old(out)@ + enc_list(bytes_pair_fe(), dv));
    }
}


// ---------------------------------------------------------------------------
// Exec readers
// ---------------------------------------------------------------------------

fn read_chain_id(b: &Vec<u8>, pos: usize) -> (r: Option<(ChainId, usize)>)
    ensures
        match r {
            Some((x, p)) => sdec_chain_id(b@, pos as int) == Some((x, p as int)),
            None => sdec_chain_id(b@, pos as int) is None,
        },
{
    match read_u8(b, pos) {
        Some((tag, p)) => {
            if tag == 0 {
                Some((ChainId::Mainnet, p))
            } else if tag == 1 {
                Some((ChainId::Testnet, p))
            } else {
                None
            }
        },
        None => None,
    }
}

fn read_header(b: &Vec<u8>, pos: usize) -> (r: Option<(BlockHeaderInnerLite, usize)>)
    ensures
        match r {
            Some((x, p)) => sdec_header(b@, pos as int) == Some((x, p as int)),
            None => sdec_header(b@, pos as int) is None,
        },
{
    match read_u64(b, pos) {
        Some((height, p)) => match read_u64(b, p) {
            Some((timestamp_nanosec, q)) => Some(
                (BlockHeaderInnerLite { height, timestamp_nanosec }, q),
            ),
            None => None,
        },
        None => None,
    }
}

fn read_hash(b: &Vec<u8>, pos: usize) -> (r: Option<(CryptoHash, usize)>)
    ensures
        match r {
            Some((x, p)) => sdec_hash(b@, pos as int) == Some((x.0@, p as int)),
            None => sdec_hash(b@, pos as int) is None,
        },
{
    if pos <= b.len() && b.len() - pos >= 32 {
        let mut h: [u8; 32] = [0; 32];
        let mut i: usize = 0;
        while i < 32
            invariant
                i <= 32,
                pos + 32 <= b.len(),
                forall|j: int| 0 <= j < i ==> h@[j] == b@[pos + j],
            decreases 32 - i,
        {
            h[i] = b[pos + i];
            i += 1;
        }
        proof {
            assert(h@ =~= b@.subrange(pos as int, pos + 32));
        }
        Some((CryptoHash(h), pos + 32))
    } else {
        None
    }
}

fn read_opt_u128(b: &Vec<u8>, pos: usize) -> (r: Option<(Option<u128>, usize)>)
    ensures
        match r {
            Some((x, p)) => sdec_opt_u128(b@, pos as int) == Some((x, p as int)),
            None => sdec_opt_u128(b@, pos as int) is None,
        },
{
    match read_u8(b, pos) {
        Some((tag, p)) => {
            if tag == 0 {
                Some((None, p))
            } else if tag == 1 {
                match read_u128(b, p) {
                    Some((x, q)) => Some((Some(x), q)),
                    None => None,
                }
            } else {
                None
            }
        },
        None => None,
    }
}

fn read_public_key(b: &Vec<u8>, pos: usize) -> (r: Option<(PublicKey, usize)>)
    ensures
        match r {
            Some((x, p)) => sdec_public_key(b@, pos as int) == Some((x@, p as int)),
            None => sdec_public_key(b@, pos as int) is None,
        },
{
    match read_u8(b, pos) {
        Some((tag, p)) => {
            if tag == 0 {
                match read_bytes(b, p) {
                    Some((bytes, q)) => Some((PublicKey::ED25519(bytes), q)),
                    None => None,
                }
            } else if tag == 1 {
                match read_bytes(b, p) {
                    Some((bytes, q)) => Some((PublicKey::SECP256K1(bytes), q)),
                    None => None,
                }
            } else {
                None
            }
        },
        None => None,
    }
}

#[verifier::loop_isolation(false)]
fn read_permission(b: &Vec<u8>, pos: usize) -> (r: Option<(AccessKeyPermission, usize)>)
    ensures
        match r {
            Some((x, p)) => sdec_permission(b@, pos as int) == Some((x@, p as int)),
            None => sdec_permission(b@, pos as int) is None,
        },
{
    match read_u8(b, pos) {
        Some((tag, p)) => {
            if tag == 0 {
                Some((AccessKeyPermission::FullAccess, p))
            } else if tag == 1 {
                match read_opt_u128(b, p) {
                    Some((allowance, p1)) => match read_bytes(b, p1) {
                        Some((receiver_id, p2)) => match read_u64(b, p2) {
                            Some((n, p3)) => {
                                let mut names: Vec<Vec<u8>> = Vec::new();
                                let mut cur: usize = p3;
                                let mut k: u64 = 0;
                                let ghost fd = bytes_fd();
                                proof {
                                    assert(names.deep_view() =~= Seq::<Seq<u8>>::empty());
                                    let t0 = crate::codec::sdec_seq(fd, b@, p3 as int, n as nat);
                                    if t0 is Some {
                                        let pair = t0->Some_0;
                                        assert(Seq::<Seq<u8>>::empty() + pair.0 =~= pair.0);
                                    }
                                }
                                while k < n
                                    invariant
                                        k <= n,
                                        fd == bytes_fd(),
                                        sdec_list(fd, b@, p2 as int) == (match crate::codec::sdec_seq(
                                            fd,
                                            b@,
                                            cur as int,
                                            (n - k) as nat,
                                        ) {
                                            Some((rest, q)) => Some(
                                                (names.deep_view() + rest, q),
                                            ),
                                            None => None::<(Seq<Seq<u8>>, int)>,
                                        }),
                                    decreases n - k,
                                {
                                    match read_bytes(b, cur) {
                                        Some((x, q)) => {
                                            let ghost names0 = names.deep_view();
                                            let ghost xv = x@;
                                            proof {
                                                assert(x.deep_view() =~= xv);
                                            }
                                            names.push(x);
                                            proof {
                                                assert(names.deep_view() =~= names0.push(xv));
                                                assert(fd(b@, cur as int) == Some::<(Seq<u8>, int)>(
                                                    (xv, q as int),
                                                ));
                                                let tail = crate::codec::sdec_seq(
                                                    fd,
                                                    b@,
                                                    q as int,
                                                    (n - k - 1) as nat,
                                                );
                                                if tail is Some {
                                                    let pair = tail->Some_0;
                                                    assert(names0 + (seq![xv] + pair.0)
                                                        =~= names0.push(xv) + pair.0);
                                                }
                                            }
                                            cur = q;
                                            k = k + 1;
                                        },
                                        None => {
                                            proof {
                                                assert(fd(b@, cur as int) is None);
                                                assert(crate::codec::sdec_seq(
                                                    fd,
                                                    b@,
                                                    cur as int,
                                                    (n - k) as nat,
                                                ) is None);
                                                assert(sdec_list(bytes_fd(), b@, p2 as int) is None);
                                            }
                                            return None;
                                        },
                                    }
                                }
                                proof {
                                    assert(crate::codec::sdec_seq(fd, b@, cur as int, (n - k) as nat)
                                        == Some::<(Seq<Seq<u8>>, int)>((
                                        Seq::<Seq<u8>>::empty(),
                                        cur as int,
                                    )));
                                    assert(names.deep_view() + Seq::<Seq<u8>>::empty()
                                        =~= names.deep_view());
                                    assert(sdec_list(fd, b@, p2 as int) == Some::<
                                        (Seq<Seq<u8>>, int),
                                    >((names.deep_view(), cur as int)));
                                }
                                Some(
                                    (
                                        AccessKeyPermission::FunctionCall {
                                            allowance,
                                            receiver_id,
                                            method_names: names,
                                        },
                                        cur,
                                    ),
                                )
                            },
                            None => None,
                        },
                        None => None,
                    },
                    None => None,
                }
            } else {
                None
            }
        },
        None => None,
    }
}

fn read_access_key(b: &Vec<u8>, pos: usize) -> (r: Option<(AccessKey, usize)>)
    ensures
        match r {
            Some((x, p)) => sdec_access_key(b@, pos as int) == Some((x@, p as int)),
            None => sdec_access_key(b@, pos as int) is None,
        },
{
    match read_u64(b, pos) {
        Some((nonce, p)) => match read_permission(b, p) {
            Some((permission, q)) => Some((AccessKey { nonce, permission }, q)),
            None => None,
        },
        None => None,
    }
}

fn read_account(b: &Vec<u8>, pos: usize) -> (r: Option<(Account, usize)>)
    ensures
        match r {
            Some((x, p)) => sdec_account(b@, pos as int) == Some((x@, p as int)),
            None => sdec_account(b@, pos as int) is None,
        },
{
    match read_u128(b, pos) {
        Some((amount, p1)) => match read_u128(b, p1) {
            Some((locked, p2)) => match read_hash(b, p2) {
                Some((code_hash, p3)) => match read_u64(b, p3) {
                    Some((storage_usage, p4)) => Some(
                        (Account { amount, locked, code_hash, storage_usage }, p4),
                    ),
                    None => None,
                },
                None => None,
            },
            None => None,
        },
        None => None,
    }
}

fn read_opt_account_id(b: &Vec<u8>, pos: usize) -> (r: Option<(Option<AccountId>, usize)>)
    ensures
        match r {
            Some((x, p)) => sdec_opt_bytes(b@, pos as int) == Some((x.deep_view(), p as int)),
            None => sdec_opt_bytes(b@, pos as int) is None,
        },
{
    match read_u8(b, pos) {
        Some((tag, p)) => {
            if tag == 0 {
                Some((None, p))
            } else if tag == 1 {
                match read_bytes(b, p) {
                    Some((bytes, q)) => Some((Some(AccountId { bytes }), q)),
                    None => None,
                }
            } else {
                None
            }
        },
        None => None,
    }
}






// ---------------------------------------------------------------------------
// Exec list readers
// ---------------------------------------------------------------------------

#[verifier::loop_isolation(false)]
fn read_filter_accounts(b: &Vec<u8>, pos: usize) -> (r: Option<(Vec<AccountId>, usize)>)
    ensures
        match r {
            Some((v, p)) => sdec_list(bytes_fd(), b@, pos as int) == Some((v.deep_view(), p as int)),
            None => sdec_list(bytes_fd(), b@, pos as int) is None,
        },
{
    match read_u64(b, pos) {
        Some((n, p0)) => {
            let mut out: Vec<AccountId> = Vec::new();
            let mut cur: usize = p0;
            let mut k: u64 = 0;
            let ghost fd = bytes_fd();
            proof {
                assert(out.deep_view() =~= Seq::<Seq<u8>>::empty());
                let t0 = crate::codec::sdec_seq(fd, b@, p0 as int, n as nat);
                if t0 is Some {
                    let pair = t0->Some_0;
                    assert(Seq::<Seq<u8>>::empty() + pair.0 =~= pair.0);
                }
            }
            while k < n
                invariant
                    k <= n,
                    sdec_list(fd, b@, pos as int) == (match crate::codec::sdec_seq(
                        fd,
                        b@,
                        cur as int,
                        (n - k) as nat,
                    ) {
                        Some((rest, q)) => Some((out.deep_view() + rest, q)),
                        None => None::<(Seq<Seq<u8>>, int)>,
                    }),
                decreases n - k,
            {
                let (elem, q): (AccountId, usize) = match read_bytes(b, cur) {
                    Some((x, q)) => (AccountId { bytes: x }, q),
                    None => {
                        proof {
                            assert(fd(b@, cur as int) is None);
                            assert(crate::codec::sdec_seq(fd, b@, cur as int, (n - k) as nat)
                                is None);
                        }
                        return None;
                    },
                };
                let ghost out0 = out.deep_view();
                let ghost xv = elem.deep_view();
                proof {
                    assert(fd(b@, cur as int) == Some::<(Seq<u8>, int)>((xv, q as int)));
                }
                out.push(elem);
                proof {
                    assert(out.deep_view() =~= out0.push(xv));
                    let tail = crate::codec::sdec_seq(fd, b@, q as int, (n - k - 1) as nat);
                    if tail is Some {
                        let pr = tail->Some_0;
                        assert(out0 + (seq![xv] + pr.0) =~= out0.push(xv) + pr.0);
                    }
                }
                cur = q;
                k = k + 1;
            }
            proof {
                assert(crate::codec::sdec_seq(fd, b@, cur as int, (n - k) as nat) == Some::<
                    (Seq<Seq<u8>>, int),
                >((Seq::<Seq<u8>>::empty(), cur as int)));
                assert(out.deep_view() + Seq::<Seq<u8>>::empty() =~= out.deep_view());
            }
            Some((out, cur))
        },
        None => None,
    }
}

#[verifier::loop_isolation(false)]
fn read_filter_ranges(b: &Vec<u8>, pos: usize) -> (r: Option<(Vec<(Option<AccountId>, Option<AccountId>)>, usize)>)
    ensures
        match r {
            Some((v, p)) => sdec_list(range_fd(), b@, pos as int) == Some((v.deep_view(), p as int)),
            None => sdec_list(range_fd(), b@, pos as int) is None,
        },
{
    match read_u64(b, pos) {
        Some((n, p0)) => {
            let mut out: Vec<(Option<AccountId>, Option<AccountId>)> = Vec::new();
            let mut cur: usize = p0;
            let mut k: u64 = 0;
            let ghost fd = range_fd();
            proof {
                assert(out.deep_view() =~= Seq::<(Option<Seq<u8>>, Option<Seq<u8>>)>::empty());
                let t0 = crate::codec::sdec_seq(fd, b@, p0 as int, n as nat);
                if t0 is Some {
                    let pair = t0->Some_0;
                    assert(Seq::<(Option<Seq<u8>>, Option<Seq<u8>>)>::empty() + pair.0 =~= pair.0);
                }
            }
            while k < n
                invariant
                    k <= n,
                    sdec_list(fd, b@, pos as int) == (match crate::codec::sdec_seq(
                        fd,
                        b@,
                        cur as int,
                        (n - k) as nat,
                    ) {
                        Some((rest, q)) => Some((out.deep_view() + rest, q)),
                        None => None::<(Seq<(Option<Seq<u8>>, Option<Seq<u8>>)>, int)>,
                    }),
                decreases n - k,
            {
                let (first, p_mid): (Option<AccountId>, usize) = match read_opt_account_id(
                    b,
                    cur,
                ) {
                    Some((x, q1)) => (x, q1),
                    None => {
                        proof {
                            assert(fd(b@, cur as int) is None);
                            assert(crate::codec::sdec_seq(fd, b@, cur as int, (n - k) as nat)
                                is None);
                        }
                        return None;
                    },
                };
                let (elem, q): ((Option<AccountId>, Option<AccountId>), usize) =
                    match read_opt_account_id(b, p_mid) {
                    Some((y, q2)) => ((first, y), q2),
                    None => {
                        proof {
                            assert(fd(b@, cur as int) is None);
                            assert(crate::codec::sdec_seq(fd, b@, cur as int, (n - k) as nat)
                                is None);
                        }
                        return None;
                    },
                };
                let ghost out0 = out.deep_view();
                let ghost xv = elem.deep_view();
                proof {
                    assert(fd(b@, cur as int) == Some::<((Option<Seq<u8>>, Option<Seq<u8>>), int)>(
                        (xv, q as int),
                    ));
                }
                out.push(elem);
                proof {
                    assert(out.deep_view() =~= out0.push(xv));
                    let tail = crate::codec::sdec_seq(fd, b@, q as int, (n - k - 1) as nat);
                    if tail is Some {
                        let pr = tail->Some_0;
                        assert(out0 + (seq![xv] + pr.0) =~= out0.push(xv) + pr.0);
                    }
                }
                cur = q;
                k = k + 1;
            }
            proof {
                assert(crate::codec::sdec_seq(fd, b@, cur as int, (n - k) as nat) == Some::<
                    (Seq<(Option<Seq<u8>>, Option<Seq<u8>>)>, int),
                >((Seq::<(Option<Seq<u8>>, Option<Seq<u8>>)>::empty(), cur as int)));
                assert(out.deep_view() + Seq::<(Option<Seq<u8>>, Option<Seq<u8>>)>::empty() =~= out.deep_view());
            }
            Some((out, cur))
        },
        None => None,
    }
}

#[verifier::loop_isolation(false)]
fn read_accounts(b: &Vec<u8>, pos: usize) -> (r: Option<(Vec<(AccountId, Account)>, usize)>)
    ensures
        match r {
            Some((v, p)) => sdec_list(acct_entry_fd(), b@, pos as int) == Some((v.deep_view(), p as int)),
            None => sdec_list(acct_entry_fd(), b@, pos as int) is None,
        },
{
    match read_u64(b, pos) {
        Some((n, p0)) => {
            let mut out: Vec<(AccountId, Account)> = Vec::new();
            let mut cur: usize = p0;
            let mut k: u64 = 0;
            let ghost fd = acct_entry_fd();
            proof {
                assert(out.deep_view() =~= Seq::<(Seq<u8>, AccountV)>::empty());
                let t0 = crate::codec::sdec_seq(fd, b@, p0 as int, n as nat);
                if t0 is Some {
                    let pair = t0->Some_0;
                    assert(Seq::<(Seq<u8>, AccountV)>::empty() + pair.0 =~= pair.0);
                }
            }
            while k < n
                invariant
                    k <= n,
                    sdec_list(fd, b@, pos as int) == (match crate::codec::sdec_seq(
                        fd,
                        b@,
                        cur as int,
                        (n - k) as nat,
                    ) {
                        Some((rest, q)) => Some((out.deep_view() + rest, q)),
                        None => None::<(Seq<(Seq<u8>, AccountV)>, int)>,
                    }),
                decreases n - k,
            {
                let (key, p_mid): (AccountId, usize) = match read_bytes(b, cur) {
                    Some((x, q1)) => (AccountId { bytes: x }, q1),
                    None => {
                        proof {
                            assert(fd(b@, cur as int) is None);
                            assert(crate::codec::sdec_seq(fd, b@, cur as int, (n - k) as nat)
                                is None);
                        }
                        return None;
                    },
                };
                let (elem, q): ((AccountId, Account), usize) = match read_account(b, p_mid) {
                    Some((y, q2)) => ((key, y), q2),
                    None => {
                        proof {
                            assert(fd(b@, cur as int) is None);
                            assert(crate::codec::sdec_seq(fd, b@, cur as int, (n - k) as nat)
                                is None);
                        }
                        return None;
                    },
                };
                let ghost out0 = out.deep_view();
                let ghost xv = elem.deep_view();
                proof {
                    assert(fd(b@, cur as int) == Some::<((Seq<u8>, AccountV), int)>((
                        xv,
                        q as int,
                    )));
                }
                out.push(elem);
                proof {
                    assert(out.deep_view() =~= out0.push(xv));
                    let tail = crate::codec::sdec_seq(fd, b@, q as int, (n - k - 1) as nat);
                    if tail is Some {
                        let pr = tail->Some_0;
                        assert(out0 + (seq![xv] + pr.0) =~= out0.push(xv) + pr.0);
                    }
                }
                cur = q;
                k = k + 1;
            }
            proof {
                assert(crate::codec::sdec_seq(fd, b@, cur as int, (n - k) as nat) == Some::<
                    (Seq<(Seq<u8>, AccountV)>, int),
                >((Seq::<(Seq<u8>, AccountV)>::empty(), cur as int)));
                assert(out.deep_view() + Seq::<(Seq<u8>, AccountV)>::empty() =~= out.deep_view());
            }
            Some((out, cur))
        },
        None => None,
    }
}

#[verifier::loop_isolation(false)]
fn read_ak_inner(b: &Vec<u8>, pos: usize) -> (r: Option<(Vec<(PublicKey, AccessKey)>, usize)>)
    ensures
        match r {
            Some((v, p)) => sdec_list(ak_entry_fd(), b@, pos as int) == Some((v.deep_view(), p as int)),
            None => sdec_list(ak_entry_fd(), b@, pos as int) is None,
        },
{
    match read_u64(b, pos) {
        Some((n, p0)) => {
            let mut out: Vec<(PublicKey, AccessKey)> = Vec::new();
            let mut cur: usize = p0;
            let mut k: u64 = 0;
            let ghost fd = ak_entry_fd();
            proof {
                assert(out.deep_view() =~= Seq::<(PublicKeyV, AccessKeyV)>::empty());
                let t0 = crate::codec::sdec_seq(fd, b@, p0 as int, n as nat);
                if t0 is Some {
                    let pair = t0->Some_0;
                    assert(Seq::<(PublicKeyV, AccessKeyV)>::empty() + pair.0 =~= pair.0);
                }
            }
            while k < n
                invariant
                    k <= n,
                    sdec_list(fd, b@, pos as int) == (match crate::codec::sdec_seq(
                        fd,
                        b@,
                        cur as int,
                        (n - k) as nat,
                    ) {
                        Some((rest, q)) => Some((out.deep_view() + rest, q)),
                        None => None::<(Seq<(PublicKeyV, AccessKeyV)>, int)>,
                    }),
                decreases n - k,
            {
                let (key, p_mid): (PublicKey, usize) = match read_public_key(b, cur) {
                    Some((x, q1)) => (x, q1),
                    None => {
                        proof {
                            assert(fd(b@, cur as int) is None);
                            assert(crate::codec::sdec_seq(fd, b@, cur as int, (n - k) as nat)
                                is None);
                        }
                        return None;
                    },
                };
                let (elem, q): ((PublicKey, AccessKey), usize) = match read_access_key(b, p_mid) {
                    Some((y, q2)) => ((key, y), q2),
                    None => {
                        proof {
                            assert(fd(b@, cur as int) is None);
                            assert(crate::codec::sdec_seq(fd, b@, cur as int, (n - k) as nat)
                                is None);
                        }
                        return None;
                    },
                };
                let ghost out0 = out.deep_view();
                let ghost xv = elem.deep_view();
                proof {
                    assert(fd(b@, cur as int) == Some::<((PublicKeyV, AccessKeyV), int)>((
                        xv,
                        q as int,
                    )));
                }
                out.push(elem);
                proof {
                    assert(out.deep_view() =~= out0.push(xv));
                    let tail = crate::codec::sdec_seq(fd, b@, q as int, (n - k - 1) as nat);
                    if tail is Some {
                        let pr = tail->Some_0;
                        assert(out0 + (seq![xv] + pr.0) =~= out0.push(xv) + pr.0);
                    }
                }
                cur = q;
                k = k + 1;
            }
            proof {
                assert(crate::codec::sdec_seq(fd, b@, cur as int, (n - k) as nat) == Some::<
                    (Seq<(PublicKeyV, AccessKeyV)>, int),
                >((Seq::<(PublicKeyV, AccessKeyV)>::empty(), cur as int)));
                assert(out.deep_view() + Seq::<(PublicKeyV, AccessKeyV)>::empty() =~= out.deep_view());
            }
            Some((out, cur))
        },
        None => None,
    }
}

#[verifier::loop_isolation(false)]
fn read_access_keys(b: &Vec<u8>, pos: usize) -> (r: Option<(Vec<(AccountId, Vec<(PublicKey, AccessKey)>)>, usize)>)
    ensures
        match r {
            Some((v, p)) => sdec_list(ak_outer_fd(), b@, pos as int) == Some((v.deep_view(), p as int)),
            None => sdec_list(ak_outer_fd(), b@, pos as int) is None,
        },
{
    match read_u64(b, pos) {
        Some((n, p0)) => {
            let mut out: Vec<(AccountId, Vec<(PublicKey, AccessKey)>)> = Vec::new();
            let mut cur: usize = p0;
            let mut k: u64 = 0;
            let ghost fd = ak_outer_fd();
            proof {
                assert(out.deep_view() =~= Seq::<(Seq<u8>, Seq<(PublicKeyV, AccessKeyV)>)>::empty());
                let t0 = crate::codec::sdec_seq(fd, b@, p0 as int, n as nat);
                if t0 is Some {
                    let pair = t0->Some_0;
                    assert(Seq::<(Seq<u8>, Seq<(PublicKeyV, AccessKeyV)>)>::empty() + pair.0 =~= pair.0);
                }
            }
            while k < n
                invariant
                    k <= n,
                    sdec_list(fd, b@, pos as int) == (match crate::codec::sdec_seq(
                        fd,
                        b@,
                        cur as int,
                        (n - k) as nat,
                    ) {
                        Some((rest, q)) => Some((out.deep_view() + rest, q)),
                        None => None::<(Seq<(Seq<u8>, Seq<(PublicKeyV, AccessKeyV)>)>, int)>,
                    }),
                decreases n - k,
            {
                let (key, p_mid): (AccountId, usize) = match read_bytes(b, cur) {
                    Some((x, q1)) => (AccountId { bytes: x }, q1),
                    None => {
                        proof {
                            assert(fd(b@, cur as int) is None);
                            assert(crate::codec::sdec_seq(fd, b@, cur as int, (n - k) as nat)
                                is None);
                        }
                        return None;
                    },
                };
                let (elem, q): ((AccountId, Vec<(PublicKey, AccessKey)>), usize) =
                    match read_ak_inner(b, p_mid) {
                    Some((y, q2)) => ((key, y), q2),
                    None => {
                        proof {
                            assert(fd(b@, cur as int) is None);
                            assert(crate::codec::sdec_seq(fd, b@, cur as int, (n - k) as nat)
                                is None);
                        }
                        return None;
                    },
                };
                let ghost out0 = out.deep_view();
                let ghost xv = elem.deep_view();
                proof {
                    assert(fd(b@, cur as int) == Some::<
                        ((Seq<u8>, Seq<(PublicKeyV, AccessKeyV)>), int),
                    >((xv, q as int)));
                }
                out.push(elem);
                proof {
                    assert(out.deep_view() =~= out0.push(xv));
                    let tail = crate::codec::sdec_seq(fd, b@, q as int, (n - k - 1) as nat);
                    if tail is Some {
                        let pr = tail->Some_0;
                        assert(out0 + (seq![xv] + pr.0) =~= out0.push(xv) + pr.0);
                    }
                }
                cur = q;
                k = k + 1;
            }
            proof {
                assert(crate::codec::sdec_seq(fd, b@, cur as int, (n - k) as nat) == Some::<
                    (Seq<(Seq<u8>, Seq<(PublicKeyV, AccessKeyV)>)>, int),
                >((Seq::<(Seq<u8>, Seq<(PublicKeyV, AccessKeyV)>)>::empty(), cur as int)));
                assert(out.deep_view() + Seq::<(Seq<u8>, Seq<(PublicKeyV, AccessKeyV)>)>::empty() =~= out.deep_view());
            }
            Some((out, cur))
        },
        None => None,
    }
}

#[verifier::loop_isolation(false)]
fn read_data_inner(b: &Vec<u8>, pos: usize) -> (r: Option<(Vec<(Vec<u8>, Vec<u8>)>, usize)>)
    ensures
        match r {
            Some((v, p)) => sdec_list(bytes_pair_fd(), b@, pos as int) == Some((v.deep_view(), p as int)),
            None => sdec_list(bytes_pair_fd(), b@, pos as int) is None,
        },
{
    match read_u64(b, pos) {
        Some((n, p0)) => {
            let mut out: Vec<(Vec<u8>, Vec<u8>)> = Vec::new();
            let mut cur: usize = p0;
            let mut k: u64 = 0;
            let ghost fd = bytes_pair_fd();
            proof {
                assert(out.deep_view() =~= Seq::<(Seq<u8>, Seq<u8>)>::empty());
                let t0 = crate::codec::sdec_seq(fd, b@, p0 as int, n as nat);
                if t0 is Some {
                    let pair = t0->Some_0;
                    assert(Seq::<(Seq<u8>, Seq<u8>)>::empty() + pair.0 =~= pair.0);
                }
            }
            while k < n
                invariant
                    k <= n,
                    sdec_list(fd, b@, pos as int) == (match crate::codec::sdec_seq(
                        fd,
                        b@,
                        cur as int,
                        (n - k) as nat,
                    ) {
                        Some((rest, q)) => Some((out.deep_view() + rest, q)),
                        None => None::<(Seq<(Seq<u8>, Seq<u8>)>, int)>,
                    }),
                decreases n - k,
            {
                let (key, p_mid): (Vec<u8>, usize) = match read_bytes(b, cur) {
                    Some((x, q1)) => (x, q1),
                    None => {
                        proof {
                            assert(fd(b@, cur as int) is None);
                            assert(crate::codec::sdec_seq(fd, b@, cur as int, (n - k) as nat)
                                is None);
                        }
                        return None;
                    },
                };
                let (elem, q): ((Vec<u8>, Vec<u8>), usize) = match read_bytes(b, p_mid) {
                    Some((y, q2)) => ((key, y), q2),
                    None => {
                        proof {
                            assert(fd(b@, cur as int) is None);
                            assert(crate::codec::sdec_seq(fd, b@, cur as int, (n - k) as nat)
                                is None);
                        }
                        return None;
                    },
                };
                let ghost out0 = out.deep_view();
                let ghost xv = (elem.0@, elem.1@);
                proof {
                    assert(elem.deep_view() =~~= xv);
                    assert(fd(b@, cur as int) == Some::<((Seq<u8>, Seq<u8>), int)>((
                        xv,
                        q as int,
                    )));
                }
                out.push(elem);
                proof {
                    assert(out.deep_view() =~= out0.push(xv));
                    let tail = crate::codec::sdec_seq(fd, b@, q as int, (n - k - 1) as nat);
                    if tail is Some {
                        let pr = tail->Some_0;
                        assert(out0 + (seq![xv] + pr.0) =~= out0.push(xv) + pr.0);
                    }
                }
                cur = q;
                k = k + 1;
            }
            proof {
                assert(crate::codec::sdec_seq(fd, b@, cur as int, (n - k) as nat) == Some::<
                    (Seq<(Seq<u8>, Seq<u8>)>, int),
                >((Seq::<(Seq<u8>, Seq<u8>)>::empty(), cur as int)));
                assert(out.deep_view() + Seq::<(Seq<u8>, Seq<u8>)>::empty() =~= out.deep_view());
            }
            Some((out, cur))
        },
        None => None,
    }
}

#[verifier::loop_isolation(false)]
fn read_data(b: &Vec<u8>, pos: usize) -> (r: Option<(Vec<(AccountId, Vec<(Vec<u8>, Vec<u8>)>)>, usize)>)
    ensures
        match r {
            Some((v, p)) => sdec_list(data_outer_fd(), b@, pos as int) == Some((v.deep_view(), p as int)),
            None => sdec_list(data_outer_fd(), b@, pos as int) is None,
        },
{
    match read_u64(b, pos) {
        Some((n, p0)) => {
            let mut out: Vec<(AccountId, Vec<(Vec<u8>, Vec<u8>)>)> = Vec::new();
            let mut cur: usize = p0;
            let mut k: u64 = 0;
            let ghost fd = data_outer_fd();
            proof {
                assert(out.deep_view() =~= Seq::<(Seq<u8>, Seq<(Seq<u8>, Seq<u8>)>)>::empty());
                let t0 = crate::codec::sdec_seq(fd, b@, p0 as int, n as nat);
                if t0 is Some {
                    let pair = t0->Some_0;
                    assert(Seq::<(Seq<u8>, Seq<(Seq<u8>, Seq<u8>)>)>::empty() + pair.0 =~= pair.0);
                }
            }
            while k < n
                invariant
                    k <= n,
                    sdec_list(fd, b@, pos as int) == (match crate::codec::sdec_seq(
                        fd,
                        b@,
                        cur as int,
                        (n - k) as nat,
                    ) {
                        Some((rest, q)) => Some((out.deep_view() + rest, q)),
                        None => None::<(Seq<(Seq<u8>, Seq<(Seq<u8>, Seq<u8>)>)>, int)>,
                    }),
                decreases n - k,
            {
                let (key, p_mid): (AccountId, usize) = match read_bytes(b, cur) {
                    Some((x, q1)) => (AccountId { bytes: x }, q1),
                    None => {
                        proof {
                            assert(fd(b@, cur as int) is None);
                            assert(crate::codec::sdec_seq(fd, b@, cur as int, (n - k) as nat)
                                is None);
                        }
                        return None;
                    },
                };
                let (elem, q): ((AccountId, Vec<(Vec<u8>, Vec<u8>)>), usize) =
                    match read_data_inner(b, p_mid) {
                    Some((y, q2)) => ((key, y), q2),
                    None => {
                        proof {
                            assert(fd(b@, cur as int) is None);
                            assert(crate::codec::sdec_seq(fd, b@, cur as int, (n - k) as nat)
                                is None);
                        }
                        return None;
                    },
                };
                let ghost out0 = out.deep_view();
                let ghost xv = elem.deep_view();
                proof {
                    assert(fd(b@, cur as int) == Some::<
                        ((Seq<u8>, Seq<(Seq<u8>, Seq<u8>)>), int),
                    >((xv, q as int)));
                }
                out.push(elem);
                proof {
                    assert(out.deep_view() =~= out0.push(xv));
                    let tail = crate::codec::sdec_seq(fd, b@, q as int, (n - k - 1) as nat);
                    if tail is Some {
                        let pr = tail->Some_0;
                        assert(out0 + (seq![xv] + pr.0) =~= out0.push(xv) + pr.0);
                    }
                }
                cur = q;
                k = k + 1;
            }
            proof {
                assert(crate::codec::sdec_seq(fd, b@, cur as int, (n - k) as nat) == Some::<
                    (Seq<(Seq<u8>, Seq<(Seq<u8>, Seq<u8>)>)>, int),
                >((Seq::<(Seq<u8>, Seq<(Seq<u8>, Seq<u8>)>)>::empty(), cur as int)));
                assert(out.deep_view() + Seq::<(Seq<u8>, Seq<(Seq<u8>, Seq<u8>)>)>::empty() =~= out.deep_view());
            }
            Some((out, cur))
        },
        None => None,
    }
}

#[verifier::loop_isolation(false)]
fn read_contracts(b: &Vec<u8>, pos: usize) -> (r: Option<(Vec<(AccountId, Vec<u8>)>, usize)>)
    ensures
        match r {
            Some((v, p)) => sdec_list(bytes_pair_fd(), b@, pos as int) == Some((v.deep_view(), p as int)),
            None => sdec_list(bytes_pair_fd(), b@, pos as int) is None,
        },
{
    match read_u64(b, pos) {
        Some((n, p0)) => {
            let mut out: Vec<(AccountId, Vec<u8>)> = Vec::new();
            let mut cur: usize = p0;
            let mut k: u64 = 0;
            let ghost fd = bytes_pair_fd();
            proof {
                assert(out.deep_view() =~= Seq::<(Seq<u8>, Seq<u8>)>::empty());
                let t0 = crate::codec::sdec_seq(fd, b@, p0 as int, n as nat);
                if t0 is Some {
                    let pair = t0->Some_0;
                    assert(Seq::<(Seq<u8>, Seq<u8>)>::empty() + pair.0 =~= pair.0);
                }
            }
            while k < n
                invariant
                    k <= n,
                    sdec_list(fd, b@, pos as int) == (match crate::codec::sdec_seq(
                        fd,
                        b@,
                        cur as int,
                        (n - k) as nat,
                    ) {
                        Some((rest, q)) => Some((out.deep_view() + rest, q)),
                        None => None::<(Seq<(Seq<u8>, Seq<u8>)>, int)>,
                    }),
                decreases n - k,
            {
                let (key, p_mid): (AccountId, usize) = match read_bytes(b, cur) {
                    Some((x, q1)) => (AccountId { bytes: x }, q1),
                    None => {
                        proof {
                            assert(fd(b@, cur as int) is None);
                            assert(crate::codec::sdec_seq(fd, b@, cur as int, (n - k) as nat)
                                is None);
                        }
                        return None;
                    },
                };
                let (elem, q): ((AccountId, Vec<u8>), usize) = match read_bytes(b, p_mid) {
                    Some((y, q2)) => ((key, y), q2),
                    None => {
                        proof {
                            assert(fd(b@, cur as int) is None);
                            assert(crate::codec::sdec_seq(fd, b@, cur as int, (n - k) as nat)
                                is None);
                        }
                        return None;
                    },
                };
                let ghost out0 = out.deep_view();
                let ghost xv = (elem.0@, elem.1@);
                proof {
                    assert(elem.deep_view() =~~= xv);
                    assert(fd(b@, cur as int) == Some::<((Seq<u8>, Seq<u8>), int)>((
                        xv,
                        q as int,
                    )));
                }
                out.push(elem);
                proof {
                    assert(out.deep_view() =~= out0.push(xv));
                    let tail = crate::codec::sdec_seq(fd, b@, q as int, (n - k - 1) as nat);
                    if tail is Some {
                        let pr = tail->Some_0;
                        assert(out0 + (seq![xv] + pr.0) =~= out0.push(xv) + pr.0);
                    }
                }
                cur = q;
                k = k + 1;
            }
            proof {
                assert(crate::codec::sdec_seq(fd, b@, cur as int, (n - k) as nat) == Some::<
                    (Seq<(Seq<u8>, Seq<u8>)>, int),
                >((Seq::<(Seq<u8>, Seq<u8>)>::empty(), cur as int)));
                assert(out.deep_view() + Seq::<(Seq<u8>, Seq<u8>)>::empty() =~= out.deep_view());
            }
            Some((out, cur))
        },
        None => None,
    }
}

// ---------------------------------------------------------------------------
// Well-formedness checks on loaded data
// ---------------------------------------------------------------------------

fn distinct_account_keys<V: DeepView>(v: &Vec<(AccountId, V)>) -> (r: bool)
    ensures
        r == crate::kvlist::distinct_keys(v.deep_view()),
{
    let ghost dv = v.deep_view();
    let mut i: usize = 0;
    while i < v.len()
        invariant
            i <= dv.len(),
            dv == v.deep_view(),
            dv.len() == v@.len(),
            forall|a: int, b: int| 0 <= a < b < i ==> dv[a].0 != dv[b].0,
        decreases dv.len() - i,
    {
        let mut j: usize = 0;
        while j < i
            invariant
                j <= i,
                i < dv.len(),
                dv == v.deep_view(),
                dv.len() == v@.len(),
                forall|a: int, b: int| 0 <= a < b < i ==> dv[a].0 != dv[b].0,
                forall|a: int| 0 <= a < j ==> dv[a].0 != dv[i as int].0,
            decreases i - j,
        {
            if v[j].0.eq_id(&v[i].0) {
                assert(dv[j as int].0 == dv[i as int].0);
                assert(!crate::kvlist::distinct_keys(dv));
                return false;
            }
            j += 1;
        }
        i += 1;
    }
    true
}

fn distinct_pk_keys(v: &Vec<(PublicKey, AccessKey)>) -> (r: bool)
    ensures
        r == crate::kvlist::distinct_keys(v.deep_view()),
{
    let ghost dv = v.deep_view();
    let mut i: usize = 0;
    while i < v.len()
        invariant
            i <= dv.len(),
            dv == v.deep_view(),
            dv.len() == v@.len(),
            forall|a: int, b: int| 0 <= a < b < i ==> dv[a].0 != dv[b].0,
        decreases dv.len() - i,
    {
        let mut j: usize = 0;
        while j < i
            invariant
                j <= i,
                i < dv.len(),
                dv == v.deep_view(),
                dv.len() == v@.len(),
                forall|a: int, b: int| 0 <= a < b < i ==> dv[a].0 != dv[b].0,
                forall|a: int| 0 <= a < j ==> dv[a].0 != dv[i as int].0,
            decreases i - j,
        {
            if v[j].0.eq_key(&v[i].0) {
                assert(dv[j as int].0 == dv[i as int].0);
                assert(!crate::kvlist::distinct_keys(dv));
                return false;
            }
            j += 1;
        }
        i += 1;
    }
    true
}

fn distinct_bytes_keys(v: &Vec<(Vec<u8>, Vec<u8>)>) -> (r: bool)
    ensures
        r == crate::kvlist::distinct_keys(v.deep_view()),
{
    let ghost dv = v.deep_view();
    let mut i: usize = 0;
    while i < v.len()
        invariant
            i <= dv.len(),
            dv == v.deep_view(),
            dv.len() == v@.len(),
            forall|a: int, b: int| 0 <= a < b < i ==> dv[a].0 != dv[b].0,
        decreases dv.len() - i,
    {
        let mut j: usize = 0;
        while j < i
            invariant
                j <= i,
                i < dv.len(),
                dv == v.deep_view(),
                dv.len() == v@.len(),
                forall|a: int, b: int| 0 <= a < b < i ==> dv[a].0 != dv[b].0,
                forall|a: int| 0 <= a < j ==> dv[a].0 != dv[i as int].0,
            decreases i - j,
        {
            proof {
                assert(dv[j as int].0 =~= v@[j as int].0.deep_view());
                assert(v@[j as int].0.deep_view() =~= v@[j as int].0@);
                assert(dv[i as int].0 =~= v@[i as int].0.deep_view());
                assert(v@[i as int].0.deep_view() =~= v@[i as int].0@);
            }
            if crate::types::eq_bytes(&v[j].0, &v[i].0) {
                assert(dv[j as int].0 == dv[i as int].0);
                assert(!crate::kvlist::distinct_keys(dv));
                return false;
            }
            j += 1;
        }
        i += 1;
    }
    true
}

/// Decides the projection invariant for a loaded projection.
fn check_data_wf(d: &FlatStateData) -> (r: bool)
    ensures
        r == d.wf(),
{
    if !distinct_account_keys(&d.accounts) {
        return false;
    }
    if !distinct_account_keys(&d.access_keys) {
        return false;
    }
    if !distinct_account_keys(&d.data) {
        return false;
    }
    if !distinct_account_keys(&d.contracts_code) {
        return false;
    }
    let mut i: usize = 0;
    while i < d.access_keys.len()
        invariant
            i <= d.access_keys@.len(),
            crate::kvlist::distinct_keys(d.accounts_rep()),
            crate::kvlist::distinct_keys(d.access_keys_rep()),
            crate::kvlist::distinct_keys(d.data_rep()),
            crate::kvlist::distinct_keys(d.contracts_code_rep()),
            forall|k: int|
                0 <= k < i ==> crate::kvlist::distinct_keys(
                    #[trigger] d.access_keys_rep()[k].1,
                ) && d.access_keys_rep()[k].1.len() > 0,
        decreases d.access_keys@.len() - i,
    {
        if d.access_keys[i].1.is_empty() {
            assert(d.access_keys_rep()[i as int].1.len() == 0);
            return false;
        }
        if !distinct_pk_keys(&d.access_keys[i].1) {
            assert(!crate::kvlist::distinct_keys(d.access_keys_rep()[i as int].1));
            return false;
        }
        i += 1;
    }
    let mut i2: usize = 0;
    while i2 < d.data.len()
        invariant
            i2 <= d.data@.len(),
            crate::kvlist::distinct_keys(d.accounts_rep()),
            crate::kvlist::distinct_keys(d.access_keys_rep()),
            crate::kvlist::distinct_keys(d.data_rep()),
            crate::kvlist::distinct_keys(d.contracts_code_rep()),
            forall|k: int|
                0 <= k < d.access_keys_rep().len() ==> crate::kvlist::distinct_keys(
                    #[trigger] d.access_keys_rep()[k].1,
                ) && d.access_keys_rep()[k].1.len() > 0,
            forall|k: int|
                0 <= k < i2 ==> crate::kvlist::distinct_keys(#[trigger] d.data_rep()[k].1)
                    && d.data_rep()[k].1.len() > 0,
        decreases d.data@.len() - i2,
    {
        if d.data[i2].1.is_empty() {
            assert(d.data_rep()[i2 as int].1.len() == 0);
            return false;
        }
        if !distinct_bytes_keys(&d.data[i2].1) {
            assert(!crate::kvlist::distinct_keys(d.data_rep()[i2 as int].1));
            return false;
        }
        i2 += 1;
    }
    true
}

// ---------------------------------------------------------------------------
// Saving and loading a FlatState
// ---------------------------------------------------------------------------

/// Loaded key lists carry no duplicate keys and no empty inner map.
pub open spec fn rep_keys_wf(r: FlatStateRep) -> bool {
    &&& crate::kvlist::distinct_keys(r.accounts)
    &&& crate::kvlist::distinct_keys(r.access_keys)
    &&& crate::kvlist::distinct_keys(r.data)
    &&& crate::kvlist::distinct_keys(r.contracts_code)
    &&& forall|k: int|
        0 <= k < r.access_keys.len() ==> crate::kvlist::distinct_keys(
            #[trigger] r.access_keys[k].1,
        ) && r.access_keys[k].1.len() > 0
    &&& forall|k: int|
        0 <= k < r.data.len() ==> crate::kvlist::distinct_keys(#[trigger] r.data[k].1)
            && r.data[k].1.len() > 0
}

impl FlatState {
    /// Everything of this state that a snapshot stores, in writing order.
    pub open spec fn rep(self) -> FlatStateRep {
        FlatStateRep {
            chain_id: self.config.chain_id,
            filter_accounts: self.config.filter.accounts.deep_view(),
            filter_ranges: self.config.filter.account_ranges.deep_view(),
            block_header: self.block_header,
            block_hash: self.block_hash.0@,
            accounts: self.data.accounts_rep(),
            access_keys: self.data.access_keys_rep(),
            data: self.data.data_rep(),
            contracts_code: self.data.contracts_code_rep(),
        }
    }

    /// Serialises this state into the snapshot byte form.
    #[verifier::rlimit(100)]
    pub fn save(&self) -> (r: Vec<u8>)
        ensures
            r@ == spec_enc_state(self.rep()),
    {
        let mut out: Vec<u8> = Vec::new();
        write_u8(&mut out, FLAT_STATE_VERSION);
        write_chain_id(&mut out, &self.config.chain_id);
        write_filter_accounts(&mut out, &self.config.filter.accounts);
        write_filter_ranges(&mut out, &self.config.filter.account_ranges);
        write_header(&mut out, &self.block_header);
        write_hash(&mut out, &self.block_hash);
        write_accounts(&mut out, &self.data.accounts);
        write_access_keys(&mut out, &self.data.access_keys);
        write_data(&mut out, &self.data.data);
        write_contracts(&mut out, &self.data.contracts_code);
        proof {
            assert(out@ =~= spec_enc_state(self.rep()));
        }
        out
    }

    /// Reads a snapshot back. Only version 1 is accepted; a snapshot
    /// whose version byte differs fails with `Unsupported version`, and
    /// any other malformed input fails with `Invalid snapshot data`.
    /// Trailing bytes after a complete snapshot are ignored.
    pub fn load(bytes: &Vec<u8>) -> (r: Result<FlatState, FlatStateError>)
        ensures
            match r {
                Ok(st) => {
                    &&& sdec_u8(bytes@, 0) == Some((FLAT_STATE_VERSION, 1int))
                    &&& sdec_body(bytes@, 1) matches Some((rep, _)) && st.rep() == rep
                        && rep_keys_wf(rep)
                    &&& st.wf()
                },
                Err(e) => {
                    &&& e matches FlatStateError::StorageError(m)
                    &&& sdec_u8(bytes@, 0) is None ==> m@ == "Unexpected end of data"@
                    &&& (sdec_u8(bytes@, 0) matches Some((v, _)) && v != FLAT_STATE_VERSION)
                        ==> m@ == "Unsupported version"@
                    &&& (sdec_u8(bytes@, 0) == Some((FLAT_STATE_VERSION, 1int)) && (sdec_body(
                        bytes@,
                        1,
                    ) is None || (sdec_body(bytes@, 1) matches Some((rep, _)) && !rep_keys_wf(
                        rep,
                    )))) ==> m@ == "Invalid snapshot data"@
                },
            },
            r is Ok <==> ({
                &&& sdec_u8(bytes@, 0) == Some((FLAT_STATE_VERSION, 1int))
                &&& sdec_body(bytes@, 1) matches Some((rep, _)) && rep_keys_wf(rep)
            }),
    {
        let version = match read_u8(bytes, 0) {
            Some((v, _)) => v,
            None => {
                return Err(
                    FlatStateError::StorageError(String::from_str("Unexpected end of data")),
                );
            },
        };
        if version != FLAT_STATE_VERSION {
            return Err(FlatStateError::StorageError(String::from_str("Unsupported version")));
        }
        let invalid = || -> (e: FlatStateError)
            ensures
                e matches FlatStateError::StorageError(m) && m@ == "Invalid snapshot data"@,
            { FlatStateError::StorageError(String::from_str("Invalid snapshot data")) };
        let (chain_id, p1) = match read_chain_id(bytes, 1) {
            Some(x) => x,
            None => {
                return Err(invalid());
            },
        };
        let (filter_accounts, p2) = match read_filter_accounts(bytes, p1) {
            Some(x) => x,
            None => {
                return Err(invalid());
            },
        };
        let (filter_ranges, p3) = match read_filter_ranges(bytes, p2) {
            Some(x) => x,
            None => {
                return Err(invalid());
            },
        };
        let (block_header, p4) = match read_header(bytes, p3) {
            Some(x) => x,
            None => {
                return Err(invalid());
            },
        };
        let (block_hash, p5) = match read_hash(bytes, p4) {
            Some(x) => x,
            None => {
                return Err(invalid());
            },
        };
        let (accounts, p6) = match read_accounts(bytes, p5) {
            Some(x) => x,
            None => {
                return Err(invalid());
            },
        };
        let (access_keys, p7) = match read_access_keys(bytes, p6) {
            Some(x) => x,
            None => {
                return Err(invalid());
            },
        };
        let (data, p8) = match read_data(bytes, p7) {
            Some(x) => x,
            None => {
                return Err(invalid());
            },
        };
        let (contracts_code, _p9) = match read_contracts(bytes, p8) {
            Some(x) => x,
            None => {
                return Err(invalid());
            },
        };
        let st = FlatState {
            config: FlatStateConfig {
                chain_id,
                filter: FlatStateFilter { accounts: filter_accounts, account_ranges: filter_ranges },
            },
            block_header,
            block_hash,
            data: FlatStateData { access_keys, accounts, data, contracts_code },
        };
        if !check_data_wf(&st.data) {
            return Err(invalid());
        }
        proof {
            let rep = sdec_body(bytes@, 1)->Some_0.0;
            assert(st.rep() == rep);
        }
        Ok(st)
    }
}

// ---------------------------------------------------------------------------
// Laws of the snapshot
// ---------------------------------------------------------------------------

/// Any state a program can hold fits the snapshot form: every list is
/// shorter than the length prefix allows and the hash is 32 bytes.
pub proof fn lemma_rep_wf(st: FlatState)
    ensures
        rep_wf(st.rep()),
{
    let r = st.rep();
    assert forall|i: int| 0 <= i < r.filter_accounts.len() implies bytes_wf()(
        #[trigger] r.filter_accounts[i],
    ) by {
        assert(r.filter_accounts[i] == st.config.filter.accounts@[i]@);
        assert(st.config.filter.accounts@[i].bytes.len() <= usize::MAX);
    }
    assert forall|i: int| 0 <= i < r.filter_ranges.len() implies range_wf()(
        #[trigger] r.filter_ranges[i],
    ) by {
        let e = st.config.filter.account_ranges@[i];
        if e.0 is Some {
            assert(e.0->Some_0.bytes.len() <= usize::MAX);
        }
        if e.1 is Some {
            assert(e.1->Some_0.bytes.len() <= usize::MAX);
        }
    }
    assert forall|i: int| 0 <= i < r.accounts.len() implies acct_entry_wf()(
        #[trigger] r.accounts[i],
    ) by {
        assert(st.data.accounts@[i].0.bytes.len() <= usize::MAX);
    }
    assert forall|i: int| 0 <= i < r.access_keys.len() implies ak_outer_wf()(
        #[trigger] r.access_keys[i],
    ) by {
        let e = st.data.access_keys@[i];
        assert(e.0.bytes.len() <= usize::MAX);
        assert(e.1.len() <= usize::MAX);
        assert forall|j: int| 0 <= j < r.access_keys[i].1.len() implies ak_entry_wf()(
            #[trigger] r.access_keys[i].1[j],
        ) by {
            let kv = e.1@[j];
            match kv.0 {
                PublicKey::ED25519(b) => {
                    assert(b.len() <= usize::MAX);
                },
                PublicKey::SECP256K1(b) => {
                    assert(b.len() <= usize::MAX);
                },
            }
            match kv.1.permission {
                AccessKeyPermission::FullAccess => {},
                AccessKeyPermission::FunctionCall { allowance, receiver_id, method_names } => {
                    assert(receiver_id.len() <= usize::MAX);
                    assert(method_names.len() <= usize::MAX);
                    assert forall|m: int| 0 <= m < method_names@.len() implies (
                    #[trigger] method_names.deep_view()[m]).len() <= u64::MAX by {
                        assert(method_names@[m].len() <= usize::MAX);
                        assert(method_names.deep_view()[m] =~= method_names@[m]@);
                    }
                },
            }
        }
    }
    assert forall|i: int| 0 <= i < r.data.len() implies data_outer_wf()(#[trigger] r.data[i]) by {
        let e = st.data.data@[i];
        assert(e.0.bytes.len() <= usize::MAX);
        assert(e.1.len() <= usize::MAX);
        assert forall|j: int| 0 <= j < r.data[i].1.len() implies bytes_pair_wf()(
            #[trigger] r.data[i].1[j],
        ) by {
            assert(e.1@[j].0.len() <= usize::MAX);
            assert(e.1@[j].1.len() <= usize::MAX);
            assert(r.data[i].1[j].0 =~= e.1@[j].0@);
            assert(r.data[i].1[j].1 =~= e.1@[j].1@);
        }
    }
    assert forall|i: int| 0 <= i < r.contracts_code.len() implies bytes_pair_wf()(
        #[trigger] r.contracts_code[i],
    ) by {
        let e = st.data.contracts_code@[i];
        assert(e.0.bytes.len() <= usize::MAX);
        assert(e.1.len() <= usize::MAX);
        assert(r.contracts_code[i].1 =~= e.1@);
    }
    assert(st.config.filter.accounts@.len() == st.config.filter.accounts.len());
    assert(st.config.filter.account_ranges@.len() == st.config.filter.account_ranges.len());
    assert(st.data.accounts@.len() == st.data.accounts.len());
    assert(st.data.access_keys@.len() == st.data.access_keys.len());
    assert(st.data.data@.len() == st.data.data.len());
    assert(st.data.contracts_code@.len() == st.data.contracts_code.len());
}

/// Loading undoes saving for any well-formed state: the saved bytes, with
/// anything appended, decode to the exact representation that was saved,
/// so a `load` of a `save` returns an equal state.
pub proof fn lemma_load_save_identity(st: FlatState, extra: Seq<u8>)
    requires
        st.wf(),
    ensures
        ({
            let s = spec_enc_state(st.rep()) + extra;
            &&& sdec_u8(s, 0) == Some((FLAT_STATE_VERSION, 1int))
            &&& sdec_body(s, 1) == Some((st.rep(), spec_enc_state(st.rep()).len() as int))
            &&& rep_keys_wf(st.rep())
        }),
{
    lemma_rep_wf(st);
    lemma_snapshot_round_trip(st.rep(), extra);
}

/// Saving is pure: equal states give byte-identical snapshots.
pub proof fn lemma_save_pure(a: FlatState, b: FlatState)
    requires
        a.rep() == b.rep(),
    ensures
        spec_enc_state(a.rep()) == spec_enc_state(b.rep()),
{
}

} // verus!
