//! The domain types of the chain: identifiers, keys, accounts, state-change
//! deltas and block headers, modelled as plain values with mathematical views.

use vstd::prelude::*;
use vstd::string::StringExecFns;
use crate::copy_bytes;

verus! {

// ---------------------------------------------------------------------------
// ChainId
// ---------------------------------------------------------------------------

/// The logical chain a fetcher or state projection is bound to.
#[derive(Clone, Copy, Debug, PartialEq, Eq, Structural)]
pub enum ChainId {
    Mainnet,
    Testnet,
}

impl ChainId {
    /// The lowercase name of the chain, as it appears in URLs and in the
    /// genesis configuration.
    pub open spec fn spec_name(self) -> Seq<char> {
        match self {
            ChainId::Mainnet => "mainnet"@,
            ChainId::Testnet => "testnet"@,
        }
    }

    pub fn as_str(&self) -> (r: &'static str)
        ensures
            r@ == self.spec_name(),
    {
        match self {
            ChainId::Mainnet => "mainnet",
            ChainId::Testnet => "testnet",
        }
    }

    /// Parses the lowercase chain name, case-sensitively; anything else is
    /// rejected with a message naming the offending value.
    pub fn try_from(value: String) -> (r: Result<ChainId, String>)
        ensures
            value@ == "mainnet"@ ==> r == Ok::<ChainId, String>(ChainId::Mainnet),
            value@ == "testnet"@ ==> r == Ok::<ChainId, String>(ChainId::Testnet),
            value@ != "mainnet"@ && value@ != "testnet"@ ==> r is Err,
    {
        proof {
            reveal_strlit("mainnet");
            reveal_strlit("testnet");
            assert("mainnet"@.index(0) == 'm');
            assert("testnet"@.index(0) == 't');
            assert("mainnet"@ != "testnet"@);
        }
        if value == String::from_str("mainnet") {
            Ok(ChainId::Mainnet)
        } else if value == String::from_str("testnet") {
            Ok(ChainId::Testnet)
        } else {
            Err(String::from_str("Invalid chain id: ").concat(value.as_str()))
        }
    }
}

// ---------------------------------------------------------------------------
// Finality
// ---------------------------------------------------------------------------

/// Which chain tip a fetch refers to: committed or tentative.
#[derive(Clone, Copy, Debug, PartialEq, Eq, Structural)]
pub enum Finality {
    Final,
    Optimistic,
}

// ---------------------------------------------------------------------------
// CryptoHash
// ---------------------------------------------------------------------------

/// A 32-byte identifier linking a block to its parent.
#[derive(Clone, Copy, Debug, PartialEq, Eq)]
pub struct CryptoHash(pub [u8; 32]);

impl DeepView for CryptoHash {
    type V = CryptoHash;

    open spec fn deep_view(&self) -> CryptoHash {
        *self
    }
}

impl CryptoHash {
    pub fn eq_hash(&self, other: &CryptoHash) -> (r: bool)
        ensures
            r == (*self == *other),
    {
        let mut i: usize = 0;
        while i < 32
            invariant
                i <= 32,
                forall|j: int| 0 <= j < i ==> self.0@[j] == other.0@[j],
            decreases 32 - i,
        {
            if self.0[i] != other.0[i] {
                assert(self.0@[i as int] != other.0@[i as int]);
                return false;
            }
            i += 1;
        }
        proof {
            assert(self.0 =~= other.0);
        }
        true
    }
}

// ---------------------------------------------------------------------------
// AccountId
// ---------------------------------------------------------------------------

/// An account identifier: a byte string with the lexicographic order.
#[derive(Clone, Debug, PartialEq, Eq)]
pub struct AccountId {
    pub bytes: Vec<u8>,
}

impl View for AccountId {
    type V = Seq<u8>;

    open spec fn view(&self) -> Seq<u8> {
        self.bytes@
    }
}

impl DeepView for AccountId {
    type V = Seq<u8>;

    open spec fn deep_view(&self) -> Seq<u8> {
        self.bytes@
    }
}

/// Lexicographic order on byte strings: `a` is less than or equal to `b`.
pub open spec fn lex_le(a: Seq<u8>, b: Seq<u8>) -> bool
    decreases a.len(),
{
    if a.len() == 0 {
        true
    } else if b.len() == 0 {
        false
    } else if a[0] < b[0] {
        true
    } else if a[0] > b[0] {
        false
    } else {
        lex_le(a.drop_first(), b.drop_first())
    }
}

impl AccountId {
    pub fn new(bytes: Vec<u8>) -> (r: AccountId)
        ensures
            r@ == bytes@,
    {
        AccountId { bytes }
    }

    pub fn duplicate(&self) -> (r: AccountId)
        ensures
            r@ == self@,
    {
        AccountId { bytes: copy_bytes(&self.bytes) }
    }

    pub fn eq_id(&self, other: &AccountId) -> (r: bool)
        ensures
            r == (self@ == other@),
    {
        if self.bytes.len() != other.bytes.len() {
            return false;
        }
        let mut i: usize = 0;
        while i < self.bytes.len()
            invariant
                i <= self.bytes.len(),
                self.bytes.len() == other.bytes.len(),
                forall|j: int| 0 <= j < i ==> self@[j] == other@[j],
            decreases self.bytes.len() - i,
        {
            if self.bytes[i] != other.bytes[i] {
                assert(self@[i as int] != other@[i as int]);
                return false;
            }
            i += 1;
        }
        proof {
            assert(self@ =~= other@);
        }
        true
    }

    /// Lexicographic comparison, used for range filters.
    pub fn le(&self, other: &AccountId) -> (r: bool)
        ensures
            r == lex_le(self@, other@),
    {
        let n = if self.bytes.len() < other.bytes.len() {
            self.bytes.len()
        } else {
            other.bytes.len()
        };
        let mut i: usize = 0;
        proof {
            assert(self@.skip(0) =~= self@);
            assert(other@.skip(0) =~= other@);
        }
        while i < n
            invariant
                i <= n,
                n == if self@.len() < other@.len() { self@.len() } else { other@.len() },
                lex_le(self@, other@) == lex_le(self@.skip(i as int), other@.skip(i as int)),
                forall|j: int| 0 <= j < i ==> self@[j] == other@[j],
            decreases n - i,
        {
            let a = self.bytes[i];
            let b = other.bytes[i];
            if a < b {
                proof {
                    assert(self@.skip(i as int)[0] == a);
                    assert(other@.skip(i as int)[0] == b);
                }
                return true;
            }
            if a > b {
                proof {
                    assert(self@.skip(i as int)[0] == a);
                    assert(other@.skip(i as int)[0] == b);
                }
                return false;
            }
            proof {
                assert(self@.skip(i as int)[0] == a && other@.skip(i as int)[0] == b);
                assert(self@.skip(i as int).drop_first() =~= self@.skip(i + 1));
                assert(other@.skip(i as int).drop_first() =~= other@.skip(i + 1));
            }
            i += 1;
        }
        proof {
            assert(self@.skip(i as int).len() == 0 || other@.skip(i as int).len() == 0);
        }
        self.bytes.len() <= other.bytes.len()
    }
}

/// A byte vector's deep view is its view; stated once so that proofs over
/// nested pairs of byte strings need not unfold the generic definition.
pub broadcast proof fn lemma_bytes_deep_view(v: Vec<u8>)
    ensures
        #[trigger] v.deep_view() == v@,
{
    assert(v.deep_view() =~= v@);
}

// ---------------------------------------------------------------------------
// Public keys and access keys
// ---------------------------------------------------------------------------

/// A public key: an Ed25519 key of 32 bytes or a secp256k1 key of 64 bytes.
#[derive(Clone, Debug, PartialEq, Eq)]
pub enum PublicKey {
    ED25519(Vec<u8>),
    SECP256K1(Vec<u8>),
}

pub enum PublicKeyV {
    ED25519(Seq<u8>),
    SECP256K1(Seq<u8>),
}

impl View for PublicKey {
    type V = PublicKeyV;

    open spec fn view(&self) -> PublicKeyV {
        match self {
            PublicKey::ED25519(b) => PublicKeyV::ED25519(b@),
            PublicKey::SECP256K1(b) => PublicKeyV::SECP256K1(b@),
        }
    }
}

impl DeepView for PublicKey {
    type V = PublicKeyV;

    open spec fn deep_view(&self) -> PublicKeyV {
        self.view()
    }
}

impl PublicKey {
    pub fn duplicate(&self) -> (r: PublicKey)
        ensures
            r@ == self@,
    {
        match self {
            PublicKey::ED25519(b) => PublicKey::ED25519(copy_bytes(b)),
            PublicKey::SECP256K1(b) => PublicKey::SECP256K1(copy_bytes(b)),
        }
    }

    pub fn eq_key(&self, other: &PublicKey) -> (r: bool)
        ensures
            r == (self@ == other@),
    {
        match (self, other) {
            (PublicKey::ED25519(a), PublicKey::ED25519(b)) => eq_bytes(a, b),
            (PublicKey::SECP256K1(a), PublicKey::SECP256K1(b)) => eq_bytes(a, b),
            _ => false,
        }
    }
}

/// Byte-string equality, element by element.
pub fn eq_bytes(a: &Vec<u8>, b: &Vec<u8>) -> (r: bool)
    ensures
        r == (a@ == b@),
{
    if a.len() != b.len() {
        return false;
    }
    let mut i: usize = 0;
    while i < a.len()
        invariant
            i <= a.len(),
            a@.len() == b@.len(),
            forall|j: int| 0 <= j < i ==> a@[j] == b@[j],
        decreases a.len() - i,
    {
        if a[i] != b[i] {
            assert(a@[i as int] != b@[i as int]);
            return false;
        }
        i += 1;
    }
    proof {
        assert(a@ =~= b@);
    }
    true
}

/// What an access key is allowed to do: everything, or calls to one receiver.
#[derive(Clone, Debug, PartialEq, Eq)]
pub enum AccessKeyPermission {
    FullAccess,
    FunctionCall { allowance: Option<u128>, receiver_id: Vec<u8>, method_names: Vec<Vec<u8>> },
}

pub enum AccessKeyPermissionV {
    FullAccess,
    FunctionCall { allowance: Option<u128>, receiver_id: Seq<u8>, method_names: Seq<Seq<u8>> },
}

impl View for AccessKeyPermission {
    type V = AccessKeyPermissionV;

    open spec fn view(&self) -> AccessKeyPermissionV {
        match self {
            AccessKeyPermission::FullAccess => AccessKeyPermissionV::FullAccess,
            AccessKeyPermission::FunctionCall { allowance, receiver_id, method_names } => {
                AccessKeyPermissionV::FunctionCall {
                    allowance: *allowance,
                    receiver_id: receiver_id@,
                    method_names: method_names.deep_view(),
                }
            },
        }
    }
}

impl DeepView for AccessKeyPermission {
    type V = AccessKeyPermissionV;

    open spec fn deep_view(&self) -> AccessKeyPermissionV {
        self.view()
    }
}

/// An access key: a nonce and a permission.
#[derive(Clone, Debug, PartialEq, Eq)]
pub struct AccessKey {
    pub nonce: u64,
    pub permission: AccessKeyPermission,
}

pub struct AccessKeyV {
    pub nonce: u64,
    pub permission: AccessKeyPermissionV,
}

impl View for AccessKey {
    type V = AccessKeyV;

    open spec fn view(&self) -> AccessKeyV {
        AccessKeyV { nonce: self.nonce, permission: self.permission@ }
    }
}

impl DeepView for AccessKey {
    type V = AccessKeyV;

    open spec fn deep_view(&self) -> AccessKeyV {
        self.view()
    }
}

// ---------------------------------------------------------------------------
// Accounts
// ---------------------------------------------------------------------------

/// The on-chain record of an account: balances, storage use, code hash.
#[derive(Clone, Copy, Debug, PartialEq, Eq)]
pub struct Account {
    pub amount: u128,
    pub locked: u128,
    pub code_hash: CryptoHash,
    pub storage_usage: u64,
}

/// The account record as a ghost value; the code hash as its bytes.
pub struct AccountV {
    pub amount: u128,
    pub locked: u128,
    pub code_hash: Seq<u8>,
    pub storage_usage: u64,
}

impl View for Account {
    type V = AccountV;

    open spec fn view(&self) -> AccountV {
        AccountV {
            amount: self.amount,
            locked: self.locked,
            code_hash: self.code_hash.0@,
            storage_usage: self.storage_usage,
        }
    }
}

impl DeepView for Account {
    type V = AccountV;

    open spec fn deep_view(&self) -> AccountV {
        self.view()
    }
}

// ---------------------------------------------------------------------------
// State changes
// ---------------------------------------------------------------------------

/// One typed mutation of on-chain state, each carrying the account it
/// belongs to.
#[derive(Clone, Debug, PartialEq, Eq)]
pub enum StateChangeValue {
    AccountUpdate { account_id: AccountId, account: Account },
    AccountDeletion { account_id: AccountId },
    DataUpdate { account_id: AccountId, key: Vec<u8>, value: Vec<u8> },
    DataDeletion { account_id: AccountId, key: Vec<u8> },
    AccessKeyUpdate { account_id: AccountId, public_key: PublicKey, access_key: AccessKey },
    AccessKeyDeletion { account_id: AccountId, public_key: PublicKey },
    ContractCodeUpdate { account_id: AccountId, code: Vec<u8> },
    ContractCodeDeletion { account_id: AccountId },
}

pub enum StateChangeV {
    AccountUpdate { account_id: Seq<u8>, account: AccountV },
    AccountDeletion { account_id: Seq<u8> },
    DataUpdate { account_id: Seq<u8>, key: Seq<u8>, value: Seq<u8> },
    DataDeletion { account_id: Seq<u8>, key: Seq<u8> },
    AccessKeyUpdate { account_id: Seq<u8>, public_key: PublicKeyV, access_key: AccessKeyV },
    AccessKeyDeletion { account_id: Seq<u8>, public_key: PublicKeyV },
    ContractCodeUpdate { account_id: Seq<u8>, code: Seq<u8> },
    ContractCodeDeletion { account_id: Seq<u8> },
}

impl View for StateChangeValue {
    type V = StateChangeV;

    open spec fn view(&self) -> StateChangeV {
        match self {
            StateChangeValue::AccountUpdate { account_id, account } => {
                StateChangeV::AccountUpdate { account_id: account_id@, account: account@ }
            },
            StateChangeValue::AccountDeletion { account_id } => {
                StateChangeV::AccountDeletion { account_id: account_id@ }
            },
            StateChangeValue::DataUpdate { account_id, key, value } => {
                StateChangeV::DataUpdate { account_id: account_id@, key: key@, value: value@ }
            },
            StateChangeValue::DataDeletion { account_id, key } => {
                StateChangeV::DataDeletion { account_id: account_id@, key: key@ }
            },
            StateChangeValue::AccessKeyUpdate { account_id, public_key, access_key } => {
                StateChangeV::AccessKeyUpdate {
                    account_id: account_id@,
                    public_key: public_key@,
                    access_key: access_key@,
                }
            },
            StateChangeValue::AccessKeyDeletion { account_id, public_key } => {
                StateChangeV::AccessKeyDeletion {
                    account_id: account_id@,
                    public_key: public_key@,
                }
            },
            StateChangeValue::ContractCodeUpdate { account_id, code } => {
                StateChangeV::ContractCodeUpdate { account_id: account_id@, code: code@ }
            },
            StateChangeValue::ContractCodeDeletion { account_id } => {
                StateChangeV::ContractCodeDeletion { account_id: account_id@ }
            },
        }
    }
}

impl DeepView for StateChangeValue {
    type V = StateChangeV;

    open spec fn deep_view(&self) -> StateChangeV {
        self.view()
    }
}

impl StateChangeV {
    /// The account a state change belongs to.
    pub open spec fn spec_account_id(self) -> Seq<u8> {
        match self {
            StateChangeV::AccountUpdate { account_id, .. } => account_id,
            StateChangeV::AccountDeletion { account_id } => account_id,
            StateChangeV::DataUpdate { account_id, .. } => account_id,
            StateChangeV::DataDeletion { account_id, .. } => account_id,
            StateChangeV::AccessKeyUpdate { account_id, .. } => account_id,
            StateChangeV::AccessKeyDeletion { account_id, .. } => account_id,
            StateChangeV::ContractCodeUpdate { account_id, .. } => account_id,
            StateChangeV::ContractCodeDeletion { account_id } => account_id,
        }
    }
}

/// The account a state change belongs to.
pub fn state_change_account_id(state_change_value: &StateChangeValue) -> (r: &AccountId)
    ensures
        r@ == state_change_value@.spec_account_id(),
{
    match state_change_value {
        StateChangeValue::AccountUpdate { account_id, .. } => account_id,
        StateChangeValue::AccountDeletion { account_id } => account_id,
        StateChangeValue::DataUpdate { account_id, .. } => account_id,
        StateChangeValue::DataDeletion { account_id, .. } => account_id,
        StateChangeValue::AccessKeyUpdate { account_id, .. } => account_id,
        StateChangeValue::AccessKeyDeletion { account_id, .. } => account_id,
        StateChangeValue::ContractCodeUpdate { account_id, .. } => account_id,
        StateChangeValue::ContractCodeDeletion { account_id } => account_id,
    }
}


/// A copy of a list of byte strings, element by element.
pub fn copy_byte_lists(v: &Vec<Vec<u8>>) -> (r: Vec<Vec<u8>>)
    ensures
        r.deep_view() == v.deep_view(),
{
    let mut r: Vec<Vec<u8>> = Vec::new();
    let mut i: usize = 0;
    while i < v.len()
        invariant
            i <= v@.len(),
            r.deep_view() =~= v.deep_view().subrange(0, i as int),
        decreases v@.len() - i,
    {
        let c = copy_bytes(&v[i]);
        let ghost cv = c@;
        let ghost rdv0 = r.deep_view();
        proof {
            assert(c.deep_view() =~= c@);
            assert(v@[i as int].deep_view() =~= v@[i as int]@);
        }
        r.push(c);
        proof {
            assert(r.deep_view() =~= rdv0.push(cv));
            assert(r.deep_view() =~= v.deep_view().subrange(0, i + 1));
        }
        i += 1;
    }
    proof {
        assert(r.deep_view() =~= v.deep_view());
    }
    r
}

impl AccessKeyPermission {
    pub fn duplicate(&self) -> (r: AccessKeyPermission)
        ensures
            r@ == self@,
    {
        match self {
            AccessKeyPermission::FullAccess => AccessKeyPermission::FullAccess,
            AccessKeyPermission::FunctionCall { allowance, receiver_id, method_names } => {
                AccessKeyPermission::FunctionCall {
                    allowance: *allowance,
                    receiver_id: copy_bytes(receiver_id),
                    method_names: copy_byte_lists(method_names),
                }
            },
        }
    }
}

impl AccessKey {
    pub fn duplicate(&self) -> (r: AccessKey)
        ensures
            r@ == self@,
    {
        AccessKey { nonce: self.nonce, permission: self.permission.duplicate() }
    }
}

impl StateChangeValue {
    pub fn duplicate(&self) -> (r: StateChangeValue)
        ensures
            r@ == self@,
    {
        match self {
            StateChangeValue::AccountUpdate { account_id, account } => {
                StateChangeValue::AccountUpdate {
                    account_id: account_id.duplicate(),
                    account: *account,
                }
            },
            StateChangeValue::AccountDeletion { account_id } => {
                StateChangeValue::AccountDeletion { account_id: account_id.duplicate() }
            },
            StateChangeValue::DataUpdate { account_id, key, value } => {
                StateChangeValue::DataUpdate {
                    account_id: account_id.duplicate(),
                    key: copy_bytes(key),
                    value: copy_bytes(value),
                }
            },
            StateChangeValue::DataDeletion { account_id, key } => {
                StateChangeValue::DataDeletion {
                    account_id: account_id.duplicate(),
                    key: copy_bytes(key),
                }
            },
            StateChangeValue::AccessKeyUpdate { account_id, public_key, access_key } => {
                StateChangeValue::AccessKeyUpdate {
                    account_id: account_id.duplicate(),
                    public_key: public_key.duplicate(),
                    access_key: access_key.duplicate(),
                }
            },
            StateChangeValue::AccessKeyDeletion { account_id, public_key } => {
                StateChangeValue::AccessKeyDeletion {
                    account_id: account_id.duplicate(),
                    public_key: public_key.duplicate(),
                }
            },
            StateChangeValue::ContractCodeUpdate { account_id, code } => {
                StateChangeValue::ContractCodeUpdate {
                    account_id: account_id.duplicate(),
                    code: copy_bytes(code),
                }
            },
            StateChangeValue::ContractCodeDeletion { account_id } => {
                StateChangeValue::ContractCodeDeletion { account_id: account_id.duplicate() }
            },
        }
    }
}

// ---------------------------------------------------------------------------
// Blocks
// ---------------------------------------------------------------------------

/// The part of a block header the state projection keeps: height and time.
#[derive(Clone, Copy, Debug, PartialEq, Eq, Structural)]
pub struct BlockHeaderInnerLite {
    pub height: u64,
    pub timestamp_nanosec: u64,
}

/// The header fields of a fetched block that the library reads.
#[derive(Clone, Copy, Debug, PartialEq, Eq)]
pub struct BlockHeaderView {
    pub height: u64,
    pub hash: CryptoHash,
    pub prev_hash: CryptoHash,
    pub timestamp_nanosec: u64,
}

impl BlockHeaderView {
    /// The summary of a header that the state projection stores.
    pub open spec fn spec_inner_lite(self) -> BlockHeaderInnerLite {
        BlockHeaderInnerLite { height: self.height, timestamp_nanosec: self.timestamp_nanosec }
    }

    pub fn inner_lite(&self) -> (r: BlockHeaderInnerLite)
        ensures
            r == self.spec_inner_lite(),
    {
        BlockHeaderInnerLite { height: self.height, timestamp_nanosec: self.timestamp_nanosec }
    }
}

/// One shard's ordered list of state changes.
#[derive(Clone, Debug, PartialEq, Eq)]
pub struct Shard {
    pub state_changes: Vec<StateChangeValue>,
}

pub struct ShardV {
    pub state_changes: Seq<StateChangeV>,
}

impl View for Shard {
    type V = ShardV;

    open spec fn view(&self) -> ShardV {
        ShardV { state_changes: self.state_changes.deep_view() }
    }
}

impl DeepView for Shard {
    type V = ShardV;

    open spec fn deep_view(&self) -> ShardV {
        self.view()
    }
}

/// A fetched block: its header and the state changes of its shards.
#[derive(Clone, Debug, PartialEq, Eq)]
pub struct BlockWithTxHashes {
    pub header: BlockHeaderView,
    pub shards: Vec<Shard>,
}

pub struct BlockWithTxHashesV {
    pub header: BlockHeaderView,
    pub shards: Seq<ShardV>,
}

impl View for BlockWithTxHashes {
    type V = BlockWithTxHashesV;

    open spec fn view(&self) -> BlockWithTxHashesV {
        BlockWithTxHashesV { header: self.header, shards: self.shards.deep_view() }
    }
}

impl DeepView for BlockWithTxHashes {
    type V = BlockWithTxHashesV;

    open spec fn deep_view(&self) -> BlockWithTxHashesV {
        self.view()
    }
}

} // verus!
