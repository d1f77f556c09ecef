//! Building a state projection from a genesis state dump.
//!
//! The application reads the genesis configuration and streams the
//! records file; this module holds the translation of each record into a
//! state change, the filter check, and the assembly of the `FlatState`.

use vstd::prelude::*;
use crate::data::{empty_data_v, spec_apply_change, FlatStateData};
use crate::filter::{spec_allowed, FlatStateFilter, FlatStateFilterV};
use crate::state::{FlatState, FlatStateConfig};
use crate::types::{
    AccessKey, AccessKeyV, Account, AccountId, AccountV, BlockHeaderInnerLite, ChainId,
    CryptoHash, PublicKey, PublicKeyV, StateChangeV, StateChangeValue,
};

verus! {

/// One record of the genesis state dump. Receipt records carry state the
/// projection does not keep; only their owning account matters here.
#[derive(Debug, Clone, PartialEq)]
pub enum StateRecord {
    Account { account_id: AccountId, account: Account },
    Data { account_id: AccountId, data_key: Vec<u8>, value: Vec<u8> },
    Contract { account_id: AccountId, code: Vec<u8> },
    AccessKey { account_id: AccountId, public_key: PublicKey, access_key: AccessKey },
    PostponedReceipt { account_id: AccountId },
    ReceivedData { account_id: AccountId },
    DelayedReceipt { account_id: AccountId },
}

pub enum StateRecordV {
    Account { account_id: Seq<u8>, account: AccountV },
    Data { account_id: Seq<u8>, data_key: Seq<u8>, value: Seq<u8> },
    Contract { account_id: Seq<u8>, code: Seq<u8> },
    AccessKey { account_id: Seq<u8>, public_key: PublicKeyV, access_key: AccessKeyV },
    PostponedReceipt { account_id: Seq<u8> },
    ReceivedData { account_id: Seq<u8> },
    DelayedReceipt { account_id: Seq<u8> },
}

impl View for StateRecord {
    type V = StateRecordV;

    open spec fn view(&self) -> StateRecordV {
        match self {
            StateRecord::Account { account_id, account } => StateRecordV::Account {
                account_id: account_id@,
                account: account@,
            },
            StateRecord::Data { account_id, data_key, value } => StateRecordV::Data {
                account_id: account_id@,
                data_key: data_key@,
                value: value@,
            },
            StateRecord::Contract { account_id, code } => StateRecordV::Contract {
                account_id: account_id@,
                code: code@,
            },
            StateRecord::AccessKey { account_id, public_key, access_key } => {
                StateRecordV::AccessKey {
                    account_id: account_id@,
                    public_key: public_key@,
                    access_key: access_key@,
                }
            },
            StateRecord::PostponedReceipt { account_id } => StateRecordV::PostponedReceipt {
                account_id: account_id@,
            },
            StateRecord::ReceivedData { account_id } => StateRecordV::ReceivedData {
                account_id: account_id@,
            },
            StateRecord::DelayedReceipt { account_id } => StateRecordV::DelayedReceipt {
                account_id: account_id@,
            },
        }
    }
}

impl DeepView for StateRecord {
    type V = StateRecordV;

    open spec fn deep_view(&self) -> StateRecordV {
        self.view()
    }
}

impl StateRecordV {
    pub open spec fn spec_account_id(self) -> Seq<u8> {
        match self {
            StateRecordV::Account { account_id, .. } => account_id,
            StateRecordV::Data { account_id, .. } => account_id,
            StateRecordV::Contract { account_id, .. } => account_id,
            StateRecordV::AccessKey { account_id, .. } => account_id,
            StateRecordV::PostponedReceipt { account_id } => account_id,
            StateRecordV::ReceivedData { account_id } => account_id,
            StateRecordV::DelayedReceipt { account_id } => account_id,
        }
    }
}

/// The account a record belongs to.
pub fn state_record_account_id(record: &StateRecord) -> (r: &AccountId)
    ensures
        r@ == record@.spec_account_id(),
{
    match record {
        StateRecord::Account { account_id, .. } => account_id,
        StateRecord::Data { account_id, .. } => account_id,
        StateRecord::Contract { account_id, .. } => account_id,
        StateRecord::AccessKey { account_id, .. } => account_id,
        StateRecord::PostponedReceipt { account_id } => account_id,
        StateRecord::ReceivedData { account_id } => account_id,
        StateRecord::DelayedReceipt { account_id } => account_id,
    }
}

/// What a record contributes to the projection: an update of the matching
/// kind, or nothing for receipt records.
pub open spec fn spec_record_change(r: StateRecordV) -> Option<StateChangeV> {
    match r {
        StateRecordV::Account { account_id, account } => Some(
            StateChangeV::AccountUpdate { account_id, account },
        ),
        StateRecordV::Data { account_id, data_key, value } => Some(
            StateChangeV::DataUpdate { account_id, key: data_key, value },
        ),
        StateRecordV::Contract { account_id, code } => Some(
            StateChangeV::ContractCodeUpdate { account_id, code },
        ),
        StateRecordV::AccessKey { account_id, public_key, access_key } => Some(
            StateChangeV::AccessKeyUpdate { account_id, public_key, access_key },
        ),
        StateRecordV::PostponedReceipt { .. } => None,
        StateRecordV::ReceivedData { .. } => None,
        StateRecordV::DelayedReceipt { .. } => None,
    }
}

/// Translates one record.
pub fn record_to_state_change(record: StateRecord) -> (r: Option<StateChangeValue>)
    ensures
        match r {
            Some(c) => spec_record_change(record@) == Some(c@),
            None => spec_record_change(record@) is None,
        },
{
    match record {
        StateRecord::Account { account_id, account } => Some(
            StateChangeValue::AccountUpdate { account_id, account },
        ),
        StateRecord::Data { account_id, data_key, value } => Some(
            StateChangeValue::DataUpdate { account_id, key: data_key, value },
        ),
        StateRecord::Contract { account_id, code } => Some(
            StateChangeValue::ContractCodeUpdate { account_id, code },
        ),
        StateRecord::AccessKey { account_id, public_key, access_key } => Some(
            StateChangeValue::AccessKeyUpdate { account_id, public_key, access_key },
        ),
        StateRecord::PostponedReceipt { .. } => None,
        StateRecord::ReceivedData { .. } => None,
        StateRecord::DelayedReceipt { .. } => None,
    }
}

/// What one streamed record does to the projection: nothing when the
/// filter rejects its account or it is a receipt record, otherwise its
/// translated state change.
pub open spec fn spec_apply_record(
    d: crate::data::FlatStateDataV,
    f: FlatStateFilterV,
    r: StateRecordV,
) -> crate::data::FlatStateDataV {
    if spec_allowed(f, r.spec_account_id()) {
        match spec_record_change(r) {
            Some(c) => spec_apply_change(d, c),
            None => d,
        }
    } else {
        d
    }
}

/// A whole dump, record by record.
pub open spec fn spec_apply_records(
    d: crate::data::FlatStateDataV,
    f: FlatStateFilterV,
    rs: Seq<StateRecordV>,
) -> crate::data::FlatStateDataV
    decreases rs.len(),
{
    if rs.len() == 0 {
        d
    } else {
        spec_apply_record(spec_apply_records(d, f, rs.drop_last()), f, rs.last())
    }
}

/// Streams one record into the projection, as the dump loader does.
pub fn apply_dump_record(data: &mut FlatStateData, filter: &FlatStateFilter, record: StateRecord)
    requires
        old(data).wf(),
    ensures
        final(data).wf(),
        final(data)@ == spec_apply_record(old(data)@, filter@, record@),
{
    if !filter.is_account_allowed(state_record_account_id(&record)) {
        return ;
    }
    match record_to_state_change(record) {
        Some(change) => {
            data.apply_state_change(change);
        },
        None => {},
    }
}

impl FlatState {
    /// Builds the projection from a state dump: the chain id and block
    /// come from the genesis configuration and the fetched genesis block;
    /// each record that passes the filter is translated and applied in
    /// order.
    #[verifier::loop_isolation(false)]
    pub fn from_state_dump(
        filter: FlatStateFilter,
        chain_id: ChainId,
        block_hash: CryptoHash,
        block_header: BlockHeaderInnerLite,
        records: Vec<StateRecord>,
    ) -> (r: FlatState)
        ensures
            r.config.chain_id == chain_id,
            r.config.filter == filter,
            r.block_hash == block_hash,
            r.block_header == block_header,
            r@.data == spec_apply_records(empty_data_v(), filter@, records.deep_view()),
            r.wf(),
    {
        let ghost rs = records.deep_view();
        let mut data = FlatStateData::default();
        let mut input = records;
        let mut i: usize = 0;
        proof {
            assert(rs.len() == input@.len());
            assert(input@.len() == input.len());
            assert(rs.take(0) =~= Seq::<StateRecordV>::empty());
        }
        while input.len() > 0
            invariant
                i + input@.len() == rs.len(),
                i <= rs.len(),
                rs.len() <= usize::MAX,
                input.deep_view() =~= rs.skip(i as int),
                data.wf(),
                data@ == spec_apply_records(empty_data_v(), filter@, rs.take(i as int)),
            decreases input@.len(),
        {
            let ghost inpre = input.deep_view();
            let record = input.remove(0);
            proof {
                assert(input.deep_view() =~= inpre.remove(0));
                assert(inpre == rs.skip(i as int));
                assert(record.deep_view() == inpre[0]);
                assert(record@ == rs[i as int]);
                assert(input.deep_view() =~= rs.skip(i + 1));
                assert(rs.take(i + 1).drop_last() =~= rs.take(i as int));
                assert(rs.take(i + 1).last() == rs[i as int]);
            }
            apply_dump_record(&mut data, &filter, record);
            i += 1;
        }
        proof {
            assert(rs.take(rs.len() as int) =~= rs);
        }
        FlatState { config: FlatStateConfig { chain_id, filter }, block_header, block_hash, data }
    }
}

} // verus!
