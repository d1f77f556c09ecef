//! The state projection around its configuration: hash-linked block
//! application.

use vstd::prelude::*;
use crate::data::{spec_apply_change, spec_apply_changes, FlatStateData, FlatStateDataV};
use crate::filter::{spec_allowed, FlatStateFilter, FlatStateFilterV};
use crate::types::{
    state_change_account_id, BlockHeaderInnerLite, BlockWithTxHashes, ChainId, CryptoHash, ShardV,
    StateChangeV,
};

verus! {

pub type FlatStateResult<T> = Result<T, FlatStateError>;

/// Why a library operation failed.
#[derive(Debug, Clone, PartialEq, Eq)]
pub enum FlatStateError {
    BlockHashMismatch,
    FilterError(String),
    RpcError(String),
    StateDumpError(String),
    StorageError(String),
}

/// The chain a projection belongs to and the accounts it keeps.
#[derive(Debug, Clone, PartialEq)]
pub struct FlatStateConfig {
    pub chain_id: ChainId,
    pub filter: FlatStateFilter,
}

pub struct FlatStateConfigV {
    pub chain_id: ChainId,
    pub filter: FlatStateFilterV,
}

impl View for FlatStateConfig {
    type V = FlatStateConfigV;

    open spec fn view(&self) -> FlatStateConfigV {
        FlatStateConfigV { chain_id: self.chain_id, filter: self.filter@ }
    }
}

/// The projection, the block it is current at, and its configuration. It is
/// advanced only by `apply_block`, which checks the hash linkage.
#[derive(Debug, PartialEq)]
pub struct FlatState {
    pub config: FlatStateConfig,
    pub block_header: BlockHeaderInnerLite,
    pub block_hash: CryptoHash,
    pub data: FlatStateData,
}

pub struct FlatStateV {
    pub config: FlatStateConfigV,
    pub block_header: BlockHeaderInnerLite,
    pub block_hash: CryptoHash,
    pub data: FlatStateDataV,
}

impl View for FlatState {
    type V = FlatStateV;

    open spec fn view(&self) -> FlatStateV {
        FlatStateV {
            config: self.config@,
            block_header: self.block_header,
            block_hash: self.block_hash,
            data: self.data@,
        }
    }
}

/// The state changes of a block's shards, in shard order and, within each
/// shard, in their emitted order.
pub open spec fn shard_changes(shards: Seq<ShardV>) -> Seq<StateChangeV>
    decreases shards.len(),
{
    if shards.len() == 0 {
        Seq::empty()
    } else {
        shard_changes(shards.drop_last()) + shards.last().state_changes
    }
}

/// The subsequence of changes whose account the filter allows.
pub open spec fn filter_changes(f: FlatStateFilterV, cs: Seq<StateChangeV>) -> Seq<StateChangeV>
    decreases cs.len(),
{
    if cs.len() == 0 {
        Seq::empty()
    } else {
        let rest = filter_changes(f, cs.drop_last());
        if spec_allowed(f, cs.last().spec_account_id()) {
            rest.push(cs.last())
        } else {
            rest
        }
    }
}

/// What a successfully applied block leaves behind.
pub open spec fn spec_apply_block(s: FlatStateV, b: crate::types::BlockWithTxHashesV) -> FlatStateV {
    FlatStateV {
        config: s.config,
        block_header: b.header.spec_inner_lite(),
        block_hash: b.header.hash,
        data: spec_apply_changes(s.data, filter_changes(s.config.filter, shard_changes(b.shards))),
    }
}

impl FlatState {
    pub open spec fn wf(self) -> bool {
        self.data.wf()
    }

    /// Applies one block. The block must link to the current hash: on
    /// `prev_hash` mismatch nothing changes and `BlockHashMismatch` comes
    /// back. On success the projection advances to the block's hash and
    /// header, and every allowed state change of every shard is applied in
    /// order.
    pub fn apply_block(&mut self, block: BlockWithTxHashes) -> (r: FlatStateResult<()>)
        requires
            old(self).wf(),
        ensures
            final(self).wf(),
            block.header.prev_hash != old(self).block_hash ==> r == Err::<
                (),
                FlatStateError,
            >(FlatStateError::BlockHashMismatch) && *final(self) == *old(self),
            block.header.prev_hash == old(self).block_hash ==> r == Ok::<
                (),
                FlatStateError,
            >(()) && final(self)@ == spec_apply_block(old(self)@, block@),
    {
        if !self.block_hash.eq_hash(&block.header.prev_hash) {
            return Err(FlatStateError::BlockHashMismatch);
        }
        self.block_hash = block.header.hash;
        self.block_header = block.header.inner_lite();
        let ghost d0 = old(self)@.data;
        let ghost f = old(self)@.config.filter;
        let ghost shardsv = block@.shards;
        let mut s: usize = 0;
        proof {
            assert(shardsv.take(0) =~= Seq::<ShardV>::empty());
        }
        while s < block.shards.len()
            invariant
                self.config == old(self).config,
                self.block_hash == block.header.hash,
                self.block_header == block.header.spec_inner_lite(),
                self.data.wf(),
                s <= block.shards.len(),
                shardsv == block@.shards,
                block@.shards.len() == block.shards@.len(),
                f == old(self)@.config.filter,
                self.data@ == spec_apply_changes(
                    d0,
                    filter_changes(f, shard_changes(shardsv.take(s as int))),
                ),
            decreases block.shards@.len() - s,
        {
            let changes = &block.shards[s].state_changes;
            let ghost csv = shardsv[s as int].state_changes;
            let ghost prefix = shard_changes(shardsv.take(s as int));
            let mut j: usize = 0;
            proof {
                assert(block.shards@[s as int].deep_view() == shardsv[s as int]);
                assert(csv.take(0) =~= Seq::<StateChangeV>::empty());
                assert(prefix + csv.take(0) =~= prefix);
            }
            while j < changes.len()
                invariant
                    j <= changes.len(),
                    changes@.len() == csv.len(),
                    forall|t: int| 0 <= t < csv.len() ==> changes@[t].deep_view() == csv[t],
                    self.config == old(self).config,
                    f == old(self)@.config.filter,
                    self.block_hash == block.header.hash,
                    self.block_header == block.header.spec_inner_lite(),
                    self.data.wf(),
                    self.data@ == spec_apply_changes(
                        d0,
                        filter_changes(f, prefix + csv.take(j as int)),
                    ),
                decreases changes@.len() - j,
            {
                let change = &changes[j];
                let ghost cvj = csv[j as int];
                let ghost base = prefix + csv.take(j as int);
                proof {
                    assert(change@ == cvj);
                    assert(base.push(cvj) =~= prefix + csv.take(j + 1));
                    assert(base.push(cvj).drop_last() =~= base);
                }
                if self.config.filter.is_account_allowed(state_change_account_id(change)) {
                    self.data.apply_state_change(change.duplicate());
                    proof {
                        assert(spec_allowed(f, cvj.spec_account_id()));
                        assert(filter_changes(f, base.push(cvj)) == filter_changes(f, base).push(
                            cvj,
                        ));
                        assert(filter_changes(f, base).push(cvj).drop_last() =~= filter_changes(
                            f,
                            base,
                        ));
                        assert(self.data@ == spec_apply_change(
                            spec_apply_changes(d0, filter_changes(f, base)),
                            cvj,
                        ));
                        assert(self.data@ == spec_apply_changes(
                            d0,
                            filter_changes(f, base).push(cvj),
                        ));
                    }
                } else {
                    proof {
                        assert(!spec_allowed(f, cvj.spec_account_id()));
                        assert(filter_changes(f, base.push(cvj)) == filter_changes(f, base));
                    }
                }
                j += 1;
            }
            proof {
                assert(prefix + csv.take(csv.len() as int) =~= prefix + csv);
                assert(shardsv.take(s + 1).drop_last() =~= shardsv.take(s as int));
                assert(shardsv.take(s + 1).last() == shardsv[s as int]);
                assert(prefix + csv =~= shard_changes(shardsv.take(s + 1)));
            }
            s += 1;
        }
        proof {
            assert(shardsv.take(shardsv.len() as int) =~= shardsv);
        }
        Ok(())
    }
}

} // verus!
