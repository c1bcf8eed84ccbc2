//! The transaction fetcher's algorithmic half: partitioning the retained
//! signatures into fixed-size batches, and turning one successfully fetched
//! detail answer into a `TransactionRecord`.  The caller performs the detail
//! calls themselves, batch by batch, pacing each call and each batch, and
//! skips — without aborting — any signature whose call fails.

use vstd::prelude::*;
use crate::types::{SignatureEntry, TransactionRecord};

verus! {

/// How many detail calls form one batch.
pub const BATCH_SIZE: usize = 5;

/// How long to pause after each detail call, in milliseconds.
pub const TX_DELAY_MS: u64 = 100;

/// How long to pause after each batch, in milliseconds.
pub const BATCH_DELAY_MS: u64 = 500;

/// The contents of a sequence of batches.
pub open spec fn batch_views(b: Seq<Vec<SignatureEntry>>) -> Seq<Seq<SignatureEntry>> {
    b.map_values(|v: Vec<SignatureEntry>| v@)
}

/// Partitions the signatures into consecutive batches: every batch but the
/// last holds exactly `batch_size` entries, the last holds the non-empty
/// remainder, and laid end to end the batches are the input, in order.
pub fn make_batches(sigs: Vec<SignatureEntry>, batch_size: usize) -> (r: Vec<Vec<SignatureEntry>>)
    requires
        batch_size >= 1,
    ensures
        batch_views(r@).flatten() == sigs@,
        forall|i: int| 0 <= i < r@.len() ==> 1 <= (#[trigger] r@[i])@.len() <= batch_size,
        forall|i: int| 0 <= i < r@.len() - 1 ==> (#[trigger] r@[i])@.len() == batch_size,
{
    broadcast use vstd::seq_lib::group_seq_properties;

    let mut rest = sigs;
    let ghost all = rest@;
    let mut done: Vec<Vec<SignatureEntry>> = Vec::new();
    while rest.len() > 0
        invariant
            batch_size >= 1,
            batch_views(done@).flatten_alt() + rest@ == all,
            forall|i: int| 0 <= i < done@.len() ==> 1 <= (#[trigger] done@[i])@.len()
                <= batch_size,
            forall|i: int| 0 <= i < done@.len() - 1 ==> (#[trigger] done@[i])@.len() == batch_size,
            done@.len() > 0 && rest@.len() > 0 ==> done@.last()@.len() == batch_size,
        decreases rest@.len(),
    {
        let take_n: usize = if rest.len() < batch_size {
            rest.len()
        } else {
            batch_size
        };
        let ghost before = rest@;
        let mut chunk = rest;
        let suffix = chunk.split_off(take_n);
        rest = suffix;
        proof {
            assert(chunk@ + rest@ =~= before);
            assert(batch_views(done@.push(chunk)) =~= batch_views(done@).push(chunk@));
            assert(batch_views(done@.push(chunk)).flatten_alt() =~= batch_views(
                done@,
            ).flatten_alt() + chunk@) by {
                assert(batch_views(done@).push(chunk@).drop_last() =~= batch_views(done@));
            }
            assert(batch_views(done@).flatten_alt() + chunk@ + rest@ =~= all);
        }
        done.push(chunk);
    }
    proof {
        assert(batch_views(done@).flatten_alt() =~= batch_views(done@).flatten_alt() + rest@);
        batch_views(done@).lemma_flatten_and_flatten_alt_are_equivalent();
    }
    done
}

/// Builds the record for one signature whose detail call succeeded, from the
/// fields the answer carried: the fee, whether execution reported no error,
/// the block time (the epoch stands in for a missing one), and the compute
/// cost where the transaction version exposes it.
pub fn make_record(
    signature: String,
    fee_lamports: u64,
    execution_ok: bool,
    block_time: Option<i64>,
    compute_units: Option<u64>,
) -> (r: TransactionRecord)
    ensures
        r.signature == signature,
        r.fee_lamports == fee_lamports,
        r.success == execution_ok,
        r.compute_units == compute_units,
        r.timestamp == (match block_time {
            Some(t) => t,
            None => 0i64,
        }),
{
    let timestamp: i64 = match block_time {
        Some(t) => t,
        None => 0,
    };
    TransactionRecord {
        signature,
        timestamp,
        success: execution_ok,
        fee_lamports,
        compute_units,
    }
}

} // verus!
