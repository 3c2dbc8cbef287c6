//! Decisions of the prevout resolver. A driver queries a node and hands the answers here:
//! an output that is still unspent must have been confirmed at or below the proof file's
//! height; for one that is spent, the UTXO's recorded hints say which block to search, and the
//! output is taken from the transaction with the matching id in that block.
use vstd::prelude::*;

use crate::proofs::{Proof, ProofError, UtxoView};
use crate::transaction::{bytes_equal, outputs_view, OutPoint, OutPointView, TxOut, TxOutView};

verus! {

/// Where to look for a spent output.
#[derive(Debug)]
pub enum BlockHint {
    /// The block with this hash.
    Hash(Vec<u8>),
    /// The block at this height.
    Height(u32),
    /// Nothing is recorded.
    Unknown,
}

/// Index of the first UTXO that spends the outpoint.
pub open spec fn first_with_point(utxos: Seq<UtxoView>, p: OutPointView) -> Option<int>
    decreases utxos.len(),
{
    if utxos.len() == 0 {
        None
    } else if utxos[0].point == p {
        Some(0)
    } else {
        match first_with_point(utxos.drop_first(), p) {
            Some(i) => Some(i + 1),
            None => None,
        }
    }
}

/// The hint that the first UTXO spending the outpoint records: its block hash, else its block
/// height when that is not zero.
pub open spec fn spec_block_hint(utxos: Seq<UtxoView>, p: OutPointView) -> Option<Result<Seq<u8>, u32>> {
    match first_with_point(utxos, p) {
        Some(i) => match utxos[i].block_hash {
            Some(h) => Some(Ok(h)),
            None => if utxos[i].block_number != 0 {
                Some(Err(utxos[i].block_number))
            } else {
                None
            },
        },
        None => None,
    }
}

proof fn lemma_first_with_point(utxos: Seq<UtxoView>, p: OutPointView, k: int)
    requires
        0 <= k <= utxos.len(),
        forall|j: int| 0 <= j < k ==> #[trigger] utxos[j].point != p,
    ensures
        k < utxos.len() && utxos[k].point == p ==> first_with_point(utxos, p) == Some(k),
        k == utxos.len() ==> first_with_point(utxos, p) is None,
    decreases k,
{
    if k > 0 {
        let rest = utxos.drop_first();
        assert forall|j: int| 0 <= j < k - 1 implies #[trigger] rest[j].point != p by {
            assert(rest[j] == utxos[j + 1]);
        }
        lemma_first_with_point(rest, p, k - 1);
    } else if utxos.len() == 0 {
    }
}

/// Checks an output that is still unspent: it must have been confirmed at or below the height
/// the proof file is about.
pub fn resolve_unspent(
    file_height: u32,
    confirmed_height: u32,
    value: u64,
    script_pubkey: Vec<u8>,
) -> (r: Result<TxOut, ProofError>)
    ensures
        confirmed_height <= file_height ==> (r matches Ok(o) && o@ == (TxOutView { value, script_pubkey: script_pubkey@ })),
        confirmed_height > file_height ==> r == Err::<TxOut, ProofError>(ProofError::PrevoutNotFound),
{
    if confirmed_height > file_height {
        return Err(ProofError::PrevoutNotFound);
    }
    Ok(TxOut { value, script_pubkey })
}

/// What the proof's UTXOs record about the block that created the outpoint.
pub fn block_hint(proof: &Proof, point: &OutPoint) -> (r: BlockHint)
    ensures
        match spec_block_hint(proof@.utxos, point@) {
            Some(Ok(h)) => r matches BlockHint::Hash(v) && v@ == h,
            Some(Err(n)) => r == BlockHint::Height(n),
            None => r is Unknown,
        },
{
    let ghost us = proof@.utxos;
    let mut i: usize = 0;
    while i < proof.utxos.len()
        invariant
            us == proof@.utxos,
            0 <= i <= us.len(),
            forall|j: int| 0 <= j < i ==> #[trigger] us[j].point != point@,
        decreases us.len() - i,
    {
        assert(us[i as int] == proof.utxos@[i as int]@);
        if proof.utxos[i].point.same_as(point) {
            proof {
                lemma_first_with_point(us, point@, i as int);
            }
            let u = &proof.utxos[i];
            return match &u.block_hash {
                Some(h) => BlockHint::Hash(crate::transaction::copy_bytes(h)),
                None => if u.block_number != 0 {
                    BlockHint::Height(u.block_number)
                } else {
                    BlockHint::Unknown
                },
            };
        }
        i += 1;
    }
    proof {
        lemma_first_with_point(us, point@, i as int);
    }
    BlockHint::Unknown
}

/// Index of the first transaction with the given id.
pub open spec fn first_with_txid(txids: Seq<Seq<u8>>, txid: Seq<u8>) -> Option<int>
    decreases txids.len(),
{
    if txids.len() == 0 {
        None
    } else if txids[0] == txid {
        Some(0)
    } else {
        match first_with_txid(txids.drop_first(), txid) {
            Some(i) => Some(i + 1),
            None => None,
        }
    }
}

proof fn lemma_first_with_txid(txids: Seq<Seq<u8>>, txid: Seq<u8>, k: int)
    requires
        0 <= k <= txids.len(),
        forall|j: int| 0 <= j < k ==> #[trigger] txids[j] != txid,
    ensures
        k < txids.len() && txids[k] == txid ==> first_with_txid(txids, txid) == Some(k),
        k == txids.len() ==> first_with_txid(txids, txid) is None,
    decreases k,
{
    if k > 0 {
        let rest = txids.drop_first();
        assert forall|j: int| 0 <= j < k - 1 implies #[trigger] rest[j] != txid by {
            assert(rest[j] == txids[j + 1]);
        }
        lemma_first_with_txid(rest, txid, k - 1);
    }
}

/// The output an outpoint names within a block, given the ids of the block's transactions
/// and the outputs of each: those of the first transaction with the outpoint's id, at the
/// outpoint's index.
pub fn find_in_block(txids: &Vec<Vec<u8>>, outputs: &Vec<Vec<TxOut>>, point: &OutPoint) -> (r: Result<TxOut, ProofError>)
    requires
        txids@.len() == outputs@.len(),
    ensures
        ({
            let ids = txids@.map_values(|t: Vec<u8>| t@);
            match first_with_txid(ids, point@.txid) {
                Some(k) => if (point.vout as int) < outputs@[k]@.len() {
                    r matches Ok(o) && o@ == outputs_view(outputs@[k]@)[point.vout as int]
                } else {
                    r == Err::<TxOut, ProofError>(ProofError::PrevoutNotFound)
                },
                None => r == Err::<TxOut, ProofError>(ProofError::PrevoutNotFound),
            }
        }),
{
    let ghost ids = txids@.map_values(|t: Vec<u8>| t@);
    let mut i: usize = 0;
    while i < txids.len()
        invariant
            ids == txids@.map_values(|t: Vec<u8>| t@),
            txids@.len() == outputs@.len(),
            0 <= i <= txids.len(),
            forall|j: int| 0 <= j < i ==> #[trigger] ids[j] != point@.txid,
        decreases txids.len() - i,
    {
        assert(ids[i as int] == txids@[i as int]@);
        if bytes_equal(&txids[i], &point.txid) {
            proof {
                lemma_first_with_txid(ids, point@.txid, i as int);
            }
            let outs = &outputs[i];
            if (point.vout as usize) < outs.len() {
                return Ok(outs[point.vout as usize].copy());
            }
            return Err(ProofError::PrevoutNotFound);
        }
        i += 1;
    }
    proof {
        lemma_first_with_txid(ids, point@.txid, i as int);
    }
    Err(ProofError::PrevoutNotFound)
}

} // verus!
