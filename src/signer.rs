//! Decisions of the signing dialogues. Signers do not know that the challenge input must stay
//! unsigned and has no funding transaction: a full node is given a fictive previous output for
//! it, and a hardware wallet that asks for it is given a hand-made witness input of value zero.
use vstd::prelude::*;

use crate::transaction::{copy_bytes, OutPoint, Transaction, TxInView, OP_TRUE};

verus! {

/// The previous output a full node is told the challenge input spends: the challenge
/// outpoint, locked by a script that always succeeds, with no redeem script.
pub struct FictivePrevout {
    pub point: OutPoint,
    pub script_pubkey: Vec<u8>,
    pub redeem_script: Vec<u8>,
}

/// The fictive previous output for the first input of an unsigned proof transaction.
pub fn fictive_challenge_prevout(tx: &Transaction) -> (r: Option<FictivePrevout>)
    ensures
        tx@.input.len() == 0 ==> r is None,
        tx@.input.len() > 0 ==> (r matches Some(f) && f.point@ == tx@.input[0].previous_output
            && f.script_pubkey@ == seq![OP_TRUE] && f.redeem_script@.len() == 0),
{
    if tx.input.len() == 0 {
        return None;
    }
    let script = vec![OP_TRUE];
    assert(script@ =~= seq![OP_TRUE]);
    Some(FictivePrevout { point: tx.input[0].previous_output.copy(), script_pubkey: script, redeem_script: Vec::new() })
}

/// What a hardware wallet asks for during signing.
#[derive(Clone, Copy, Debug, PartialEq, Eq, Structural)]
pub enum RequestKind {
    Input,
    Output,
    Meta,
    Finished,
    ExtraData,
}

/// The fields of a signing request that decide how to answer it.
#[derive(Clone, Copy, Debug, PartialEq, Eq, Structural)]
pub struct SignRequest {
    pub kind: Option<RequestKind>,
    pub has_details: bool,
    pub has_tx_hash: bool,
    pub request_index: Option<u32>,
}

/// A request for input 0 of the transaction being signed (not of a previous transaction):
/// the challenge input, which the driver answers itself.
pub open spec fn spec_is_challenge_request(req: SignRequest) -> bool {
    &&& req.kind == Some(RequestKind::Input)
    &&& req.has_details
    &&& !req.has_tx_hash
    &&& req.request_index == Some(0u32)
}

pub fn is_challenge_request(req: &SignRequest) -> (r: bool)
    ensures
        r == spec_is_challenge_request(*req),
{
    match (req.kind, req.request_index) {
        (Some(RequestKind::Input), Some(0)) => req.has_details && !req.has_tx_hash,
        _ => false,
    }
}

/// How a hardware wallet is told to treat an input's script.
#[derive(Clone, Copy, Debug, PartialEq, Eq, Structural)]
pub enum InputScriptType {
    SpendAddress,
    SpendMultisig,
    External,
    SpendWitness,
    SpendP2shWitness,
}

/// An input as a hardware wallet receives it.
pub struct DeviceInput {
    /// The previous transaction id, most significant byte first.
    pub prev_hash: Vec<u8>,
    pub prev_index: u32,
    pub script_sig: Vec<u8>,
    pub sequence: u32,
    pub amount: u64,
    pub script_type: InputScriptType,
}

pub open spec fn reversed(s: Seq<u8>) -> Seq<u8> {
    Seq::new(s.len(), |i: int| s[s.len() - 1 - i])
}

/// The bytes in reverse order.
pub fn reverse_bytes(b: &Vec<u8>) -> (r: Vec<u8>)
    ensures
        r@ == reversed(b@),
{
    let mut r: Vec<u8> = Vec::new();
    let mut i: usize = b.len();
    while i > 0
        invariant
            0 <= i <= b@.len(),
            r@ =~= reversed(b@).subrange(0, b@.len() - i),
        decreases i,
    {
        i -= 1;
        r.push(b[i]);
    }
    r
}

/// The answer to the challenge request: the challenge input with its real outpoint, script
/// and sequence, an amount of zero and the witness script type, under which the device signs
/// over the amount given instead of asking for the previous transaction.
pub fn challenge_device_input(tx: &Transaction) -> (r: Option<DeviceInput>)
    ensures
        tx@.input.len() == 0 ==> r is None,
        tx@.input.len() > 0 ==> ({
            let i: TxInView = tx@.input[0];
            r matches Some(d) && d.prev_hash@ == reversed(i.previous_output.txid) && d.prev_index
                == i.previous_output.vout && d.script_sig@ == i.script_sig && d.sequence == i.sequence
                && d.amount == 0 && d.script_type == InputScriptType::SpendWitness
        }),
{
    if tx.input.len() == 0 {
        return None;
    }
    let input = &tx.input[0];
    Some(DeviceInput {
        prev_hash: reverse_bytes(&input.previous_output.txid),
        prev_index: input.previous_output.vout,
        script_sig: copy_bytes(&input.script_sig),
        sequence: input.sequence,
        amount: 0,
        script_type: InputScriptType::SpendWitness,
    })
}

} // verus!
