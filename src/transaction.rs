//! Plain-value model of the Bitcoin transactions that proofs are built from, and the
//! challenge input that binds a proof to the auditor's challenge string.
use vstd::prelude::*;

use vstd::utf8::encode_utf8;

use crate::bindings::{sha256, sha256_digest};

verus! {

/// The opcode that pushes the number one: a script made of it alone always succeeds.
pub const OP_TRUE: u8 = 0x51;

/// The opcode that pushes an empty value: a script made of it alone never succeeds.
pub const OP_FALSE: u8 = 0x00;

/// The sequence number that disables relative lock-time for an input.
pub const SEQUENCE_FINAL: u32 = 0xFFFF_FFFF;

/// Length in bytes of a transaction id.
pub const TXID_LEN: usize = 32;

/// Reference to an output of an earlier transaction: the id of that transaction (in its
/// internal byte order) and the output's index in it.
pub struct OutPoint {
    pub txid: Vec<u8>,
    pub vout: u32,
}

pub struct OutPointView {
    pub txid: Seq<u8>,
    pub vout: u32,
}

impl View for OutPoint {
    type V = OutPointView;

    open spec fn view(&self) -> OutPointView {
        OutPointView { txid: self.txid@, vout: self.vout }
    }
}

/// A transaction input.
pub struct TxIn {
    pub previous_output: OutPoint,
    pub script_sig: Vec<u8>,
    pub sequence: u32,
    pub witness: Vec<Vec<u8>>,
}

pub struct TxInView {
    pub previous_output: OutPointView,
    pub script_sig: Seq<u8>,
    pub sequence: u32,
    pub witness: Seq<Seq<u8>>,
}

pub open spec fn witness_view(w: Seq<Vec<u8>>) -> Seq<Seq<u8>> {
    w.map_values(|item: Vec<u8>| item@)
}

impl View for TxIn {
    type V = TxInView;

    open spec fn view(&self) -> TxInView {
        TxInView {
            previous_output: self.previous_output@,
            script_sig: self.script_sig@,
            sequence: self.sequence,
            witness: witness_view(self.witness@),
        }
    }
}

/// A transaction output: an amount in satoshis and the script that locks it.
pub struct TxOut {
    pub value: u64,
    pub script_pubkey: Vec<u8>,
}

pub struct TxOutView {
    pub value: u64,
    pub script_pubkey: Seq<u8>,
}

impl View for TxOut {
    type V = TxOutView;

    open spec fn view(&self) -> TxOutView {
        TxOutView { value: self.value, script_pubkey: self.script_pubkey@ }
    }
}

/// A transaction.
pub struct Transaction {
    pub version: u32,
    pub lock_time: u32,
    pub input: Vec<TxIn>,
    pub output: Vec<TxOut>,
}

pub struct TransactionView {
    pub version: u32,
    pub lock_time: u32,
    pub input: Seq<TxInView>,
    pub output: Seq<TxOutView>,
}

pub open spec fn inputs_view(s: Seq<TxIn>) -> Seq<TxInView> {
    s.map_values(|i: TxIn| i@)
}

pub open spec fn outputs_view(s: Seq<TxOut>) -> Seq<TxOutView> {
    s.map_values(|o: TxOut| o@)
}

impl View for Transaction {
    type V = TransactionView;

    open spec fn view(&self) -> TransactionView {
        TransactionView {
            version: self.version,
            lock_time: self.lock_time,
            input: inputs_view(self.input@),
            output: outputs_view(self.output@),
        }
    }
}

impl TransactionView {
    /// Every input refers to a transaction id of the right length.
    pub open spec fn wf(self) -> bool {
        forall|i: int| 0 <= i < self.input.len() ==> #[trigger] self.input[i].previous_output.txid.len()
            == TXID_LEN
    }
}

/// Sum of the values of a sequence of outputs.
pub open spec fn total_value(outs: Seq<TxOutView>) -> int
    decreases outs.len(),
{
    if outs.len() == 0 {
        0
    } else {
        total_value(outs.drop_last()) + outs.last().value
    }
}

/// The input that commits a transaction to a challenge string: it spends output 0 of a
/// transaction whose id is the SHA-256 digest of the challenge's UTF-8 bytes, with an empty
/// script, an empty witness and the final sequence number.
pub open spec fn spec_challenge_txin(challenge: Seq<char>) -> TxInView {
    TxInView {
        previous_output: OutPointView { txid: sha256_digest(encode_utf8(challenge)), vout: 0 },
        script_sig: Seq::empty(),
        sequence: SEQUENCE_FINAL,
        witness: Seq::empty(),
    }
}

/// Two challenges give the same challenge outpoint exactly when their digests agree, so
/// distinct challenges give distinct outpoints unless SHA-256 collides on them.
pub proof fn lemma_challenge_outpoints_distinct(s1: Seq<char>, s2: Seq<char>)
    ensures
        spec_challenge_txin(s1).previous_output == spec_challenge_txin(s2).previous_output
            <==> sha256_digest(encode_utf8(s1)) == sha256_digest(encode_utf8(s2)),
        sha256_digest(encode_utf8(s1)) != sha256_digest(encode_utf8(s2))
            ==> spec_challenge_txin(s1).previous_output != spec_challenge_txin(s2).previous_output,
{
}

/// Builds the challenge input for a challenge string.
pub fn challenge_txin(challenge: &str) -> (r: TxIn)
    ensures
        r@ == spec_challenge_txin(challenge@),
        r@.previous_output.txid.len() == TXID_LEN,
{
    let digest = sha256(challenge.as_bytes());
    let r = TxIn {
        previous_output: OutPoint { txid: digest, vout: 0 },
        script_sig: Vec::new(),
        sequence: SEQUENCE_FINAL,
        witness: Vec::new(),
    };
    assert(r@.witness =~= Seq::<Seq<u8>>::empty());
    assert(r@.script_sig =~= Seq::<u8>::empty());
    r
}

/// Byte-wise equality of two byte slices.
pub fn slices_equal(a: &[u8], b: &[u8]) -> (r: bool)
    ensures
        r == (a@ == b@),
{
    if a.len() != b.len() {
        return false;
    }
    let mut i: usize = 0;
    while i < a.len()
        invariant
            a@.len() == b@.len(),
            0 <= i <= a@.len(),
            a@.subrange(0, i as int) == b@.subrange(0, i as int),
        decreases a@.len() - i,
    {
        if a[i] != b[i] {
            assert(a@[i as int] != b@[i as int]);
            return false;
        }
        assert(a@.subrange(0, i + 1) =~= a@.subrange(0, i as int).push(a@[i as int]));
        assert(b@.subrange(0, i + 1) =~= b@.subrange(0, i as int).push(b@[i as int]));
        i += 1;
    }
    assert(a@ =~= a@.subrange(0, i as int));
    assert(b@ =~= b@.subrange(0, i as int));
    true
}

/// Equality of two strings, character by character.
pub fn str_equal(a: &str, b: &str) -> (r: bool)
    ensures
        r == (a@ == b@),
{
    let r = slices_equal(a.as_bytes(), b.as_bytes());
    proof {
        vstd::utf8::encode_utf8_decode_utf8(a@);
        vstd::utf8::encode_utf8_decode_utf8(b@);
    }
    r
}

/// Byte-wise equality of two byte vectors.
pub fn bytes_equal(a: &Vec<u8>, b: &Vec<u8>) -> (r: bool)
    ensures
        r == (a@ == b@),
{
    slices_equal(a.as_slice(), b.as_slice())
}

/// A fresh copy of a byte vector.
pub fn copy_bytes(a: &Vec<u8>) -> (r: Vec<u8>)
    ensures
        r@ == a@,
{
    let mut r: Vec<u8> = Vec::with_capacity(a.len());
    let mut i: usize = 0;
    while i < a.len()
        invariant
            0 <= i <= a.len(),
            r@ == a@.subrange(0, i as int),
        decreases a.len() - i,
    {
        r.push(a[i]);
        assert(a@.subrange(0, i + 1) =~= a@.subrange(0, i as int).push(a@[i as int]));
        i += 1;
    }
    assert(a@ =~= a@.subrange(0, i as int));
    r
}

/// A fresh copy of an optional byte vector.
pub fn copy_opt_bytes(a: &Option<Vec<u8>>) -> (r: Option<Vec<u8>>)
    ensures
        match (a, r) {
            (Some(x), Some(y)) => y@ == x@,
            (None, None) => true,
            _ => false,
        },
{
    match a {
        Some(x) => Some(copy_bytes(x)),
        None => None,
    }
}

impl OutPoint {
    /// Equality of outpoints by transaction id and index.
    pub fn same_as(&self, other: &OutPoint) -> (r: bool)
        ensures
            r == (self@ == other@),
    {
        self.vout == other.vout && bytes_equal(&self.txid, &other.txid)
    }

    pub fn copy(&self) -> (r: OutPoint)
        ensures
            r@ == self@,
    {
        OutPoint { txid: copy_bytes(&self.txid), vout: self.vout }
    }
}

impl TxOut {
    pub fn copy(&self) -> (r: TxOut)
        ensures
            r@ == self@,
    {
        TxOut { value: self.value, script_pubkey: copy_bytes(&self.script_pubkey) }
    }
}

/// Equality of two witnesses, item by item.
pub fn witness_equal(a: &Vec<Vec<u8>>, b: &Vec<Vec<u8>>) -> (r: bool)
    ensures
        r == (witness_view(a@) == witness_view(b@)),
{
    if a.len() != b.len() {
        assert(witness_view(a@).len() != witness_view(b@).len());
        return false;
    }
    let mut i: usize = 0;
    while i < a.len()
        invariant
            a.len() == b.len(),
            0 <= i <= a.len(),
            forall|j: int| 0 <= j < i ==> #[trigger] a@[j]@ == b@[j]@,
        decreases a.len() - i,
    {
        if !bytes_equal(&a[i], &b[i]) {
            assert(witness_view(a@)[i as int] != witness_view(b@)[i as int]);
            return false;
        }
        i += 1;
    }
    assert(witness_view(a@) =~= witness_view(b@));
    true
}

impl TxIn {
    /// Equality of inputs in every field.
    pub fn same_as(&self, other: &TxIn) -> (r: bool)
        ensures
            r == (self@ == other@),
    {
        self.previous_output.same_as(&other.previous_output) && bytes_equal(
            &self.script_sig,
            &other.script_sig,
        ) && self.sequence == other.sequence && witness_equal(&self.witness, &other.witness)
    }
}

} // verus!
