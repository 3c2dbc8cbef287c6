//! The calls this library makes into outside crates, each with the contract it relies on.
use vstd::prelude::*;

use bitcoin::consensus::encode::{deserialize, serialize};
use bitcoin::util::bip32;
use bitcoin::util::psbt;
use bitcoin_hashes::sha256d;
use crypto::digest::Digest;
use vstd::utf8::{decode_utf8, valid_utf8};

use crate::transaction::{
    OutPoint, Transaction, TransactionView, TxIn, TxOut, TxOutView, TXID_LEN,
};

verus! {

/// The SHA-256 digest of a byte string.
pub uninterp spec fn sha256_digest(data: Seq<u8>) -> Seq<u8>;

/// The consensus encoding of a transaction.
pub uninterp spec fn tx_encoding(tx: TransactionView) -> Seq<u8>;

/// The transaction that a byte string encodes, if it encodes exactly one.
pub uninterp spec fn tx_decoding(bytes: Seq<u8>) -> Option<TransactionView>;

/// The previous-output data held by a serialized PSBT input, if the bytes decode as one.
pub uninterp spec fn psbt_input_decoding(bytes: Seq<u8>) -> Option<PsbtInputInfoView>;

/// The serialization of a PSBT input with the given fields and no others, when the previous
/// transaction it holds (if any) decodes.
pub uninterp spec fn psbt_input_encoding(fields: PsbtInputFieldsView) -> Option<Seq<u8>>;

/// The unsigned transaction of the PSBT that the bytes encode, and what each of its inputs
/// holds, if the bytes encode one.
pub uninterp spec fn psbt_decoding(bytes: Seq<u8>) -> Option<PsbtView>;

/// Whether the bytes are a valid serialized secp256k1 public key.
pub uninterp spec fn valid_public_key(bytes: Seq<u8>) -> bool;

/// Whether the consensus rules accept input `index` of the serialized transaction `tx` as
/// spending an output of `amount` satoshis locked by `spent_script`.
pub uninterp spec fn script_accepts(spent_script: Seq<u8>, amount: u64, tx: Seq<u8>, index: usize) -> bool;

/// Byte strings up to this length stay far within the 32 MiB that the bitcoin decoders allow
/// any one vector, so what is encoded in them decodes again.
pub const DECODE_LIMIT: usize = 1_000_000;

/// What a PSBT input holds that this library reads: the output it spends (for witness inputs),
/// the outputs and the number of inputs of the whole previous transaction (for the others),
/// its redeem and witness scripts and its final script signature.
pub struct PsbtInputInfo {
    pub witness_utxo: Option<TxOut>,
    pub non_witness_outputs: Option<Vec<TxOut>>,
    pub non_witness_input_count: Option<usize>,
    pub redeem_script: Option<Vec<u8>>,
    pub witness_script: Option<Vec<u8>>,
    pub final_script_sig: Option<Vec<u8>>,
}

pub struct PsbtInputInfoView {
    pub witness_utxo: Option<TxOutView>,
    pub non_witness_outputs: Option<Seq<TxOutView>>,
    pub non_witness_input_count: Option<nat>,
    pub redeem_script: Option<Seq<u8>>,
    pub witness_script: Option<Seq<u8>>,
    pub final_script_sig: Option<Seq<u8>>,
}

/// A PSBT: its unsigned transaction and what each of its inputs holds.
pub struct PsbtView {
    pub unsigned_tx: TransactionView,
    pub inputs: Seq<PsbtInputInfoView>,
}

/// A PSBT input whose previous transaction, if it holds one, has an input: the read-back
/// claims below are made for these.
pub open spec fn reencodes(p: PsbtInputInfoView) -> bool {
    p.non_witness_input_count matches Some(n) ==> n > 0
}

/// The scripts of the fields take at most an eighth of the decode limit each.
pub open spec fn fields_small(f: PsbtInputFieldsView) -> bool {
    &&& (f.witness_utxo matches Some(o) ==> o.script_pubkey.len() <= DECODE_LIMIT / 8)
    &&& (f.redeem_script matches Some(s) ==> s.len() <= DECODE_LIMIT / 8)
    &&& (f.witness_script matches Some(s) ==> s.len() <= DECODE_LIMIT / 8)
    &&& (f.final_script_sig matches Some(s) ==> s.len() <= DECODE_LIMIT / 8)
}

/// Fields whose encoding reads back: small scripts, and a previous transaction (if any) of at
/// most an eighth of the decode limit that decodes and has an input.
pub open spec fn fields_encodable(f: PsbtInputFieldsView) -> bool {
    &&& fields_small(f)
    &&& (f.non_witness_utxo matches Some(b) ==> (b.len() <= DECODE_LIMIT / 8 && (tx_decoding(b) matches Some(t)
        && t.input.len() > 0)))
}

/// What a PSBT input encoded from the fields holds.
pub open spec fn fields_info(f: PsbtInputFieldsView) -> PsbtInputInfoView {
    PsbtInputInfoView {
        witness_utxo: f.witness_utxo,
        non_witness_outputs: match f.non_witness_utxo {
            Some(b) => Some(tx_decoding(b)->Some_0.output),
            None => None,
        },
        non_witness_input_count: match f.non_witness_utxo {
            Some(b) => Some(tx_decoding(b)->Some_0.input.len()),
            None => None,
        },
        redeem_script: f.redeem_script,
        witness_script: f.witness_script,
        final_script_sig: f.final_script_sig,
    }
}

/// A transaction that can be the unsigned transaction of a PSBT: no input carries a script
/// signature or a witness.
pub open spec fn unsigned(t: TransactionView) -> bool {
    forall|i: int| 0 <= i < t.input.len() ==> (#[trigger] t.input[i]).script_sig.len() == 0 && t.input[i].witness.len() == 0
}

/// The fields of a PSBT input that this library sets: the previous transaction (serialized),
/// the spent output, the redeem and witness scripts, and the final script signature.
pub struct PsbtInputFields {
    pub non_witness_utxo: Option<Vec<u8>>,
    pub witness_utxo: Option<TxOut>,
    pub redeem_script: Option<Vec<u8>>,
    pub witness_script: Option<Vec<u8>>,
    pub final_script_sig: Option<Vec<u8>>,
}

pub struct PsbtInputFieldsView {
    pub non_witness_utxo: Option<Seq<u8>>,
    pub witness_utxo: Option<TxOutView>,
    pub redeem_script: Option<Seq<u8>>,
    pub witness_script: Option<Seq<u8>>,
    pub final_script_sig: Option<Seq<u8>>,
}

pub open spec fn opt_seq(o: Option<Vec<u8>>) -> Option<Seq<u8>> {
    match o {
        Some(v) => Some(v@),
        None => None,
    }
}

impl View for PsbtInputFields {
    type V = PsbtInputFieldsView;

    open spec fn view(&self) -> PsbtInputFieldsView {
        PsbtInputFieldsView {
            non_witness_utxo: opt_seq(self.non_witness_utxo),
            witness_utxo: match self.witness_utxo {
                Some(o) => Some(o@),
                None => None,
            },
            redeem_script: opt_seq(self.redeem_script),
            witness_script: opt_seq(self.witness_script),
            final_script_sig: opt_seq(self.final_script_sig),
        }
    }
}

impl View for PsbtInputInfo {
    type V = PsbtInputInfoView;

    open spec fn view(&self) -> PsbtInputInfoView {
        PsbtInputInfoView {
            witness_utxo: match self.witness_utxo {
                Some(o) => Some(o@),
                None => None,
            },
            non_witness_outputs: match self.non_witness_outputs {
                Some(v) => Some(v@.map_values(|o: TxOut| o@)),
                None => None,
            },
            non_witness_input_count: match self.non_witness_input_count {
                Some(n) => Some(n as nat),
                None => None,
            },
            redeem_script: opt_seq(self.redeem_script),
            witness_script: opt_seq(self.witness_script),
            final_script_sig: opt_seq(self.final_script_sig),
        }
    }
}

/// Relies on rust-crypto's `Sha256` digest: the 32-byte SHA-256 digest of the input.
#[verifier::external_body]
pub fn sha256(data: &[u8]) -> (r: Vec<u8>)
    ensures
        r@ == sha256_digest(data@),
        r@.len() == TXID_LEN,
{
    let mut dig = crypto::sha2::Sha256::new();
    dig.input(data);
    let mut h = [0u8; 32];
    dig.result(&mut h);
    h.to_vec()
}

/// Relies on bitcoin's `consensus::encode::deserialize::<Transaction>`: the transaction the
/// bytes encode when they encode exactly one; its txids are 32-byte hashes.
#[verifier::external_body]
pub(crate) fn decode_tx(bytes: &[u8]) -> (r: Option<Transaction>)
    ensures
        match r {
            Some(t) => tx_decoding(bytes@) == Some(t@) && t@.wf(),
            None => tx_decoding(bytes@) is None,
        },
{
    let t: bitcoin::Transaction = deserialize(bytes).ok()?;
    let input = t.input.iter().map(|i| TxIn {
        previous_output: OutPoint { txid: i.previous_output.txid[..].to_vec(), vout: i.previous_output.vout },
        script_sig: i.script_sig.to_bytes(),
        sequence: i.sequence,
        witness: i.witness.clone(),
    }).collect();
    let output = t.output.iter().map(|o| TxOut { value: o.value, script_pubkey: o.script_pubkey.to_bytes() }).collect();
    Some(Transaction { version: t.version, lock_time: t.lock_time, input, output })
}

/// Relies on bitcoin's `consensus::encode::serialize` of a `Transaction`; txids of 32 bytes
/// convert to its hash type without failing. Its `Decodable` reads the encoding back (legacy
/// when no input has a witness, segwit otherwise); the claim is made for transactions with an
/// input, the only ones this library encodes.
#[verifier::external_body]
pub(crate) fn encode_tx(tx: &Transaction) -> (r: Vec<u8>)
    requires
        tx@.wf(),
    ensures
        r@ == tx_encoding(tx@),
        tx@.input.len() > 0 && r@.len() <= DECODE_LIMIT ==> tx_decoding(r@) == Some(tx@),
{
    let input = tx.input.iter().map(|i| bitcoin::TxIn {
        previous_output: bitcoin::OutPoint { txid: <sha256d::Hash as bitcoin_hashes::Hash>::from_slice(&i.previous_output.txid).unwrap(), vout: i.previous_output.vout },
        script_sig: i.script_sig.clone().into(),
        sequence: i.sequence,
        witness: i.witness.clone(),
    }).collect();
    let output = tx.output.iter().map(|o| bitcoin::TxOut { value: o.value, script_pubkey: o.script_pubkey.clone().into() }).collect();
    serialize(&bitcoin::Transaction { version: tx.version, lock_time: tx.lock_time, input, output })
}

/// Relies on bitcoin's `deserialize::<psbt::Input>`, keeping its `witness_utxo`, the outputs and
/// input count of its `non_witness_utxo`, and its three scripts.
#[verifier::external_body]
pub(crate) fn decode_psbt_input(bytes: &[u8]) -> (r: Option<PsbtInputInfo>)
    ensures
        match r {
            Some(p) => psbt_input_decoding(bytes@) == Some(p@),
            None => psbt_input_decoding(bytes@) is None,
        },
{
    let i: psbt::Input = deserialize(bytes).ok()?;
    let conv = |o: &bitcoin::TxOut| TxOut { value: o.value, script_pubkey: o.script_pubkey.to_bytes() };
    let script = |s: &bitcoin::Script| s.to_bytes();
    Some(PsbtInputInfo {
        witness_utxo: i.witness_utxo.as_ref().map(conv),
        non_witness_outputs: i.non_witness_utxo.as_ref().map(|t| t.output.iter().map(conv).collect()),
        non_witness_input_count: i.non_witness_utxo.as_ref().map(|t| t.input.len()),
        redeem_script: i.redeem_script.as_ref().map(script),
        witness_script: i.witness_script.as_ref().map(script),
        final_script_sig: i.final_script_sig.as_ref().map(script),
    })
}

/// Relies on bitcoin's `serialize` of a `psbt::Input` with these fields set and the others
/// empty (its maps among them, so the bytes do not depend on hash order), and on
/// `deserialize::<Transaction>` for the previous transaction, which is the only way it fails.
/// For small fields, `deserialize::<psbt::Input>` reads back exactly the fields set (scripts
/// as raw bytes, the witness UTXO and the previous transaction by consensus encoding, which
/// re-encodes a decoded transaction in at most as many bytes).
#[verifier::external_body]
pub(crate) fn encode_psbt_input(f: &PsbtInputFields) -> (r: Option<Vec<u8>>)
    ensures
        match r {
            Some(b) => psbt_input_encoding(f@) == Some(b@),
            None => psbt_input_encoding(f@) is None,
        },
        r is None <==> (f@.non_witness_utxo matches Some(b) && tx_decoding(b) is None),
        fields_encodable(f@) ==> (r is Some && psbt_input_decoding(r->Some_0@) == Some(fields_info(f@))),
        fields_encodable(f@) ==> (r is Some && r->Some_0@.len() <= DECODE_LIMIT),
{
    let non_witness_utxo = match &f.non_witness_utxo {
        Some(b) => Some(deserialize::<bitcoin::Transaction>(b).ok()?),
        None => None,
    };
    let script = |s: &Vec<u8>| bitcoin::Script::from(s.clone());
    Some(serialize(&psbt::Input {
        non_witness_utxo,
        witness_utxo: f.witness_utxo.as_ref().map(|o| bitcoin::TxOut { value: o.value, script_pubkey: script(&o.script_pubkey) }),
        redeem_script: f.redeem_script.as_ref().map(script),
        witness_script: f.witness_script.as_ref().map(script),
        final_script_sig: f.final_script_sig.as_ref().map(script),
        ..Default::default()
    }))
}

/// Relies on bitcoin's `deserialize` of the transaction and the inputs,
/// `PartiallySignedTransaction::from_unsigned_tx` (which fails only on a script signature or
/// a witness) and `serialize`: a PSBT over the unsigned transaction with the given inputs.
/// Its maps are written in hash-map order, so the bytes are not named; its `Decodable` reads
/// back the unsigned transaction and, one per input of it, the inputs.
#[verifier::external_body]
pub(crate) fn build_psbt(unsigned_tx: &[u8], inputs: &Vec<Vec<u8>>) -> (r: Option<Vec<u8>>)
    ensures
        r is Some <==> ((tx_decoding(unsigned_tx@) matches Some(t) && unsigned(t)) && forall|j: int|
            0 <= j < inputs@.len() ==> (#[trigger] psbt_input_decoding(inputs@[j]@)) is Some),
        ({
            &&& r is Some && unsigned_tx@.len() <= DECODE_LIMIT
            &&& tx_decoding(unsigned_tx@) matches Some(t) && inputs@.len() == t.input.len()
            &&& forall|j: int| 0 <= j < inputs@.len() ==> (#[trigger] inputs@[j])@.len() <= DECODE_LIMIT
            &&& forall|j: int| 0 <= j < inputs@.len() ==> reencodes(#[trigger] psbt_input_decoding(inputs@[j]@)->Some_0)
        }) ==> psbt_decoding(r->Some_0@) == Some(
            (PsbtView {
                unsigned_tx: tx_decoding(unsigned_tx@)->Some_0,
                inputs: inputs@.map_values(|x: Vec<u8>| psbt_input_decoding(x@)->Some_0),
            }),
        ),
{
    let tx: bitcoin::Transaction = deserialize(unsigned_tx).ok()?;
    let mut p = psbt::PartiallySignedTransaction::from_unsigned_tx(tx).ok()?;
    p.inputs = inputs.iter().map(|b| deserialize(b)).collect::<Result<Vec<psbt::Input>, _>>().ok()?;
    Some(serialize(&p))
}

/// Relies on bitcoin's `deserialize::<psbt::Input>`, `PublicKey::from_slice` (which decides
/// `valid_public_key`) and `serialize`: the input with one more BIP-32 keypath, mapping the key
/// to the fingerprint and derivation path. The other fields are written back as read; the
/// bytes are not named, since an input may hold map entries, written in hash-map order. The
/// keypath is read back only with a non-empty path (`psbt/serialize.rs` wants a child number
/// after the fingerprint).
#[verifier::external_body]
pub(crate) fn add_hd_keypath(input: &[u8], pubkey: &[u8], fingerprint: u32, path: &Vec<u32>) -> (r: Option<Vec<u8>>)
    requires
        path@.len() > 0,
    ensures
        r is Some <==> (psbt_input_decoding(input@) is Some && valid_public_key(pubkey@)),
        r is Some && input@.len() <= DECODE_LIMIT && path@.len() <= DECODE_LIMIT / 8
            && reencodes(psbt_input_decoding(input@)->Some_0) ==> psbt_input_decoding(r->Some_0@)
            == psbt_input_decoding(input@),
{
    let mut i: psbt::Input = deserialize(input).ok()?;
    let key = bitcoin::PublicKey::from_slice(pubkey).ok()?;
    let fp = bip32::Fingerprint::from(&fingerprint.to_be_bytes()[..]);
    let path: Vec<bip32::ChildNumber> = path.iter().map(|&n| bip32::ChildNumber::from(n)).collect();
    i.hd_keypaths.insert(key, (fp, path.into()));
    Some(serialize(&i))
}

/// Relies on bitcoin's `deserialize::<PartiallySignedTransaction>`: whether the bytes encode a
/// PSBT.
#[verifier::external_body]
pub(crate) fn psbt_decodes(bytes: &[u8]) -> (r: bool)
    ensures
        r == psbt_decoding(bytes@) is Some,
{
    deserialize::<psbt::PartiallySignedTransaction>(bytes).is_ok()
}

/// Relies on std's `String::from_utf8`: the string whose UTF-8 encoding the bytes are, and
/// none where they are not valid UTF-8.
#[verifier::external_body]
pub(crate) fn utf8_string(bytes: Vec<u8>) -> (r: Option<String>)
    ensures
        match r {
            Some(s) => valid_utf8(bytes@) && s@ == decode_utf8(bytes@),
            None => !valid_utf8(bytes@),
        },
{
    String::from_utf8(bytes).ok()
}

/// Relies on `bitcoinconsensus::verify`: whether libbitcoinconsensus accepts the input, with
/// all verification flags set.
#[verifier::external_body]
pub(crate) fn verify_script(spent_script: &[u8], amount: u64, tx: &[u8], index: usize) -> (r: bool)
    requires
        spent_script@.len() <= u32::MAX,
        tx@.len() <= u32::MAX,
        index <= u32::MAX,
    ensures
        r == script_accepts(spent_script@, amount, tx@, index),
{
    bitcoinconsensus::verify(spent_script, amount, tx, index).is_ok()
}

} // verus!
