//! A single proof of reserves: the outputs under proof, and its way from gathering them,
//! through signing, to a final transaction that a verifier checks.
use vstd::prelude::*;

use crate::bindings::{
    build_psbt, decode_psbt_input, decode_tx, encode_psbt_input, encode_tx, psbt_input_decoding,
    add_hd_keypath, fields_encodable, fields_info, opt_seq, psbt_decoding, valid_public_key, psbt_input_encoding, reencodes, script_accepts, tx_decoding,
    tx_encoding, unsigned, verify_script, PsbtInputFields, PsbtInputFieldsView, PsbtInputInfoView,
    PsbtView, DECODE_LIMIT,
};
use crate::transaction::{
    challenge_txin, copy_bytes, inputs_view, outputs_view, spec_challenge_txin, total_value,
    OutPoint, OutPointView, Transaction, TransactionView, TxIn, TxInView, TxOut, TxOutView,
    OP_FALSE, OP_TRUE, SEQUENCE_FINAL, TXID_LEN,
};

verus! {

/// The PSBT input fields of a UTXO given by hand.
pub open spec fn manual_fields(
    prev_tx: Option<Vec<u8>>,
    prev_out: Option<TxOut>,
    redeem_script: Option<Vec<u8>>,
    witness_script: Option<Vec<u8>>,
) -> PsbtInputFieldsView {
    PsbtInputFieldsView {
        non_witness_utxo: opt_seq(prev_tx),
        witness_utxo: match prev_out {
            Some(o) => Some(o@),
            None => None,
        },
        redeem_script: opt_seq(redeem_script),
        witness_script: opt_seq(witness_script),
        final_script_sig: None,
    }
}

/// A BIP-32 keypath: a public key (serialized) with the master key fingerprint and the
/// derivation path that lead to it.
pub struct HdKeypath {
    pub pubkey: Vec<u8>,
    pub fingerprint: u32,
    pub path: Vec<u32>,
}

/// Why an operation on proofs or proof files failed.
#[derive(Clone, Copy, Debug, PartialEq, Eq, Structural)]
pub enum ProofError {
    /// Serialized data (a file, a transaction, a PSBT input) is corrupt.
    DecodeError,
    /// The proof file has a version other than the supported one.
    VersionError,
    /// The operation is not allowed in the proof's current status.
    StateError,
    /// An outpoint or a proof id occurs twice where it must occur once.
    DuplicateError,
    /// The script of the given input of a proof transaction failed verification.
    ConsensusError { input: usize },
    /// The inputs of a proof transaction do not add up to its output.
    AmountError,
    /// The first input of a proof transaction is not the challenge input.
    ChallengeMismatch,
    /// No previous output could be found for an input.
    PrevoutNotFound,
    /// A proof transaction does not have the shape of a proof.
    Malformed,
    /// No proof has the given id.
    NotFound,
    /// The challenge string is empty.
    EmptyChallenge,
    /// The proof file is for another network than the one asked for.
    NetworkMismatch,
    /// Proofs on this network cannot be verified.
    UnsupportedNetwork,
}

/// Where a proof stands.
#[derive(Clone, Copy, Debug, PartialEq, Eq, Structural)]
pub enum ProofStatus {
    Undefined,
    GatheringUtxos,
    Signing,
    Final,
}

/// An output under proof, with the serialized PSBT input that lets a signer spend it and
/// hints to the block it was created in (a height of zero and no hash mean unknown).
pub struct UTXO {
    pub point: OutPoint,
    pub psbt_input: Vec<u8>,
    pub block_number: u32,
    pub block_hash: Option<Vec<u8>>,
}

pub struct UtxoView {
    pub point: OutPointView,
    pub psbt_input: Seq<u8>,
    pub block_number: u32,
    pub block_hash: Option<Seq<u8>>,
}

pub open spec fn opt_bytes_view(o: Option<Vec<u8>>) -> Option<Seq<u8>> {
    match o {
        Some(v) => Some(v@),
        None => None,
    }
}

impl View for UTXO {
    type V = UtxoView;

    open spec fn view(&self) -> UtxoView {
        UtxoView {
            point: self.point@,
            psbt_input: self.psbt_input@,
            block_number: self.block_number,
            block_hash: opt_bytes_view(self.block_hash),
        }
    }
}

impl UtxoView {
    pub open spec fn wf(self) -> bool {
        &&& self.point.txid.len() == TXID_LEN
        &&& (self.block_hash matches Some(h) ==> h.len() == TXID_LEN)
    }
}

pub open spec fn utxos_view(s: Seq<UTXO>) -> Seq<UtxoView> {
    s.map_values(|u: UTXO| u@)
}

/// The output that a UTXO spends, as its PSBT input records it: the witness UTXO where there
/// is one, else the output at the UTXO's index in the previous transaction.
pub open spec fn prevout_of(u: UtxoView) -> Option<TxOutView> {
    match psbt_input_decoding(u.psbt_input) {
        Some(p) => match p.witness_utxo {
            Some(o) => Some(o),
            None => match p.non_witness_outputs {
                Some(outs) => if u.point.vout < outs.len() {
                    Some(outs[u.point.vout as int])
                } else {
                    None
                },
                None => None,
            },
        },
        None => None,
    }
}

/// A version 0 witness program: pay-to-witness-script-hash or pay-to-witness-pubkey-hash.
pub open spec fn is_v0_witness_program(s: Seq<u8>) -> bool {
    (s.len() == 34 && s[0] == 0x00 && s[1] == 0x20) || (s.len() == 22 && s[0] == 0x00 && s[1]
        == 0x14)
}

impl UTXO {
    /// The output this UTXO spends, if its PSBT input records it.
    pub fn txout(&self) -> (r: Option<TxOut>)
        ensures
            match r {
                Some(o) => prevout_of(self@) == Some(o@),
                None => prevout_of(self@) is None,
            },
    {
        let p = match decode_psbt_input(self.psbt_input.as_slice()) {
            Some(p) => p,
            None => return None,
        };
        match p.witness_utxo {
            Some(o) => Some(o),
            None => match p.non_witness_outputs {
                Some(outs) => {
                    if (self.point.vout as usize) < outs.len() {
                        Some(outs[self.point.vout as usize].copy())
                    } else {
                        None
                    }
                },
                None => None,
            },
        }
    }

    /// The value in satoshis of the output this UTXO spends.
    pub fn value(&self) -> (r: Option<u64>)
        ensures
            match prevout_of(self@) {
                Some(o) => r == Some(o.value),
                None => r is None,
            },
    {
        match self.txout() {
            Some(o) => Some(o.value),
            None => None,
        }
    }

    /// Whether the output this UTXO spends is locked by a version 0 witness program.
    pub fn is_witness(&self) -> (r: Option<bool>)
        ensures
            match prevout_of(self@) {
                Some(o) => r == Some(is_v0_witness_program(o.script_pubkey)),
                None => r is None,
            },
    {
        match self.txout() {
            Some(o) => {
                let s = &o.script_pubkey;
                Some(
                    (s.len() == 34 && s[0] == 0x00 && s[1] == 0x20) || (s.len() == 22 && s[0]
                        == 0x00 && s[1] == 0x14),
                )
            },
            None => None,
        }
    }

    /// A UTXO that a wallet reports: its outpoint, the serialized transaction that created it,
    /// its redeem script if any, and the block that confirmed it. Its PSBT input holds the
    /// whole previous transaction, the output at the outpoint's index and the redeem script.
    pub fn from_wallet(
        point: OutPoint,
        prev_tx: Vec<u8>,
        redeem_script: Option<Vec<u8>>,
        block_number: u32,
        block_hash: Vec<u8>,
    ) -> (r: Result<UTXO, ProofError>)
        ensures
            point@.txid.len() != TXID_LEN || block_hash@.len() != TXID_LEN ==> r == Err::<UTXO, ProofError>(ProofError::Malformed),
            point@.txid.len() == TXID_LEN && block_hash@.len() == TXID_LEN ==> match tx_decoding(prev_tx@) {
                None => r == Err::<UTXO, ProofError>(ProofError::DecodeError),
                Some(tx) => if (point.vout as int) < tx.output.len() {
                    r matches Ok(u) && u@ == (UtxoView {
                        point: point@,
                        psbt_input: psbt_input_encoding(PsbtInputFieldsView {
                            non_witness_utxo: Some(prev_tx@),
                            witness_utxo: Some(tx.output[point.vout as int]),
                            redeem_script: opt_seq(redeem_script),
                            witness_script: None,
                            final_script_sig: None,
                        })->Some_0,
                        block_number,
                        block_hash: Some(block_hash@),
                    })
                } else {
                    r == Err::<UTXO, ProofError>(ProofError::PrevoutNotFound)
                },
            },
            r is Ok && prev_tx@.len() <= DECODE_LIMIT / 8 && (redeem_script matches Some(s) ==> s@.len() <= DECODE_LIMIT / 8)
                && (tx_decoding(prev_tx@) matches Some(t) && t.input.len() > 0
                && t.output[point.vout as int].script_pubkey.len() <= DECODE_LIMIT / 8)
                ==> prevout_of(r->Ok_0@) == Some(tx_decoding(prev_tx@)->Some_0.output[point.vout as int]),
            r matches Ok(u) ==> u@.wf(),
    {
        if point.txid.len() != TXID_LEN || block_hash.len() != TXID_LEN {
            return Err(ProofError::Malformed);
        }
        let tx = match decode_tx(prev_tx.as_slice()) {
            Some(t) => t,
            None => {
                return Err(ProofError::DecodeError);
            },
        };
        if (point.vout as usize) >= tx.output.len() {
            return Err(ProofError::PrevoutNotFound);
        }
        let spent = tx.output[point.vout as usize].copy();
        let fields = PsbtInputFields {
            non_witness_utxo: Some(prev_tx),
            witness_utxo: Some(spent),
            redeem_script,
            witness_script: None,
            final_script_sig: None,
        };
        let psbt_input = match encode_psbt_input(&fields) {
            Some(b) => b,
            None => {
                return Err(ProofError::DecodeError);
            },
        };
        proof {
            if fields_encodable(fields@) {
                assert(psbt_input_decoding(psbt_input@) == Some(fields_info(fields@)));
            }
        }
        Ok(UTXO { point, psbt_input, block_number, block_hash: Some(block_hash) })
    }

    /// A UTXO given by hand: its outpoint, what is known of the output it spends (the
    /// serialized previous transaction, the output itself), its scripts, a BIP-32 keypath that
    /// signs for it, and hints to its block. Its PSBT input holds exactly what was given.
    pub fn from_parts(
        point: OutPoint,
        prev_tx: Option<Vec<u8>>,
        prev_out: Option<TxOut>,
        redeem_script: Option<Vec<u8>>,
        witness_script: Option<Vec<u8>>,
        hd_keypath: Option<HdKeypath>,
        block_number: u32,
        block_hash: Option<Vec<u8>>,
    ) -> (r: Result<UTXO, ProofError>)
        ensures
            ({
                let fields = manual_fields(prev_tx, prev_out, redeem_script, witness_script);
                let hash_ok = block_hash matches Some(h) ==> h@.len() == TXID_LEN;
                let path_ok = hd_keypath matches Some(k) ==> k.path@.len() > 0;
                if point@.txid.len() != TXID_LEN || !hash_ok || !path_ok {
                    r == Err::<UTXO, ProofError>(ProofError::Malformed)
                } else {
                    match psbt_input_encoding(fields) {
                        None => r == Err::<UTXO, ProofError>(ProofError::DecodeError),
                        Some(b) => match hd_keypath {
                            None => r matches Ok(u) && u@ == (UtxoView {
                                point: point@,
                                psbt_input: b,
                                block_number,
                                block_hash: opt_bytes_view(block_hash),
                            }),
                            Some(k) => if psbt_input_decoding(b) is Some && valid_public_key(k.pubkey@) {
                                r matches Ok(u) && u@.point == point@ && u@.block_number == block_number
                                    && u@.block_hash == opt_bytes_view(block_hash)
                            } else {
                                r == Err::<UTXO, ProofError>(ProofError::DecodeError)
                            },
                        },
                    }
                }
            }),
            r is Ok && fields_encodable(manual_fields(prev_tx, prev_out, redeem_script, witness_script))
                && (hd_keypath matches Some(k) ==> k.path@.len() <= DECODE_LIMIT / 8)
                ==> psbt_input_decoding(r->Ok_0@.psbt_input) == Some(fields_info(manual_fields(prev_tx, prev_out, redeem_script, witness_script))),
            r matches Ok(u) ==> u@.wf(),
    {
        let hash_ok = match &block_hash {
            Some(h) => h.len() == TXID_LEN,
            None => true,
        };
        let path_ok = match &hd_keypath {
            Some(k) => k.path.len() > 0,
            None => true,
        };
        if point.txid.len() != TXID_LEN || !hash_ok || !path_ok {
            return Err(ProofError::Malformed);
        }
        let fields = PsbtInputFields {
            non_witness_utxo: prev_tx,
            witness_utxo: prev_out,
            redeem_script,
            witness_script,
            final_script_sig: None,
        };
        assert(fields@ == manual_fields(prev_tx, prev_out, redeem_script, witness_script));
        let encoded = match encode_psbt_input(&fields) {
            Some(b) => b,
            None => {
                return Err(ProofError::DecodeError);
            },
        };
        proof {
            if fields_encodable(fields@) {
                assert(reencodes(fields_info(fields@)));
            }
        }
        let psbt_input = match hd_keypath {
            None => encoded,
            Some(k) => match add_hd_keypath(encoded.as_slice(), k.pubkey.as_slice(), k.fingerprint, &k.path) {
                Some(b) => b,
                None => {
                    return Err(ProofError::DecodeError);
                },
            },
        };
        Ok(UTXO { point, psbt_input, block_number, block_hash })
    }

    pub fn copy(&self) -> (r: UTXO)
        ensures
            r@ == self@,
    {
        UTXO {
            point: self.point.copy(),
            psbt_input: copy_bytes(&self.psbt_input),
            block_number: self.block_number,
            block_hash: crate::transaction::copy_opt_bytes(&self.block_hash),
        }
    }
}

/// A proof: its id, its status, the outputs under proof, the PSBT being signed and the final
/// signed transaction, both serialized.
pub struct Proof {
    pub id: String,
    pub status: ProofStatus,
    pub proof_tx: Option<Vec<u8>>,
    pub utxos: Vec<UTXO>,
    pub psbt: Option<Vec<u8>>,
}

pub struct ProofView {
    pub id: Seq<char>,
    pub status: ProofStatus,
    pub proof_tx: Option<Seq<u8>>,
    pub utxos: Seq<UtxoView>,
    pub psbt: Option<Seq<u8>>,
}

impl View for Proof {
    type V = ProofView;

    open spec fn view(&self) -> ProofView {
        ProofView {
            id: self.id@,
            status: self.status,
            proof_tx: opt_bytes_view(self.proof_tx),
            utxos: utxos_view(self.utxos@),
            psbt: opt_bytes_view(self.psbt),
        }
    }
}

impl ProofView {
    pub open spec fn wf(self) -> bool {
        forall|i: int| 0 <= i < self.utxos.len() ==> (#[trigger] self.utxos[i]).wf()
    }
}

/// Sum of the values of the outputs that the UTXOs spend (those without a recorded output
/// count for nothing).
pub open spec fn utxo_total(utxos: Seq<UtxoView>) -> int
    decreases utxos.len(),
{
    if utxos.len() == 0 {
        0
    } else {
        utxo_total(utxos.drop_last()) + match prevout_of(utxos.last()) {
            Some(o) => o.value as int,
            None => 0,
        }
    }
}

/// Every UTXO records the output it spends.
pub open spec fn all_priced(utxos: Seq<UtxoView>) -> bool {
    forall|i: int| 0 <= i < utxos.len() ==> (#[trigger] prevout_of(utxos[i])) is Some
}

/// The input of a proof transaction that spends a UTXO under proof.
pub open spec fn proof_input(p: OutPointView) -> TxInView {
    TxInView { previous_output: p, script_sig: Seq::empty(), sequence: SEQUENCE_FINAL, witness: Seq::empty() }
}

/// The unsigned proof transaction: version 1, lock time at its maximum, the challenge input
/// followed by one input per UTXO, and a single output of the total value locked by a script
/// that can never be satisfied.
pub open spec fn signing_tx(challenge: Seq<char>, utxos: Seq<UtxoView>, total: u64) -> TransactionView {
    TransactionView {
        version: 1,
        lock_time: 0xFFFF_FFFF,
        input: seq![spec_challenge_txin(challenge)] + utxos.map_values(|u: UtxoView| proof_input(u.point)),
        output: seq![TxOutView { value: total, script_pubkey: seq![OP_FALSE] }],
    }
}

/// The transaction that signing starts from has the challenge input and one input per UTXO,
/// and exactly one output, worth the total of the UTXOs.
pub proof fn lemma_signing_tx_shape(challenge: Seq<char>, utxos: Seq<UtxoView>, total: u64)
    ensures
        signing_tx(challenge, utxos, total).input.len() == 1 + utxos.len(),
        signing_tx(challenge, utxos, total).input[0] == spec_challenge_txin(challenge),
        forall|i: int| 1 <= i <= utxos.len() ==> (#[trigger] signing_tx(challenge, utxos, total).input[i]).previous_output == utxos[i - 1].point,
        signing_tx(challenge, utxos, total).output.len() == 1,
        signing_tx(challenge, utxos, total).output[0].value == total,
{
    let tx = signing_tx(challenge, utxos, total);
    assert forall|i: int| 1 <= i <= utxos.len() implies (#[trigger] tx.input[i]).previous_output == utxos[i - 1].point by {
        assert(tx.input[i] == proof_input(utxos[i - 1].point));
    }
}

/// The PSBT input of the challenge: a witness output of value zero locked by a script that
/// always succeeds, an empty witness script and an empty final script signature.
pub open spec fn challenge_psbt_input() -> PsbtInputInfoView {
    PsbtInputInfoView {
        witness_utxo: Some(TxOutView { value: 0, script_pubkey: seq![OP_TRUE] }),
        non_witness_outputs: None,
        non_witness_input_count: None,
        redeem_script: None,
        witness_script: Some(Seq::empty()),
        final_script_sig: Some(Seq::empty()),
    }
}

/// The PSBT that signing starts from: the unsigned proof transaction, the challenge's PSBT
/// input, then each UTXO's own PSBT input.
pub open spec fn signing_psbt(challenge: Seq<char>, utxos: Seq<UtxoView>, total: u64) -> PsbtView {
    PsbtView {
        unsigned_tx: signing_tx(challenge, utxos, total),
        inputs: seq![challenge_psbt_input()] + utxos.map_values(|u: UtxoView| psbt_input_decoding(u.psbt_input)->Some_0),
    }
}

/// The unsigned proof transaction of these UTXOs encodes within the decode limit.
pub open spec fn signing_fits(challenge: Seq<char>, utxos: Seq<UtxoView>) -> bool {
    tx_encoding(signing_tx(challenge, utxos, utxo_total(utxos) as u64)).len() <= DECODE_LIMIT
}

/// Every UTXO's PSBT input is within the decode limit.
pub open spec fn inputs_small(utxos: Seq<UtxoView>) -> bool {
    forall|i: int| 0 <= i < utxos.len() ==> (#[trigger] utxos[i]).psbt_input.len() <= DECODE_LIMIT
}

/// Every UTXO's PSBT input encodes again to the same input.
pub open spec fn all_reencode(utxos: Seq<UtxoView>) -> bool {
    forall|i: int| 0 <= i < utxos.len() ==> reencodes(#[trigger] psbt_input_decoding(utxos[i].psbt_input)->Some_0)
}

/// What a proof transaction must satisfy before its scripts are run: the proof is final and
/// holds a transaction that decodes, with one output, at least two inputs, one previous output
/// per input after the first, and the challenge input first. The decoded transaction, or the
/// first failure.
pub open spec fn verify_precheck(p: ProofView, challenge: Seq<char>, prevouts: Seq<TxOutView>) -> Result<TransactionView, ProofError> {
    if p.status != ProofStatus::Final || p.proof_tx is None {
        Err(ProofError::StateError)
    } else {
        match tx_decoding(p.proof_tx->0) {
            None => Err(ProofError::DecodeError),
            Some(tx) => if tx.output.len() != 1 || tx.input.len() < 2 || prevouts.len() != tx.input.len() - 1 {
                Err(ProofError::Malformed)
            } else if tx.input[0].previous_output != spec_challenge_txin(challenge).previous_output {
                Err(ProofError::ChallengeMismatch)
            } else {
                Ok(tx)
            },
        }
    }
}

/// The amount a proof proves against the given previous outputs, if it verifies.
pub open spec fn verified_amount(p: ProofView, challenge: Seq<char>, pv: Seq<TxOutView>) -> Option<u64> {
    match verify_precheck(p, challenge, pv) {
        Ok(tx) => if all_inputs_accepted(pv, p.proof_tx->0) && total_value(pv) == tx.output[0].value {
            Some(tx.output[0].value)
        } else {
            None
        },
        Err(_) => None,
    }
}

/// A proof that verifies proves exactly the value of its single output, and the previous
/// outputs of its inputs add up to that value: nothing is paid as a fee.
pub proof fn lemma_verified_amount_conserved(p: ProofView, challenge: Seq<char>, pv: Seq<TxOutView>)
    ensures
        verified_amount(p, challenge, pv) matches Some(v) ==> {
            &&& verify_precheck(p, challenge, pv) matches Ok(tx)
            &&& tx.output.len() == 1
            &&& v == tx.output[0].value
            &&& total_value(pv) == v
        },
{
}

/// For a final proof of the right shape that commits to the challenge and whose previous
/// outputs add up to its output, the verifier accepts it exactly when the script of every
/// input after the challenge one succeeds against its previous output.
pub proof fn lemma_accepted_iff_scripts_succeed(p: ProofView, challenge: Seq<char>, pv: Seq<TxOutView>)
    requires
        verify_precheck(p, challenge, pv) matches Ok(tx) && total_value(pv) == tx.output[0].value,
    ensures
        verified_amount(p, challenge, pv) is Some <==> forall|i: int| 0 <= i < pv.len() ==> #[trigger] input_accepted(pv, p.proof_tx->0, i),
{
}

/// The script of input `i + 1` of the proof transaction accepts spending `prevouts[i]`.
pub open spec fn input_accepted(prevouts: Seq<TxOutView>, tx: Seq<u8>, i: int) -> bool {
    script_accepts(prevouts[i].script_pubkey, prevouts[i].value, tx, (i + 1) as usize)
}

pub open spec fn all_inputs_accepted(prevouts: Seq<TxOutView>, tx: Seq<u8>) -> bool {
    forall|i: int| 0 <= i < prevouts.len() ==> #[trigger] input_accepted(prevouts, tx, i)
}

/// Outpoints spent by the inputs of a transaction after the first.
pub open spec fn spent_points(tx: TransactionView) -> Seq<OutPointView> {
    if tx.input.len() == 0 {
        Seq::empty()
    } else {
        tx.input.drop_first().map_values(|i: TxInView| i.previous_output)
    }
}

pub open spec fn no_duplicates(s: Seq<OutPointView>) -> bool {
    forall|i: int, j: int| 0 <= i < j < s.len() ==> s[i] != s[j]
}

pub open spec fn points_view(s: Seq<OutPoint>) -> Seq<OutPointView> {
    s.map_values(|p: OutPoint| p@)
}

proof fn lemma_total_value_push(s: Seq<TxOutView>, i: int)
    requires
        0 <= i < s.len(),
    ensures
        total_value(s.subrange(0, i + 1)) == total_value(s.subrange(0, i)) + s[i].value,
{
    assert(s.subrange(0, i + 1).drop_last() =~= s.subrange(0, i));
}

proof fn lemma_utxo_total_push(s: Seq<UtxoView>, i: int)
    requires
        0 <= i < s.len(),
    ensures
        utxo_total(s.subrange(0, i + 1)) == utxo_total(s.subrange(0, i)) + match prevout_of(s[i]) {
            Some(o) => o.value as int,
            None => 0,
        },
{
    assert(s.subrange(0, i + 1).drop_last() =~= s.subrange(0, i));
}

impl Proof {
    /// A proof with the given id and status, and nothing else yet.
    pub fn new(id: String, status: ProofStatus) -> (r: Proof)
        ensures
            r@.id == id@,
            r@.status == status,
            r@.proof_tx is None,
            r@.utxos.len() == 0,
            r@.psbt is None,
            r@.wf(),
    {
        Proof { id, status, proof_tx: None, utxos: Vec::new(), psbt: None }
    }

    /// Moves a proof that is gathering UTXOs to signing: builds the unsigned proof
    /// transaction, wraps it in a PSBT whose first input spends a witness output of value zero
    /// locked by a script that always succeeds and whose other inputs are the UTXOs' own, and
    /// returns the unsigned transaction.
    pub fn start_signing(&mut self, challenge: &str) -> (r: Result<Transaction, ProofError>)
        requires
            old(self)@.wf(),
        ensures
            old(self)@.status != ProofStatus::GatheringUtxos ==> r == Err::<Transaction, ProofError>(ProofError::StateError),
            old(self)@.status == ProofStatus::GatheringUtxos && !all_priced(old(self)@.utxos) ==> r == Err::<Transaction, ProofError>(ProofError::DecodeError),
            old(self)@.status == ProofStatus::GatheringUtxos && all_priced(old(self)@.utxos) && utxo_total(old(self)@.utxos) > u64::MAX
                ==> r == Err::<Transaction, ProofError>(ProofError::AmountError),
            old(self)@.status == ProofStatus::GatheringUtxos && all_priced(old(self)@.utxos) && utxo_total(old(self)@.utxos) <= u64::MAX
                && signing_fits(challenge@, old(self)@.utxos) ==> r is Ok,
            r is Err ==> final(self)@ == old(self)@,
            r is Err ==> r == Err::<Transaction, ProofError>(ProofError::StateError) || r == Err::<Transaction, ProofError>(ProofError::DecodeError) || r == Err::<Transaction, ProofError>(ProofError::AmountError),
            r is Ok && signing_fits(challenge@, old(self)@.utxos) && inputs_small(old(self)@.utxos)
                && all_reencode(old(self)@.utxos) ==> psbt_decoding(final(self)@.psbt->Some_0) == Some(
                signing_psbt(challenge@, old(self)@.utxos, utxo_total(old(self)@.utxos) as u64),
            ),
            r matches Ok(tx) ==> {
                &&& old(self)@.status == ProofStatus::GatheringUtxos
                &&& all_priced(old(self)@.utxos)
                &&& utxo_total(old(self)@.utxos) <= u64::MAX
                &&& tx@ == signing_tx(challenge@, old(self)@.utxos, utxo_total(old(self)@.utxos) as u64)
                &&& final(self)@.status == ProofStatus::Signing
                &&& final(self)@.psbt is Some
                &&& final(self)@.id == old(self)@.id
                &&& final(self)@.utxos == old(self)@.utxos
                &&& final(self)@.proof_tx == old(self)@.proof_tx
            },
            final(self)@.wf(),
    {
        if self.status != ProofStatus::GatheringUtxos {
            return Err(ProofError::StateError);
        }
        let ghost utxos = self@.utxos;
        let mut inputs: Vec<TxIn> = Vec::new();
        inputs.push(challenge_txin(challenge));
        let mut psbt_inputs: Vec<Vec<u8>> = Vec::new();
        let challenge_fields = PsbtInputFields {
            non_witness_utxo: None,
            witness_utxo: Some(TxOut { value: 0, script_pubkey: vec![OP_TRUE] }),
            redeem_script: None,
            witness_script: Some(Vec::new()),
            final_script_sig: Some(Vec::new()),
        };
        assert(challenge_fields@.witness_utxo->Some_0.script_pubkey =~= seq![OP_TRUE]);
        assert(challenge_fields@.witness_script->Some_0 =~= Seq::<u8>::empty());
        assert(challenge_fields@.final_script_sig->Some_0 =~= Seq::<u8>::empty());
        let ghost challenge_bytes: Seq<u8>;
        match encode_psbt_input(&challenge_fields) {
            Some(b) => {
                proof {
                    challenge_bytes = b@;
                }
                psbt_inputs.push(b);
            },
            None => {
                return Err(ProofError::DecodeError);
            },
        }
        assert(fields_info(challenge_fields@) == challenge_psbt_input());
        assert(psbt_input_decoding(challenge_bytes) == Some(challenge_psbt_input()));
        assert(challenge_bytes.len() <= DECODE_LIMIT);
        let mut total: u64 = 0;
        let mut overflow = false;
        let mut i: usize = 0;
        while i < self.utxos.len()
            invariant
                self@ == old(self)@,
                self.status == ProofStatus::GatheringUtxos,
                self@.utxos == utxos,
                self@.wf(),
                0 <= i <= utxos.len(),
                inputs_view(inputs@) =~= seq![spec_challenge_txin(challenge@)] + utxos.subrange(0, i as int).map_values(|u: UtxoView| proof_input(u.point)),
                psbt_inputs@.map_values(|x: Vec<u8>| x@) =~= seq![challenge_bytes] + utxos.subrange(0, i as int).map_values(|u: UtxoView| u.psbt_input),
                psbt_input_decoding(challenge_bytes) == Some(challenge_psbt_input()),
                challenge_bytes.len() <= DECODE_LIMIT,
                forall|j: int| 0 <= j < i ==> #[trigger] prevout_of(utxos[j]) is Some,
                forall|j: int| 0 <= j < inputs@.len() ==> (#[trigger] inputs@[j])@.previous_output.txid.len() == TXID_LEN,
                overflow ==> utxo_total(utxos.subrange(0, i as int)) > u64::MAX,
                !overflow ==> total == utxo_total(utxos.subrange(0, i as int)),
            decreases utxos.len() - i,
        {
            let u = &self.utxos[i];
            let v = match u.value() {
                Some(v) => v,
                None => {
                    return Err(ProofError::DecodeError);
                },
            };
            proof {
                lemma_utxo_total_push(utxos, i as int);
            }
            if !overflow {
                match total.checked_add(v) {
                    Some(t) => {
                        total = t;
                    },
                    None => {
                        overflow = true;
                    },
                }
            }
            let txin = TxIn {
                previous_output: u.point.copy(),
                script_sig: Vec::new(),
                sequence: SEQUENCE_FINAL,
                witness: Vec::new(),
            };
            assert(txin@.script_sig =~= Seq::<u8>::empty());
            assert(txin@.witness =~= Seq::<Seq<u8>>::empty());
            assert(txin@ == proof_input(utxos[i as int].point));
            let ghost before = inputs_view(inputs@);
            inputs.push(txin);
            assert(inputs_view(inputs@) =~= before.push(proof_input(utxos[i as int].point)));
            let ghost pbefore = psbt_inputs@.map_values(|x: Vec<u8>| x@);
            psbt_inputs.push(copy_bytes(&u.psbt_input));
            assert(psbt_inputs@.map_values(|x: Vec<u8>| x@) =~= pbefore.push(utxos[i as int].psbt_input));
            assert(utxos.subrange(0, i + 1).map_values(|u: UtxoView| u.psbt_input)
                =~= utxos.subrange(0, i as int).map_values(|u: UtxoView| u.psbt_input).push(utxos[i as int].psbt_input));
            assert(utxos.subrange(0, i + 1).map_values(|u: UtxoView| proof_input(u.point))
                =~= utxos.subrange(0, i as int).map_values(|u: UtxoView| proof_input(u.point)).push(proof_input(utxos[i as int].point)));
            i += 1;
        }
        assert(utxos.subrange(0, i as int) =~= utxos);
        if overflow {
            return Err(ProofError::AmountError);
        }
        let sink = TxOut { value: total, script_pubkey: vec![OP_FALSE] };
        assert(sink@.script_pubkey =~= seq![OP_FALSE]);
        let outputs = vec![sink];
        assert(outputs_view(outputs@) =~= seq![TxOutView { value: total, script_pubkey: seq![OP_FALSE] }]);
        let tx = Transaction { version: 1, lock_time: 0xFFFF_FFFF, input: inputs, output: outputs };
        let raw = encode_tx(&tx);
        let ghost pv = psbt_inputs@.map_values(|x: Vec<u8>| x@);
        proof {
            assert(tx@ == signing_tx(challenge@, utxos, total));
            assert forall|k: int| 0 <= k < tx@.input.len() implies (#[trigger] tx@.input[k]).script_sig.len() == 0
                && tx@.input[k].witness.len() == 0 by {
                if k > 0 {
                    assert(tx@.input[k] == proof_input(utxos[k - 1].point));
                }
            }
            assert(unsigned(tx@));
            assert forall|j: int| 0 <= j < psbt_inputs@.len() implies (#[trigger] psbt_input_decoding(psbt_inputs@[j]@)) is Some by {
                assert(psbt_inputs@[j]@ == pv[j]);
                if j > 0 {
                    assert(pv[j] == utxos[j - 1].psbt_input);
                    assert(prevout_of(utxos[j - 1]) is Some);
                }
            }
            if inputs_small(utxos) {
                assert forall|j: int| 0 <= j < psbt_inputs@.len() implies (#[trigger] psbt_inputs@[j])@.len() <= DECODE_LIMIT by {
                    assert(psbt_inputs@[j]@ == pv[j]);
                    if j > 0 {
                        assert(pv[j] == utxos[j - 1].psbt_input);
                    }
                }
            }
            if all_reencode(utxos) {
                assert forall|j: int| 0 <= j < psbt_inputs@.len() implies reencodes(#[trigger] psbt_input_decoding(psbt_inputs@[j]@)->Some_0) by {
                    assert(psbt_inputs@[j]@ == pv[j]);
                    if j > 0 {
                        assert(pv[j] == utxos[j - 1].psbt_input);
                    }
                }
                let lhs = psbt_inputs@.map_values(|x: Vec<u8>| psbt_input_decoding(x@)->Some_0);
                let rhs = signing_psbt(challenge@, utxos, total).inputs;
                assert(lhs.len() == rhs.len());
                assert forall|j: int| 0 <= j < lhs.len() implies lhs[j] == rhs[j] by {
                    assert(psbt_inputs@[j]@ == pv[j]);
                    if j > 0 {
                        assert(pv[j] == utxos[j - 1].psbt_input);
                        assert(rhs[j] == psbt_input_decoding(utxos[j - 1].psbt_input)->Some_0);
                    } else {
                        assert(pv[0] == challenge_bytes);
                    }
                }
                assert(lhs =~= rhs);
            }
        }
        match build_psbt(raw.as_slice(), &psbt_inputs) {
            Some(p) => {
                self.psbt = Some(p);
                self.status = ProofStatus::Signing;
                Ok(tx)
            },
            None => Err(ProofError::DecodeError),
        }
    }

    /// The outpoints that the proof transaction spends besides the challenge input, in input
    /// order; none may repeat.
    pub fn spending_utxos(&self) -> (r: Result<Vec<OutPoint>, ProofError>)
        ensures
            self@.proof_tx is None ==> r == Err::<Vec<OutPoint>, ProofError>(ProofError::StateError),
            self@.proof_tx is Some ==> match tx_decoding(self@.proof_tx->0) {
                None => r == Err::<Vec<OutPoint>, ProofError>(ProofError::DecodeError),
                Some(tx) => match r {
                    Ok(v) => points_view(v@) == spent_points(tx) && no_duplicates(spent_points(tx)),
                    Err(e) => e == ProofError::DuplicateError && !no_duplicates(spent_points(tx)),
                },
            },
    {
        let bytes = match &self.proof_tx {
            Some(b) => b,
            None => {
                return Err(ProofError::StateError);
            },
        };
        let tx = match decode_tx(bytes.as_slice()) {
            Some(t) => t,
            None => {
                return Err(ProofError::DecodeError);
            },
        };
        let ghost spent = spent_points(tx@);
        let mut points: Vec<OutPoint> = Vec::new();
        if tx.input.len() == 0 {
            assert(points_view(points@) =~= spent);
            return Ok(points);
        }
        let mut i: usize = 1;
        while i < tx.input.len()
            invariant
                tx_decoding(bytes@) == Some(tx@),
                self@.proof_tx == Some(bytes@),
                spent == spent_points(tx@),
                spent.len() == tx.input.len() - 1,
                1 <= i <= tx.input.len(),
                points_view(points@) =~= spent.subrange(0, i - 1),
                no_duplicates(points_view(points@)),
            decreases tx.input.len() - i,
        {
            let p = &tx.input[i].previous_output;
            assert(spent[i - 1] == p@);
            assert(points_view(points@).len() == points@.len());
            let mut k: usize = 0;
            while k < points.len()
                invariant
                    tx_decoding(bytes@) == Some(tx@),
                    self@.proof_tx == Some(bytes@),
                    spent == spent_points(tx@),
                    points@.len() == i - 1,
                    0 <= k <= points.len(),
                    1 <= i < tx.input.len(),
                    spent.len() == tx.input.len() - 1,
                    points_view(points@) =~= spent.subrange(0, i - 1),
                    spent[i - 1] == p@,
                    forall|j: int| 0 <= j < k ==> (#[trigger] points@[j])@ != p@,
                decreases points.len() - k,
            {
                if points[k].same_as(p) {
                    assert(points_view(points@)[k as int] == points@[k as int]@);
                    assert(spent[k as int] == spent[i - 1]);
                    return Err(ProofError::DuplicateError);
                }
                k += 1;
            }
            let ghost before = points_view(points@);
            points.push(p.copy());
            assert(points_view(points@) =~= before.push(p@));
            assert(spent.subrange(0, i as int) =~= spent.subrange(0, i - 1).push(spent[i - 1]));
            assert forall|a: int, b: int| 0 <= a < b < points_view(points@).len() implies points_view(points@)[a] != points_view(points@)[b] by {
                if b == i - 1 {
                    assert(points_view(points@)[a] == points@[a]@);
                }
            }
            i += 1;
        }
        assert(spent =~= spent.subrange(0, i - 1));
        Ok(points)
    }

    /// Verifies a final proof against the outputs its inputs spend (`prevouts[i]` for input
    /// `i + 1`): the transaction has the shape of a proof and commits to the challenge, every
    /// input but the challenge one passes script verification, and the inputs add up to the
    /// single output exactly. Returns the proven amount.
    pub fn verify(&self, challenge: &str, prevouts: &Vec<TxOut>) -> (r: Result<u64, ProofError>)
        requires
            self@.proof_tx matches Some(b) ==> b.len() <= u32::MAX,
            forall|i: int| 0 <= i < prevouts@.len() ==> (#[trigger] prevouts@[i]).script_pubkey@.len() <= u32::MAX,
            prevouts@.len() < u32::MAX,
        ensures
            ({
                let pv = outputs_view(prevouts@);
                match verify_precheck(self@, challenge@, pv) {
                    Err(e) => r == Err::<u64, ProofError>(e),
                    Ok(tx) => {
                        let raw = self@.proof_tx->0;
                        &&& (r is Ok <==> all_inputs_accepted(pv, raw) && total_value(pv) == tx.output[0].value)
                        &&& (r matches Ok(v) ==> v == tx.output[0].value && total_value(pv) == v)
                        &&& (!all_inputs_accepted(pv, raw) ==> r is Err && r->Err_0 is ConsensusError)
                        &&& (r matches Err(ProofError::ConsensusError { input }) ==> 1 <= input <= pv.len()
                            && !input_accepted(pv, raw, input - 1)
                            && forall|j: int| 0 <= j < input - 1 ==> #[trigger] input_accepted(pv, raw, j))
                        &&& (all_inputs_accepted(pv, raw) && total_value(pv) != tx.output[0].value ==> r == Err::<u64, ProofError>(ProofError::AmountError))
                    },
                }
            }),
            match r {
                Ok(v) => verified_amount(self@, challenge@, outputs_view(prevouts@)) == Some(v),
                Err(_) => verified_amount(self@, challenge@, outputs_view(prevouts@)) is None,
            },
    {
        let ghost pv = outputs_view(prevouts@);
        if self.status != ProofStatus::Final {
            return Err(ProofError::StateError);
        }
        let bytes = match &self.proof_tx {
            Some(b) => b,
            None => {
                return Err(ProofError::StateError);
            },
        };
        let tx = match decode_tx(bytes.as_slice()) {
            Some(t) => t,
            None => {
                return Err(ProofError::DecodeError);
            },
        };
        if tx.output.len() != 1 || tx.input.len() < 2 || prevouts.len() != tx.input.len() - 1 {
            return Err(ProofError::Malformed);
        }
        let challenge_in = challenge_txin(challenge);
        if !tx.input[0].previous_output.same_as(&challenge_in.previous_output) {
            return Err(ProofError::ChallengeMismatch);
        }
        assert(verify_precheck(self@, challenge@, pv) == Ok::<TransactionView, ProofError>(tx@));
        let mut total: u64 = 0;
        let mut overflow = false;
        let mut i: usize = 0;
        while i < prevouts.len()
            invariant
                pv == outputs_view(prevouts@),
                self@.proof_tx == Some(bytes@),
                verify_precheck(self@, challenge@, pv) == Ok::<TransactionView, ProofError>(tx@),
                0 <= i <= prevouts.len(),
                prevouts@.len() < u32::MAX,
                bytes@.len() <= u32::MAX,
                forall|i: int| 0 <= i < prevouts@.len() ==> (#[trigger] prevouts@[i]).script_pubkey@.len() <= u32::MAX,
                forall|j: int| 0 <= j < i ==> #[trigger] input_accepted(pv, bytes@, j),
                overflow ==> total_value(pv.subrange(0, i as int)) > u64::MAX,
                !overflow ==> total == total_value(pv.subrange(0, i as int)),
            decreases prevouts.len() - i,
        {
            let out = &prevouts[i];
            assert(pv[i as int] == out@);
            if !verify_script(out.script_pubkey.as_slice(), out.value, bytes.as_slice(), i + 1) {
                assert(!input_accepted(pv, bytes@, i as int));
                return Err(ProofError::ConsensusError { input: i + 1 });
            }
            proof {
                lemma_total_value_push(pv, i as int);
            }
            if !overflow {
                match total.checked_add(out.value) {
                    Some(t) => {
                        total = t;
                    },
                    None => {
                        overflow = true;
                    },
                }
            }
            i += 1;
        }
        assert(pv.subrange(0, i as int) =~= pv);
        if overflow || total != tx.output[0].value {
            return Err(ProofError::AmountError);
        }
        Ok(total)
    }
}

} // verus!
