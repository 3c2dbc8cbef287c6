use bitcoin::consensus::encode::serialize;
use bitcoin::util::psbt;

use reserves::proof_file::{sign_proof, Network, ProofFile, VerifyFailure};
use reserves::proofs::{Proof, ProofError, ProofStatus, UTXO};
use reserves::transaction::{challenge_txin, OutPoint, Transaction, TxIn, TxOut};

const CHALLENGE: &str = "audit-2024-01";

fn encode_tx(t: &Transaction) -> Vec<u8> {
    let tx = bitcoin::Transaction {
        version: t.version,
        lock_time: t.lock_time,
        input: t.input.iter().map(|i| bitcoin::TxIn {
            previous_output: bitcoin::OutPoint {
                txid: <bitcoin_hashes::sha256d::Hash as bitcoin_hashes::Hash>::from_slice(&i.previous_output.txid).unwrap(),
                vout: i.previous_output.vout,
            },
            script_sig: i.script_sig.clone().into(),
            sequence: i.sequence,
            witness: i.witness.clone(),
        }).collect(),
        output: t.output.iter().map(|o| bitcoin::TxOut { value: o.value, script_pubkey: o.script_pubkey.clone().into() }).collect(),
    };
    bitcoin::consensus::encode::serialize(&tx)
}

fn psbt_input_with_prevout(value: u64, script: Vec<u8>) -> Vec<u8> {
    let mut i = psbt::Input::default();
    i.witness_utxo = Some(bitcoin::TxOut { value, script_pubkey: script.into() });
    serialize(&i)
}

fn utxo(tag: u8, vout: u32, value: u64) -> UTXO {
    UTXO {
        point: OutPoint { txid: vec![tag; 32], vout },
        psbt_input: psbt_input_with_prevout(value, vec![0x51]),
        block_number: 0,
        block_hash: None,
    }
}

fn spend(tag: u8, vout: u32) -> TxIn {
    TxIn {
        previous_output: OutPoint { txid: vec![tag; 32], vout },
        script_sig: vec![],
        sequence: 0xFFFF_FFFF,
        witness: vec![],
    }
}

fn proof_tx(challenge: &str, spends: &[(u8, u32)], out_value: u64) -> Transaction {
    let mut input = vec![challenge_txin(challenge)];
    for (tag, vout) in spends {
        input.push(spend(*tag, *vout));
    }
    Transaction {
        version: 1,
        lock_time: 0xFFFF_FFFF,
        input,
        output: vec![TxOut { value: out_value, script_pubkey: vec![0x00] }],
    }
}

fn final_proof(id: &str, tx: &Transaction) -> Proof {
    let mut p = Proof::new(id.to_string(), ProofStatus::Final);
    p.proof_tx = Some(encode_tx(tx));
    p
}

fn anyone_can_spend(value: u64) -> TxOut {
    TxOut { value, script_pubkey: vec![0x51] }
}

#[test]
fn challenge_txid_is_sha256_of_challenge() {
    let txin = challenge_txin("abc");
    let expected: Vec<u8> = vec![
        0xba, 0x78, 0x16, 0xbf, 0x8f, 0x01, 0xcf, 0xea, 0x41, 0x41, 0x40, 0xde, 0x5d, 0xae, 0x22, 0x23,
        0xb0, 0x03, 0x61, 0xa3, 0x96, 0x17, 0x7a, 0x9c, 0xb4, 0x10, 0xff, 0x61, 0xf2, 0x00, 0x15, 0xad,
    ];
    assert_eq!(txin.previous_output.txid, expected);
    assert_eq!(txin.previous_output.vout, 0);
    assert_eq!(txin.sequence, 0xFFFF_FFFF);
    assert!(txin.script_sig.is_empty());
    assert!(txin.witness.is_empty());
}

#[test]
fn distinct_challenges_give_distinct_outpoints() {
    let a = challenge_txin("audit-2024-01");
    let b = challenge_txin("audit-2024-02");
    assert!(!a.previous_output.same_as(&b.previous_output));
    assert!(a.previous_output.same_as(&challenge_txin("audit-2024-01").previous_output));
}

#[test]
fn proof_transaction_is_decoded_from_its_bytes() {
    let tx = proof_tx(CHALLENGE, &[(7, 1), (8, 2)], 1234);
    let p = final_proof("p", &tx);
    let pts = p.spending_utxos().unwrap();
    assert_eq!(pts.len(), 2);
    assert_eq!(pts[1].txid, vec![8u8; 32]);
    assert_eq!(pts[1].vout, 2);
    let bytes = encode_tx(&tx);
    let mut cut = Proof::new("c".to_string(), ProofStatus::Final);
    cut.proof_tx = Some(bytes[..bytes.len() - 1].to_vec());
    assert_eq!(cut.spending_utxos().err(), Some(ProofError::DecodeError));
}

#[test]
fn utxo_value_comes_from_psbt_input() {
    let u = utxo(3, 0, 70_000);
    assert_eq!(u.value(), Some(70_000));
    assert_eq!(u.is_witness(), Some(false));
    let bad = UTXO { psbt_input: vec![1, 2, 3], ..utxo(3, 0, 1) };
    assert_eq!(bad.value(), None);
}

#[test]
fn start_signing_builds_challenge_then_utxos_and_one_output() {
    let mut p = Proof::new("p".to_string(), ProofStatus::GatheringUtxos);
    p.utxos.push(utxo(1, 0, 50_000));
    p.utxos.push(utxo(2, 3, 70_000));
    let tx = p.start_signing(CHALLENGE).unwrap();
    assert_eq!(p.status, ProofStatus::Signing);
    assert!(p.psbt.is_some());
    assert_eq!(tx.input.len(), 3);
    assert!(tx.input[0].same_as(&challenge_txin(CHALLENGE)));
    assert_eq!(tx.input[2].previous_output.txid, vec![2u8; 32]);
    assert_eq!(tx.input[2].previous_output.vout, 3);
    assert_eq!(tx.output.len(), 1);
    assert_eq!(tx.output[0].value, 120_000);
    assert_eq!(tx.output[0].script_pubkey, vec![0x00]);
    assert_eq!(tx.version, 1);
    assert_eq!(tx.lock_time, 0xFFFF_FFFF);
}

#[test]
fn start_signing_requires_gathering() {
    let mut p = Proof::new("p".to_string(), ProofStatus::Signing);
    assert_eq!(p.start_signing(CHALLENGE).err(), Some(ProofError::StateError));
    let mut q = Proof::new("q".to_string(), ProofStatus::GatheringUtxos);
    q.utxos.push(UTXO { psbt_input: vec![], ..utxo(1, 0, 1) });
    assert_eq!(q.start_signing(CHALLENGE).err(), Some(ProofError::DecodeError));
    assert_eq!(q.status, ProofStatus::GatheringUtxos);
}

#[test]
fn start_signing_rejects_overflowing_total() {
    let mut p = Proof::new("p".to_string(), ProofStatus::GatheringUtxos);
    p.utxos.push(utxo(1, 0, u64::MAX));
    p.utxos.push(utxo(2, 0, 1));
    assert_eq!(p.start_signing(CHALLENGE).err(), Some(ProofError::AmountError));
}

#[test]
fn verify_accepts_final_proof_and_returns_amount() {
    let tx = proof_tx(CHALLENGE, &[(1, 0)], 100_000);
    let p = final_proof("p", &tx);
    assert_eq!(p.verify(CHALLENGE, &vec![anyone_can_spend(100_000)]), Ok(100_000));
}

#[test]
fn verify_reports_tampered_witness_as_consensus_error() {
    let mut tx = proof_tx(CHALLENGE, &[(1, 0), (2, 0)], 150_000);
    tx.input[2].witness = vec![vec![0x01]];
    let p = final_proof("p", &tx);
    let prevouts = vec![anyone_can_spend(100_000), anyone_can_spend(50_000)];
    assert_eq!(p.verify(CHALLENGE, &prevouts), Err(ProofError::ConsensusError { input: 2 }));
}

#[test]
fn verify_rejects_failing_script() {
    let tx = proof_tx(CHALLENGE, &[(1, 0)], 100_000);
    let p = final_proof("p", &tx);
    let locked = TxOut { value: 100_000, script_pubkey: vec![0x00] };
    assert_eq!(p.verify(CHALLENGE, &vec![locked]), Err(ProofError::ConsensusError { input: 1 }));
}

#[test]
fn verify_checks_shape_state_and_challenge() {
    let tx = proof_tx(CHALLENGE, &[(1, 0)], 100_000);
    let p = final_proof("p", &tx);
    assert_eq!(p.verify("another", &vec![anyone_can_spend(100_000)]), Err(ProofError::ChallengeMismatch));
    assert_eq!(p.verify(CHALLENGE, &vec![]), Err(ProofError::Malformed));
    let lone = final_proof("q", &proof_tx(CHALLENGE, &[], 0));
    assert_eq!(lone.verify(CHALLENGE, &vec![]), Err(ProofError::Malformed));
    let gathering = Proof::new("g".to_string(), ProofStatus::GatheringUtxos);
    assert_eq!(gathering.verify(CHALLENGE, &vec![]), Err(ProofError::StateError));
    let mut corrupt = Proof::new("c".to_string(), ProofStatus::Final);
    corrupt.proof_tx = Some(vec![0xde, 0xad]);
    assert_eq!(corrupt.verify(CHALLENGE, &vec![]), Err(ProofError::DecodeError));
}

#[test]
fn verify_rejects_amount_mismatch() {
    let tx = proof_tx(CHALLENGE, &[(1, 0)], 99_999);
    let p = final_proof("p", &tx);
    assert_eq!(p.verify(CHALLENGE, &vec![anyone_can_spend(100_000)]), Err(ProofError::AmountError));
}

#[test]
fn zeroed_output_after_signing_fails_with_amount_error() {
    let mut p = Proof::new("p".to_string(), ProofStatus::GatheringUtxos);
    p.utxos.push(utxo(1, 0, 100_000));
    let mut tx = p.start_signing(CHALLENGE).unwrap();
    tx.output[0].value = 0;
    sign_proof(&mut p, tx).unwrap();
    assert_eq!(p.status, ProofStatus::Final);
    assert_eq!(p.verify(CHALLENGE, &vec![anyone_can_spend(100_000)]), Err(ProofError::AmountError));
}

#[test]
fn sign_proof_clears_challenge_script_sig() {
    let mut p = Proof::new("p".to_string(), ProofStatus::GatheringUtxos);
    p.utxos.push(utxo(1, 0, 100_000));
    let mut tx = p.start_signing(CHALLENGE).unwrap();
    tx.input[0].script_sig = vec![0x01, 0x02];
    sign_proof(&mut p, tx).unwrap();
    let stored: bitcoin::Transaction = bitcoin::consensus::encode::deserialize(p.proof_tx.as_ref().unwrap()).unwrap();
    assert!(stored.input[0].script_sig.is_empty());
    assert_eq!(stored.input.len(), 2);
    assert_eq!(p.verify(CHALLENGE, &vec![anyone_can_spend(100_000)]), Ok(100_000));
}

#[test]
fn sign_proof_requires_signing_status_and_inputs() {
    let mut p = Proof::new("p".to_string(), ProofStatus::GatheringUtxos);
    let tx = proof_tx(CHALLENGE, &[(1, 0)], 1);
    assert_eq!(sign_proof(&mut p, tx).err(), Some(ProofError::StateError));
    let mut q = Proof::new("q".to_string(), ProofStatus::Signing);
    let empty = Transaction { version: 1, lock_time: 0, input: vec![], output: vec![] };
    assert_eq!(sign_proof(&mut q, empty).err(), Some(ProofError::Malformed));
}

#[test]
fn spending_utxos_skips_challenge_and_rejects_repeats() {
    let p = final_proof("p", &proof_tx(CHALLENGE, &[(1, 0), (2, 5)], 1));
    let pts = p.spending_utxos().unwrap();
    assert_eq!(pts.len(), 2);
    assert_eq!(pts[1].txid, vec![2u8; 32]);
    let dup = final_proof("d", &proof_tx(CHALLENGE, &[(1, 0), (1, 0)], 1));
    assert_eq!(dup.spending_utxos().err(), Some(ProofError::DuplicateError));
}

#[test]
fn file_with_disjoint_proofs_verifies_to_total() {
    let mut pf = ProofFile::new(Network::BitcoinMainnet);
    pf.version = 1;
    pf.challenge = CHALLENGE.to_string();
    pf.proofs.push(final_proof("a", &proof_tx(CHALLENGE, &[(1, 0)], 50_000)));
    pf.proofs.push(final_proof("b", &proof_tx(CHALLENGE, &[(2, 0)], 70_000)));
    let prevouts = vec![vec![anyone_can_spend(50_000)], vec![anyone_can_spend(70_000)]];
    assert_eq!(pf.verify_file(&prevouts), Ok(120_000));
}

#[test]
fn file_with_shared_outpoint_fails_with_duplicate_error() {
    let mut pf = ProofFile::new(Network::BitcoinMainnet);
    pf.version = 1;
    pf.challenge = CHALLENGE.to_string();
    pf.proofs.push(final_proof("a", &proof_tx(CHALLENGE, &[(1, 0)], 50_000)));
    pf.proofs.push(final_proof("b", &proof_tx(CHALLENGE, &[(2, 0), (1, 0)], 120_000)));
    let prevouts = vec![
        vec![anyone_can_spend(50_000)],
        vec![anyone_can_spend(70_000), anyone_can_spend(50_000)],
    ];
    assert_eq!(pf.verify_file(&prevouts), Err(VerifyFailure::File(ProofError::DuplicateError)));
}

#[test]
fn file_verification_requires_final_proofs_and_bitcoin_network() {
    let mut pf = ProofFile::new(Network::Liquid);
    pf.version = 1;
    pf.challenge = CHALLENGE.to_string();
    pf.proofs.push(final_proof("a", &proof_tx(CHALLENGE, &[(1, 0)], 50_000)));
    let prevouts = vec![vec![anyone_can_spend(50_000)]];
    assert_eq!(pf.verify_file(&prevouts), Err(VerifyFailure::File(ProofError::UnsupportedNetwork)));
    pf.network = Network::BitcoinTestnet;
    pf.proofs.push(Proof::new("g".to_string(), ProofStatus::GatheringUtxos));
    assert_eq!(pf.verify_file(&prevouts), Err(VerifyFailure::File(ProofError::StateError)));
}

#[test]
fn start_signing_stores_psbt_with_challenge_input_first() {
    let mut p = Proof::new("p".to_string(), ProofStatus::GatheringUtxos);
    p.utxos.push(utxo(1, 0, 50_000));
    p.utxos.push(utxo(2, 3, 70_000));
    p.start_signing(CHALLENGE).unwrap();
    let stored: psbt::PartiallySignedTransaction =
        bitcoin::consensus::encode::deserialize(p.psbt.as_ref().unwrap()).unwrap();
    let tx = &stored.global.unsigned_tx;
    assert_eq!(tx.version, 1);
    assert_eq!(tx.lock_time, 0xFFFF_FFFF);
    assert_eq!(tx.input.len(), 3);
    assert_eq!(tx.input[0].previous_output.txid[..].to_vec(), challenge_txin(CHALLENGE).previous_output.txid);
    assert_eq!(tx.output.len(), 1);
    assert_eq!(tx.output[0].value, 120_000);
    assert_eq!(tx.output[0].script_pubkey.to_bytes(), vec![0x00]);
    assert_eq!(stored.inputs.len(), 3);
    let first = &stored.inputs[0];
    assert_eq!(first.witness_utxo.as_ref().unwrap().value, 0);
    assert_eq!(first.witness_utxo.as_ref().unwrap().script_pubkey.to_bytes(), vec![0x51]);
    assert_eq!(first.witness_script.as_ref().map(|s| s.to_bytes()), Some(vec![]));
    assert_eq!(first.final_script_sig.as_ref().map(|s| s.to_bytes()), Some(vec![]));
    let own: psbt::Input = bitcoin::consensus::encode::deserialize(&p.utxos[1].psbt_input).unwrap();
    assert_eq!(stored.inputs[2], own);
}

#[test]
fn file_verification_names_the_failing_proof() {
    let mut pf = ProofFile::new(Network::BitcoinMainnet);
    pf.version = 1;
    pf.challenge = CHALLENGE.to_string();
    pf.proofs.push(final_proof("a", &proof_tx(CHALLENGE, &[(1, 0)], 50_000)));
    pf.proofs.push(final_proof("b", &proof_tx(CHALLENGE, &[(2, 0)], 70_000)));
    let locked = TxOut { value: 70_000, script_pubkey: vec![0x00] };
    let prevouts = vec![vec![anyone_can_spend(50_000)], vec![locked]];
    assert_eq!(
        pf.verify_file(&prevouts),
        Err(VerifyFailure::Proof { index: 1, error: ProofError::ConsensusError { input: 1 } })
    );
}

#[test]
fn spending_utxos_reads_any_proof_with_a_transaction() {
    let tx = proof_tx(CHALLENGE, &[(1, 0), (2, 5)], 1);
    let mut p = Proof::new("p".to_string(), ProofStatus::Signing);
    p.proof_tx = Some(encode_tx(&tx));
    assert_eq!(p.spending_utxos().unwrap().len(), 2);
    let dup = proof_tx(CHALLENGE, &[(1, 0), (1, 0)], 1);
    p.proof_tx = Some(encode_tx(&dup));
    assert_eq!(p.spending_utxos().err(), Some(ProofError::DuplicateError));
    let empty = Proof::new("e".to_string(), ProofStatus::Final);
    assert_eq!(empty.spending_utxos().err(), Some(ProofError::StateError));
}
