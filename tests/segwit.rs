use bitcoin::consensus::encode::deserialize;
use bitcoin::util::bip143::SighashComponents;
use bitcoin::util::psbt;
use bitcoin_hashes::hash160;
use secp256k1::key::{PublicKey, SecretKey};
use secp256k1::{Message, Secp256k1};

use reserves::init::execute;
use reserves::proof_file::{sign_proof, Network, VerifyFailure};
use reserves::proofs::{ProofError, UTXO};
use reserves::transaction::{OutPoint, Transaction, TxIn, TxOut};

const CHALLENGE: &str = "audit-2024-01";

fn model(t: &bitcoin::Transaction) -> Transaction {
    Transaction {
        version: t.version,
        lock_time: t.lock_time,
        input: t.input.iter().map(|i| TxIn {
            previous_output: OutPoint { txid: i.previous_output.txid[..].to_vec(), vout: i.previous_output.vout },
            script_sig: i.script_sig.to_bytes(),
            sequence: i.sequence,
            witness: i.witness.clone(),
        }).collect(),
        output: t.output.iter().map(|o| TxOut { value: o.value, script_pubkey: o.script_pubkey.to_bytes() }).collect(),
    }
}

struct Key {
    secp: Secp256k1<secp256k1::All>,
    sk: SecretKey,
    pk: Vec<u8>,
    hash: Vec<u8>,
}

fn key() -> Key {
    let secp = Secp256k1::new();
    let sk = SecretKey::from_slice(&[0x11; 32]).unwrap();
    let pk = PublicKey::from_secret_key(&secp, &sk).serialize().to_vec();
    let hash = <hash160::Hash as bitcoin_hashes::Hash>::hash(&pk)[..].to_vec();
    Key { secp, sk, pk, hash }
}

fn p2wpkh(hash: &[u8]) -> Vec<u8> {
    let mut s = vec![0x00, 0x14];
    s.extend_from_slice(hash);
    s
}

fn signed_file() -> (reserves::proof_file::ProofFile, Vec<u8>) {
    let k = key();
    let spk = p2wpkh(&k.hash);
    let mut input = psbt::Input::default();
    input.witness_utxo = Some(bitcoin::TxOut { value: 100_000, script_pubkey: spk.clone().into() });
    let utxo = UTXO {
        point: OutPoint { txid: vec![0x42; 32], vout: 1 },
        psbt_input: bitcoin::consensus::encode::serialize(&input),
        block_number: 0,
        block_hash: None,
    };
    let mut pf = execute(Network::BitcoinTestnet, CHALLENGE, 1_000).unwrap();
    pf.add_utxo("p", utxo).unwrap();
    let mut proof = pf.take_for_signing("p").unwrap();
    let psbt: psbt::PartiallySignedTransaction = deserialize(proof.psbt.as_ref().unwrap()).unwrap();
    let mut tx = psbt.global.unsigned_tx.clone();
    let mut code = vec![0x76, 0xa9, 0x14];
    code.extend_from_slice(&k.hash);
    code.extend_from_slice(&[0x88, 0xac]);
    let sighash = SighashComponents::new(&tx).sighash_all(&tx.input[1], &code.into(), 100_000);
    let msg = Message::from_slice(&sighash[..]).unwrap();
    let mut sig = k.secp.sign(&msg, &k.sk).serialize_der();
    sig.push(0x01);
    tx.input[1].witness = vec![sig, k.pk.clone()];
    sign_proof(&mut proof, model(&tx)).unwrap();
    pf.put_first(proof);
    (pf, spk)
}

#[test]
fn p2wpkh_proof_signs_and_verifies_to_its_value() {
    let (pf, spk) = signed_file();
    let prevouts = vec![vec![TxOut { value: 100_000, script_pubkey: spk }]];
    assert_eq!(pf.verify_file(&prevouts), Ok(100_000));
}

#[test]
fn tampered_witness_byte_fails_with_consensus_error() {
    let (mut pf, spk) = signed_file();
    let raw = pf.proofs[0].proof_tx.clone().unwrap();
    let mut tx: bitcoin::Transaction = deserialize(&raw).unwrap();
    tx.input[1].witness[0][10] ^= 0x01;
    pf.proofs[0].proof_tx = Some(bitcoin::consensus::encode::serialize(&tx));
    let prevouts = vec![vec![TxOut { value: 100_000, script_pubkey: spk }]];
    assert_eq!(pf.verify_file(&prevouts), Err(VerifyFailure::Proof { index: 0, error: ProofError::ConsensusError { input: 1 } }));
}

#[test]
fn wrong_prevout_amount_breaks_segwit_signature() {
    let (pf, spk) = signed_file();
    let prevouts = vec![vec![TxOut { value: 100_001, script_pubkey: spk }]];
    assert_eq!(pf.verify_file(&prevouts), Err(VerifyFailure::Proof { index: 0, error: ProofError::ConsensusError { input: 1 } }));
}
