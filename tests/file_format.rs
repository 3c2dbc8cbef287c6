use bitcoin::consensus::encode::serialize;
use bitcoin::util::psbt;

use reserves::file_format::{decode_proof, decode_proof_file, decode_utxo, encode_proof, encode_proof_file, encode_utxo};
use reserves::init::{check_network, execute, network};
use reserves::proof_file::{Network, ProofFile};
use reserves::proofs::{Proof, ProofError, ProofStatus, UTXO};
use reserves::transaction::{challenge_txin, OutPoint, Transaction, TxOut};

fn encode_tx(t: &Transaction) -> Vec<u8> {
    let tx = bitcoin::Transaction {
        version: t.version,
        lock_time: t.lock_time,
        input: t.input.iter().map(|i| bitcoin::TxIn {
            previous_output: bitcoin::OutPoint {
                txid: <bitcoin_hashes::sha256d::Hash as bitcoin_hashes::Hash>::from_slice(&i.previous_output.txid).unwrap(),
                vout: i.previous_output.vout,
            },
            script_sig: i.script_sig.clone().into(),
            sequence: i.sequence,
            witness: i.witness.clone(),
        }).collect(),
        output: t.output.iter().map(|o| bitcoin::TxOut { value: o.value, script_pubkey: o.script_pubkey.clone().into() }).collect(),
    };
    bitcoin::consensus::encode::serialize(&tx)
}

fn sample_utxo(tag: u8, vout: u32, value: u64, hash: Option<Vec<u8>>) -> UTXO {
    let mut i = psbt::Input::default();
    i.witness_utxo = Some(bitcoin::TxOut { value, script_pubkey: vec![0x51].into() });
    UTXO {
        point: OutPoint { txid: vec![tag; 32], vout },
        psbt_input: serialize(&i),
        block_number: 700_000 + vout,
        block_hash: hash,
    }
}

fn sample_psbt() -> Vec<u8> {
    let tx = bitcoin::Transaction {
        version: 1,
        lock_time: 0,
        input: vec![bitcoin::TxIn {
            previous_output: bitcoin::OutPoint::default(),
            script_sig: bitcoin::Script::new(),
            sequence: 0xFFFF_FFFF,
            witness: vec![],
        }],
        output: vec![bitcoin::TxOut { value: 5, script_pubkey: bitcoin::Script::new() }],
    };
    serialize(&psbt::PartiallySignedTransaction::from_unsigned_tx(tx).unwrap())
}

fn sample_file() -> ProofFile {
    let mut pf = execute(Network::BitcoinTestnet, "audit-2024-01", 812_345).unwrap();
    let mut gathering = Proof::new("cold".to_string(), ProofStatus::GatheringUtxos);
    gathering.utxos.push(sample_utxo(1, 0, 50_000, None));
    gathering.utxos.push(sample_utxo(2, 7, 70_000, Some(vec![9u8; 32])));
    let tx = Transaction {
        version: 1,
        lock_time: 0xFFFF_FFFF,
        input: vec![challenge_txin("audit-2024-01")],
        output: vec![TxOut { value: 0, script_pubkey: vec![0x00] }],
    };
    let mut fin = Proof::new("hot wallet \u{2603}".to_string(), ProofStatus::Final);
    fin.proof_tx = Some(encode_tx(&tx));
    fin.psbt = Some(sample_psbt());
    pf.proofs.push(gathering);
    pf.proofs.push(fin);
    pf
}

#[test]
fn proof_file_round_trips() {
    let pf = sample_file();
    let bytes = encode_proof_file(&pf);
    let back = decode_proof_file(&bytes).unwrap();
    assert_eq!(back.version, 1);
    assert_eq!(back.network, Network::BitcoinTestnet);
    assert_eq!(back.challenge, "audit-2024-01");
    assert_eq!(back.block_number, 812_345);
    assert_eq!(back.proofs.len(), 2);
    assert_eq!(back.proofs[0].id, "cold");
    assert_eq!(back.proofs[0].status, ProofStatus::GatheringUtxos);
    assert_eq!(back.proofs[0].utxos.len(), 2);
    assert_eq!(back.proofs[0].utxos[1].point.vout, 7);
    assert_eq!(back.proofs[0].utxos[1].block_hash, Some(vec![9u8; 32]));
    assert_eq!(back.proofs[0].utxos[0].block_hash, None);
    assert_eq!(back.proofs[0].utxos[1].block_number, 700_007);
    assert_eq!(back.proofs[1].id, "hot wallet \u{2603}");
    assert_eq!(back.proofs[1].status, ProofStatus::Final);
    assert_eq!(back.proofs[1].proof_tx, pf.proofs[1].proof_tx);
    assert_eq!(back.proofs[1].psbt, Some(sample_psbt()));
    assert_eq!(encode_proof_file(&back), bytes);
}

#[test]
fn empty_file_encoding_is_exact() {
    let pf = execute(Network::BitcoinMainnet, "ab", 0).unwrap();
    assert_eq!(encode_proof_file(&pf), vec![0x08, 0x01, 0x10, 0x01, 0x1a, 0x02, b'a', b'b']);
}

#[test]
fn utxo_encoding_is_exact() {
    let u = UTXO { point: OutPoint { txid: vec![0xaa; 32], vout: 300 }, psbt_input: vec![0x00], block_number: 0, block_hash: None };
    let mut expected = vec![0x0a, 0x20];
    expected.extend(vec![0xaa; 32]);
    expected.extend(vec![0x10, 0xac, 0x02, 0x1a, 0x01, 0x00]);
    assert_eq!(encode_utxo(&u), expected);
    let back = decode_utxo(&expected).unwrap();
    assert_eq!(back.point.vout, 300);
    assert_eq!(back.point.txid, vec![0xaa; 32]);
}

#[test]
fn utxo_with_short_txid_is_rejected() {
    assert!(decode_utxo(&[0x0a, 0x02, 0x01, 0x02]).is_none());
}

#[test]
fn proof_round_trips_alone() {
    let mut p = Proof::new("x".to_string(), ProofStatus::Signing);
    p.psbt = Some(sample_psbt());
    let back = decode_proof(&encode_proof(&p)).unwrap();
    assert_eq!(back.id, "x");
    assert_eq!(back.status, ProofStatus::Signing);
    assert_eq!(back.psbt, Some(sample_psbt()));
    assert!(back.proof_tx.is_none());
}

#[test]
fn load_fails_on_version_two() {
    let mut pf = sample_file();
    pf.version = 2;
    let bytes = encode_proof_file(&pf);
    assert_eq!(decode_proof_file(&bytes).err(), Some(ProofError::VersionError));
}

#[test]
fn load_fails_on_version_zero() {
    let pf = ProofFile::new(Network::BitcoinMainnet);
    assert_eq!(decode_proof_file(&encode_proof_file(&pf)).err(), Some(ProofError::VersionError));
}

#[test]
fn load_fails_on_corrupt_bytes() {
    assert_eq!(decode_proof_file(&[0x0a, 0x05, 0x01]).err(), Some(ProofError::DecodeError));
    assert_eq!(decode_proof_file(&[0x1a, 0x01, 0xff]).err(), Some(ProofError::DecodeError));
    assert_eq!(decode_proof_file(&[0x10, 0x09]).err(), Some(ProofError::DecodeError));
}

#[test]
fn unknown_fields_are_skipped() {
    let bytes = vec![0x08, 0x01, 0x30, 0x05, 0x1a, 0x01, b'c'];
    let pf = decode_proof_file(&bytes).unwrap();
    assert_eq!(pf.challenge, "c");
}

#[test]
fn network_selection_and_check() {
    assert_eq!(network(Some(Network::Liquid), true), Network::Liquid);
    assert_eq!(network(None, true), Network::BitcoinTestnet);
    assert_eq!(network(None, false), Network::BitcoinMainnet);
    assert_eq!(check_network(Network::BitcoinMainnet, Some(Network::BitcoinTestnet)), Err(ProofError::NetworkMismatch));
    assert_eq!(check_network(Network::BitcoinMainnet, None), Ok(()));
}

#[test]
fn utxo_without_decodable_psbt_input_is_rejected() {
    let u = UTXO { point: OutPoint { txid: vec![0xaa; 32], vout: 1 }, psbt_input: vec![], block_number: 0, block_hash: None };
    assert!(decode_utxo(&encode_utxo(&u)).is_none());
    let v = UTXO { psbt_input: vec![0x05, 0x01], ..u };
    assert!(decode_utxo(&encode_utxo(&v)).is_none());
}

#[test]
fn load_fails_on_corrupt_proof_tx() {
    let mut pf = sample_file();
    pf.proofs[1].proof_tx = Some(vec![0x01, 0x02, 0x03]);
    assert_eq!(decode_proof_file(&encode_proof_file(&pf)).err(), Some(ProofError::DecodeError));
}

#[test]
fn load_fails_on_corrupt_psbt() {
    let mut pf = sample_file();
    pf.proofs[1].psbt = Some(vec![0x70, 0x73, 0x62, 0x74, 0xff]);
    assert_eq!(decode_proof_file(&encode_proof_file(&pf)).err(), Some(ProofError::DecodeError));
}

#[test]
fn load_fails_on_corrupt_psbt_input() {
    let mut pf = sample_file();
    pf.proofs[0].utxos[0].psbt_input = vec![0x07, 0x07];
    assert_eq!(decode_proof_file(&encode_proof_file(&pf)).err(), Some(ProofError::DecodeError));
}
