use bitcoin::consensus::encode::serialize;
use bitcoin::util::psbt;

use reserves::init::execute;
use reserves::proof_file::{Network, ProofFile};
use reserves::proofs::{HdKeypath, Proof, ProofError, ProofStatus, UTXO};
use reserves::resolver::{block_hint, find_in_block, resolve_unspent, BlockHint};
use reserves::signer::{challenge_device_input, fictive_challenge_prevout, is_challenge_request, InputScriptType, RequestKind, SignRequest};
use reserves::transaction::{challenge_txin, OutPoint, Transaction, TxIn, TxOut};

const CHALLENGE: &str = "audit-2024-01";

fn encode_tx(t: &Transaction) -> Vec<u8> {
    let tx = bitcoin::Transaction {
        version: t.version,
        lock_time: t.lock_time,
        input: t.input.iter().map(|i| bitcoin::TxIn {
            previous_output: bitcoin::OutPoint {
                txid: <bitcoin_hashes::sha256d::Hash as bitcoin_hashes::Hash>::from_slice(&i.previous_output.txid).unwrap(),
                vout: i.previous_output.vout,
            },
            script_sig: i.script_sig.clone().into(),
            sequence: i.sequence,
            witness: i.witness.clone(),
        }).collect(),
        output: t.output.iter().map(|o| bitcoin::TxOut { value: o.value, script_pubkey: o.script_pubkey.clone().into() }).collect(),
    };
    bitcoin::consensus::encode::serialize(&tx)
}

fn new_file() -> ProofFile {
    execute(Network::BitcoinMainnet, CHALLENGE, 0).unwrap()
}

fn utxo(tag: u8, vout: u32) -> UTXO {
    let mut i = psbt::Input::default();
    i.witness_utxo = Some(bitcoin::TxOut { value: 1_000, script_pubkey: vec![0x51].into() });
    UTXO { point: OutPoint { txid: vec![tag; 32], vout }, psbt_input: serialize(&i), block_number: 0, block_hash: None }
}

fn tx_with_first(first: TxIn) -> Vec<u8> {
    let other = TxIn { previous_output: OutPoint { txid: vec![5; 32], vout: 1 }, script_sig: vec![], sequence: 0xFFFF_FFFF, witness: vec![] };
    encode_tx(&Transaction { version: 1, lock_time: 0, input: vec![first, other], output: vec![TxOut { value: 1, script_pubkey: vec![0x00] }] })
}

#[test]
fn add_proof_with_wrong_challenge_fails_and_leaves_file() {
    let mut pf = new_file();
    let raw = tx_with_first(challenge_txin("some other challenge"));
    assert_eq!(pf.add_proof("p", raw), Err(ProofError::ChallengeMismatch));
    assert_eq!(pf.proofs.len(), 0);
}

#[test]
fn add_proof_accepts_challenge_input_and_puts_proof_first() {
    let mut pf = new_file();
    pf.proofs.push(Proof::new("older".to_string(), ProofStatus::GatheringUtxos));
    let raw = tx_with_first(challenge_txin(CHALLENGE));
    assert_eq!(pf.add_proof("p", raw.clone()), Ok(()));
    assert_eq!(pf.proofs.len(), 2);
    assert_eq!(pf.proofs[0].id, "p");
    assert_eq!(pf.proofs[0].status, ProofStatus::Final);
    assert_eq!(pf.proofs[0].proof_tx, Some(raw.clone()));
    assert_eq!(pf.add_proof("p", raw), Err(ProofError::DuplicateError));
}

#[test]
fn add_proof_rejects_short_or_corrupt_tx() {
    let mut pf = new_file();
    let one = encode_tx(&Transaction { version: 1, lock_time: 0, input: vec![challenge_txin(CHALLENGE)], output: vec![] });
    assert_eq!(pf.add_proof("p", one), Err(ProofError::Malformed));
    assert_eq!(pf.add_proof("p", vec![0x01]), Err(ProofError::DecodeError));
}

#[test]
fn add_utxo_creates_proof_and_rejects_duplicates() {
    let mut pf = new_file();
    assert_eq!(pf.add_utxo("p", utxo(1, 0)), Ok(()));
    assert_eq!(pf.add_utxo("p", utxo(2, 0)), Ok(()));
    assert_eq!(pf.proofs.len(), 1);
    assert_eq!(pf.proofs[0].status, ProofStatus::GatheringUtxos);
    assert_eq!(pf.proofs[0].utxos.len(), 2);
    assert_eq!(pf.add_utxo("p", utxo(1, 0)), Err(ProofError::DuplicateError));
    pf.proofs[0].status = ProofStatus::Signing;
    assert_eq!(pf.add_utxo("p", utxo(3, 0)), Err(ProofError::StateError));
}

#[test]
fn drop_utxos_removes_listed_outpoints() {
    let mut pf = new_file();
    pf.add_utxo("p", utxo(1, 0)).unwrap();
    pf.add_utxo("p", utxo(2, 0)).unwrap();
    pf.add_utxo("p", utxo(3, 0)).unwrap();
    let drops = vec![OutPoint { txid: vec![2; 32], vout: 0 }, OutPoint { txid: vec![9; 32], vout: 0 }];
    assert_eq!(pf.drop_utxos("p", &drops), Ok(1));
    assert_eq!(pf.proofs[0].utxos.len(), 2);
    assert_eq!(pf.proofs[0].utxos[1].point.txid, vec![3; 32]);
    assert_eq!(pf.drop_utxos("q", &drops), Err(ProofError::NotFound));
    pf.proofs[0].status = ProofStatus::Final;
    assert_eq!(pf.drop_utxos("p", &drops), Err(ProofError::StateError));
}

#[test]
fn drop_proofs_removes_every_match() {
    let mut pf = new_file();
    pf.proofs.push(Proof::new("a".to_string(), ProofStatus::Final));
    pf.proofs.push(Proof::new("b".to_string(), ProofStatus::Final));
    pf.proofs.push(Proof::new("a".to_string(), ProofStatus::Final));
    assert_eq!(pf.drop_proofs("a"), 2);
    assert_eq!(pf.proofs.len(), 1);
    assert_eq!(pf.proofs[0].id, "b");
    assert_eq!(pf.drop_proofs("zzz"), 0);
}

#[test]
fn fetched_utxos_are_merged_without_repeats() {
    let mut pf = new_file();
    pf.add_utxo("p", utxo(1, 0)).unwrap();
    let added = pf.add_fetched_utxos("p", vec![utxo(1, 0), utxo(2, 0), utxo(2, 0), utxo(3, 1)]).unwrap();
    assert_eq!(added, 2);
    assert_eq!(pf.proofs[0].utxos.len(), 3);
    assert_eq!(pf.add_fetched_utxos("new", vec![utxo(4, 0)]), Ok(1));
    assert_eq!(pf.proofs[0].id, "new");
}

#[test]
fn take_for_signing_moves_gathering_proof_to_signing() {
    let mut pf = new_file();
    pf.add_utxo("p", utxo(1, 0)).unwrap();
    let p = pf.take_for_signing("p").unwrap();
    assert_eq!(p.status, ProofStatus::Signing);
    assert!(p.psbt.is_some());
    assert_eq!(pf.proofs.len(), 0);
    pf.put_first(p);
    assert_eq!(pf.proofs.len(), 1);
    pf.proofs[0].status = ProofStatus::Final;
    assert_eq!(pf.take_for_signing("p").err(), Some(ProofError::StateError));
    assert_eq!(pf.take_for_signing("none").err(), Some(ProofError::NotFound));
}

#[test]
fn unspent_output_must_predate_file_height() {
    let ok = resolve_unspent(100, 90, 5_000, vec![0x51]).unwrap();
    assert_eq!(ok.value, 5_000);
    assert_eq!(resolve_unspent(100, 101, 5_000, vec![0x51]).err(), Some(ProofError::PrevoutNotFound));
}

#[test]
fn block_hint_prefers_hash_then_height() {
    let mut p = Proof::new("p".to_string(), ProofStatus::Final);
    let mut a = utxo(1, 0);
    a.block_hash = Some(vec![7; 32]);
    a.block_number = 5;
    let mut b = utxo(2, 0);
    b.block_number = 6;
    p.utxos.push(a);
    p.utxos.push(b);
    p.utxos.push(utxo(3, 0));
    assert!(matches!(block_hint(&p, &OutPoint { txid: vec![1; 32], vout: 0 }), BlockHint::Hash(h) if h == vec![7; 32]));
    assert!(matches!(block_hint(&p, &OutPoint { txid: vec![2; 32], vout: 0 }), BlockHint::Height(6)));
    assert!(matches!(block_hint(&p, &OutPoint { txid: vec![3; 32], vout: 0 }), BlockHint::Unknown));
    assert!(matches!(block_hint(&p, &OutPoint { txid: vec![4; 32], vout: 0 }), BlockHint::Unknown));
}

#[test]
fn output_is_found_in_block_by_txid_and_index() {
    let txids = vec![vec![1u8; 32], vec![2u8; 32]];
    let outputs = vec![
        vec![TxOut { value: 10, script_pubkey: vec![] }],
        vec![TxOut { value: 20, script_pubkey: vec![] }, TxOut { value: 30, script_pubkey: vec![0x51] }],
    ];
    let found = find_in_block(&txids, &outputs, &OutPoint { txid: vec![2; 32], vout: 1 }).unwrap();
    assert_eq!(found.value, 30);
    assert_eq!(find_in_block(&txids, &outputs, &OutPoint { txid: vec![2; 32], vout: 2 }).err(), Some(ProofError::PrevoutNotFound));
    assert_eq!(find_in_block(&txids, &outputs, &OutPoint { txid: vec![3; 32], vout: 0 }).err(), Some(ProofError::PrevoutNotFound));
}

#[test]
fn fictive_prevout_spends_challenge_with_op_true() {
    let tx = Transaction { version: 1, lock_time: 0, input: vec![challenge_txin(CHALLENGE)], output: vec![] };
    let f = fictive_challenge_prevout(&tx).unwrap();
    assert!(f.point.same_as(&challenge_txin(CHALLENGE).previous_output));
    assert_eq!(f.script_pubkey, vec![0x51]);
    assert!(f.redeem_script.is_empty());
    assert!(fictive_challenge_prevout(&Transaction { version: 1, lock_time: 0, input: vec![], output: vec![] }).is_none());
}

#[test]
fn challenge_request_is_first_input_of_signed_tx() {
    let req = SignRequest { kind: Some(RequestKind::Input), has_details: true, has_tx_hash: false, request_index: Some(0) };
    assert!(is_challenge_request(&req));
    assert!(!is_challenge_request(&SignRequest { has_tx_hash: true, ..req }));
    assert!(!is_challenge_request(&SignRequest { request_index: Some(1), ..req }));
    assert!(!is_challenge_request(&SignRequest { kind: Some(RequestKind::Output), ..req }));
}

#[test]
fn device_input_reverses_txid_and_claims_zero_witness_amount() {
    let mut first = challenge_txin(CHALLENGE);
    first.previous_output.txid = (0u8..32).collect();
    first.script_sig = vec![0xab];
    let tx = Transaction { version: 1, lock_time: 0, input: vec![first], output: vec![] };
    let d = challenge_device_input(&tx).unwrap();
    assert_eq!(d.prev_hash, (0u8..32).rev().collect::<Vec<u8>>());
    assert_eq!(d.prev_index, 0);
    assert_eq!(d.script_sig, vec![0xab]);
    assert_eq!(d.sequence, 0xFFFF_FFFF);
    assert_eq!(d.amount, 0);
    assert_eq!(d.script_type, InputScriptType::SpendWitness);
}

fn prev_tx_bytes() -> Vec<u8> {
    encode_tx(&Transaction {
        version: 2,
        lock_time: 0,
        input: vec![TxIn { previous_output: OutPoint { txid: vec![6; 32], vout: 0 }, script_sig: vec![0x51], sequence: 0xFFFF_FFFE, witness: vec![] }],
        output: vec![
            TxOut { value: 11_000, script_pubkey: vec![0x51] },
            TxOut { value: 22_000, script_pubkey: vec![0x00, 0x14, 1, 2, 3, 4, 5, 6, 7, 8, 9, 10, 11, 12, 13, 14, 15, 16, 17, 18, 19, 20] },
        ],
    })
}

#[test]
fn wallet_utxo_records_spent_output_and_block() {
    let u = UTXO::from_wallet(OutPoint { txid: vec![7; 32], vout: 1 }, prev_tx_bytes(), None, 650_000, vec![3; 32]).unwrap();
    assert_eq!(u.value(), Some(22_000));
    assert_eq!(u.is_witness(), Some(true));
    assert_eq!(u.block_number, 650_000);
    assert_eq!(u.block_hash, Some(vec![3; 32]));
    let missing = UTXO::from_wallet(OutPoint { txid: vec![7; 32], vout: 2 }, prev_tx_bytes(), None, 1, vec![3; 32]);
    assert_eq!(missing.err(), Some(ProofError::PrevoutNotFound));
    let corrupt = UTXO::from_wallet(OutPoint { txid: vec![7; 32], vout: 0 }, vec![1, 2], None, 1, vec![3; 32]);
    assert_eq!(corrupt.err(), Some(ProofError::DecodeError));
    let short = UTXO::from_wallet(OutPoint { txid: vec![7; 3], vout: 0 }, prev_tx_bytes(), None, 1, vec![3; 32]);
    assert_eq!(short.err(), Some(ProofError::Malformed));
}

#[test]
fn manual_utxo_reads_value_from_previous_tx_or_output() {
    let from_tx = UTXO::from_parts(OutPoint { txid: vec![7; 32], vout: 0 }, Some(prev_tx_bytes()), None, None, None, None, 0, None).unwrap();
    assert_eq!(from_tx.value(), Some(11_000));
    let from_out = UTXO::from_parts(
        OutPoint { txid: vec![7; 32], vout: 0 },
        None,
        Some(TxOut { value: 5_000, script_pubkey: vec![0x51] }),
        Some(vec![0x52]),
        None,
        None,
        10,
        Some(vec![1; 32]),
    )
    .unwrap();
    assert_eq!(from_out.value(), Some(5_000));
    let bad = UTXO::from_parts(OutPoint { txid: vec![7; 32], vout: 0 }, Some(vec![0xff]), None, None, None, None, 0, None);
    assert_eq!(bad.err(), Some(ProofError::DecodeError));
    let nothing = UTXO::from_parts(OutPoint { txid: vec![7; 32], vout: 0 }, None, None, None, None, None, 0, None).unwrap();
    assert_eq!(nothing.value(), None);
}

#[test]
fn manual_utxo_records_hd_keypath() {
    let secp = secp256k1::Secp256k1::new();
    let sk = secp256k1::key::SecretKey::from_slice(&[0x22; 32]).unwrap();
    let pk = secp256k1::key::PublicKey::from_secret_key(&secp, &sk).serialize().to_vec();
    let keypath = HdKeypath { pubkey: pk.clone(), fingerprint: 0x0102_0304, path: vec![0x8000_002c, 1, 7] };
    let out = || Some(TxOut { value: 5_000, script_pubkey: vec![0x51] });
    let u = UTXO::from_parts(OutPoint { txid: vec![7; 32], vout: 0 }, None, out(), None, None, Some(keypath), 0, None).unwrap();
    assert_eq!(u.value(), Some(5_000));
    let input: psbt::Input = bitcoin::consensus::encode::deserialize(&u.psbt_input).unwrap();
    assert_eq!(input.hd_keypaths.len(), 1);
    let (fp, path) = input.hd_keypaths.values().next().unwrap();
    assert_eq!(fp[..].to_vec(), vec![1, 2, 3, 4]);
    let children: Vec<bitcoin::util::bip32::ChildNumber> = path.clone().into();
    assert_eq!(children.into_iter().map(u32::from).collect::<Vec<u32>>(), vec![0x8000_002c, 1, 7]);
    let bad = HdKeypath { pubkey: vec![1, 2, 3], fingerprint: 0, path: vec![1] };
    let res = UTXO::from_parts(OutPoint { txid: vec![7; 32], vout: 0 }, None, out(), None, None, Some(bad), 0, None);
    assert_eq!(res.err(), Some(ProofError::DecodeError));
}

#[test]
fn manual_utxo_rejects_empty_keypath_path() {
    let secp = secp256k1::Secp256k1::new();
    let sk = secp256k1::key::SecretKey::from_slice(&[0x22; 32]).unwrap();
    let pk = secp256k1::key::PublicKey::from_secret_key(&secp, &sk).serialize().to_vec();
    let keypath = HdKeypath { pubkey: pk, fingerprint: 0, path: vec![] };
    let out = Some(TxOut { value: 5_000, script_pubkey: vec![0x51] });
    let res = UTXO::from_parts(OutPoint { txid: vec![7; 32], vout: 0 }, None, out, None, None, Some(keypath), 0, None);
    assert_eq!(res.err(), Some(ProofError::Malformed));
}

#[test]
fn wallet_utxo_can_be_signed_for() {
    let mut pf = new_file();
    let u = UTXO::from_wallet(OutPoint { txid: vec![7; 32], vout: 1 }, prev_tx_bytes(), None, 650_000, vec![3; 32]).unwrap();
    pf.add_fetched_utxos("w", vec![u]).unwrap();
    let p = pf.take_for_signing("w").unwrap();
    assert_eq!(p.status, ProofStatus::Signing);
    let stored: psbt::PartiallySignedTransaction = bitcoin::consensus::encode::deserialize(p.psbt.as_ref().unwrap()).unwrap();
    assert_eq!(stored.global.unsigned_tx.output[0].value, 22_000);
    assert_eq!(stored.inputs.len(), 2);
    assert!(stored.inputs[1].non_witness_utxo.is_some());
}
