use reserves::file_format::{decode_proof_file, encode_proof_file};
use reserves::init::execute;
use reserves::proof_file::{network_name, Network, ProofFile};
use reserves::proofs::{Proof, ProofError, ProofStatus};

#[test]
fn init_then_inspect_shows_challenge_version_and_no_proofs() {
    let pf = execute(Network::BitcoinMainnet, "audit-2024-01", 0).unwrap();
    let bytes = encode_proof_file(&pf);
    let loaded = decode_proof_file(&bytes).unwrap();
    assert_eq!(loaded.challenge, "audit-2024-01");
    assert_eq!(loaded.version, 1);
    assert_eq!(loaded.proofs.len(), 0);
    assert_eq!(loaded.network, Network::BitcoinMainnet);
}

#[test]
fn init_rejects_empty_challenge() {
    assert_eq!(execute(Network::BitcoinMainnet, "", 0).err(), Some(ProofError::EmptyChallenge));
}

#[test]
fn network_names() {
    assert_eq!(network_name(Network::BitcoinMainnet), "BITCOIN_MAINNET");
    assert_eq!(network_name(Network::BitcoinTestnet), "BITCOIN_TESTNET");
    assert_eq!(network_name(Network::Liquid), "LIQUID");
}

#[test]
fn take_proof_removes_last_with_id() {
    let mut pf = ProofFile::new(Network::BitcoinTestnet);
    pf.proofs.push(Proof::new("a".to_string(), ProofStatus::GatheringUtxos));
    pf.proofs.push(Proof::new("b".to_string(), ProofStatus::Signing));
    pf.proofs.push(Proof::new("a".to_string(), ProofStatus::Final));
    let p = pf.take_proof("a").unwrap();
    assert_eq!(p.status, ProofStatus::Final);
    assert_eq!(pf.proofs.len(), 2);
    assert!(pf.take_proof("c").is_none());
}
