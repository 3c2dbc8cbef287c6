//! Creating a proof file, and settling which network a command works on.
use vstd::prelude::*;

use crate::proof_file::{Network, ProofFile, ProofFileView, PROOF_FILE_VERSION};
use crate::proofs::{ProofError, ProofView};

verus! {

/// Executes the `init` command: a new proof file of the supported version for the network,
/// the challenge and the block height, with no proofs. The challenge may not be empty.
pub fn execute(network: Network, challenge: &str, block_number: u32) -> (r: Result<ProofFile, ProofError>)
    ensures
        challenge@.len() == 0 ==> r == Err::<ProofFile, ProofError>(ProofError::EmptyChallenge),
        challenge@.len() > 0 ==> (r matches Ok(pf) && pf@ == (ProofFileView {
            version: PROOF_FILE_VERSION,
            network,
            challenge: challenge@,
            block_number,
            proofs: Seq::<ProofView>::empty(),
        })),
{
    if challenge.is_empty() {
        return Err(ProofError::EmptyChallenge);
    }
    let mut p = ProofFile::new(network);
    p.version = PROOF_FILE_VERSION;
    p.challenge = challenge.to_owned();
    p.block_number = block_number;
    assert(p@.proofs =~= Seq::<ProofView>::empty());
    Ok(p)
}

/// The network a command works on: the loaded file's, else testnet when asked for, else
/// mainnet.
pub fn network(loaded: Option<Network>, testnet: bool) -> (r: Network)
    ensures
        r == match loaded {
            Some(n) => n,
            None => if testnet {
                Network::BitcoinTestnet
            } else {
                Network::BitcoinMainnet
            },
        },
{
    match loaded {
        Some(n) => n,
        None => if testnet {
            Network::BitcoinTestnet
        } else {
            Network::BitcoinMainnet
        },
    }
}

/// A loaded file must be for the network that was asked for, if one was.
pub fn check_network(file_network: Network, requested: Option<Network>) -> (r: Result<(), ProofError>)
    ensures
        r is Ok <==> (requested matches Some(n) ==> n == file_network),
        r is Err ==> r == Err::<(), ProofError>(ProofError::NetworkMismatch),
{
    match requested {
        Some(n) => if n != file_network {
            Err(ProofError::NetworkMismatch)
        } else {
            Ok(())
        },
        None => Ok(()),
    }
}

} // verus!
