//! The proof file: a challenge, the height at which the proofs hold, and the proofs, with the
//! operations that commands perform on it between loading and saving.
use vstd::prelude::*;

use crate::bindings::{decode_tx, encode_tx, tx_decoding, tx_encoding};
use crate::bindings::psbt_decoding;
use crate::proofs::{
    all_priced, all_reencode, inputs_small, no_duplicates, points_view, signing_fits, signing_psbt, spent_points,
    utxo_total, utxos_view, verified_amount, Proof, ProofError, ProofStatus, ProofView, UtxoView, UTXO,
};
use crate::transaction::{
    challenge_txin, outputs_view, spec_challenge_txin, str_equal, OutPoint,
    OutPointView, Transaction, TransactionView, TxInView, TxOut, TxOutView, TXID_LEN,
};

verus! {

/// Why verifying a proof file failed: a failure of the file as a whole, or of the proof at an
/// index.
#[derive(Clone, Copy, Debug, PartialEq, Eq, Structural)]
pub enum VerifyFailure {
    File(ProofError),
    Proof { index: usize, error: ProofError },
}

/// The only proof file version there is.
pub const PROOF_FILE_VERSION: u32 = 1;

/// The chain a proof file is about.
#[derive(Clone, Copy, Debug, PartialEq, Eq, Structural)]
pub enum Network {
    Undefined,
    BitcoinMainnet,
    BitcoinTestnet,
    Liquid,
}

pub open spec fn network_label(network: Network) -> Seq<char> {
    match network {
        Network::Undefined => "UNDEFINED"@,
        Network::BitcoinMainnet => "BITCOIN_MAINNET"@,
        Network::BitcoinTestnet => "BITCOIN_TESTNET"@,
        Network::Liquid => "LIQUID"@,
    }
}

/// Human readable name of a network.
pub fn network_name(network: Network) -> (r: String)
    ensures
        r@ == network_label(network),
{
    match network {
        Network::Undefined => "UNDEFINED".to_owned(),
        Network::BitcoinMainnet => "BITCOIN_MAINNET".to_owned(),
        Network::BitcoinTestnet => "BITCOIN_TESTNET".to_owned(),
        Network::Liquid => "LIQUID".to_owned(),
    }
}

/// A proof file.
pub struct ProofFile {
    pub version: u32,
    pub network: Network,
    pub challenge: String,
    pub block_number: u32,
    pub proofs: Vec<Proof>,
}

pub struct ProofFileView {
    pub version: u32,
    pub network: Network,
    pub challenge: Seq<char>,
    pub block_number: u32,
    pub proofs: Seq<ProofView>,
}

pub open spec fn proofs_view(s: Seq<Proof>) -> Seq<ProofView> {
    s.map_values(|p: Proof| p@)
}

impl View for ProofFile {
    type V = ProofFileView;

    open spec fn view(&self) -> ProofFileView {
        ProofFileView {
            version: self.version,
            network: self.network,
            challenge: self.challenge@,
            block_number: self.block_number,
            proofs: proofs_view(self.proofs@),
        }
    }
}

impl ProofFileView {
    pub open spec fn wf(self) -> bool {
        forall|i: int| 0 <= i < self.proofs.len() ==> (#[trigger] self.proofs[i]).wf()
    }
}

/// Index of the last proof with the given id.
pub open spec fn find_last(proofs: Seq<ProofView>, id: Seq<char>) -> Option<int>
    decreases proofs.len(),
{
    if proofs.len() == 0 {
        None
    } else if proofs.last().id == id {
        Some(proofs.len() - 1)
    } else {
        find_last(proofs.drop_last(), id)
    }
}

proof fn lemma_find_last(proofs: Seq<ProofView>, id: Seq<char>)
    ensures
        find_last(proofs, id) matches Some(k) ==> 0 <= k < proofs.len() && proofs[k].id == id,
    decreases proofs.len(),
{
    if proofs.len() > 0 {
        lemma_find_last(proofs.drop_last(), id);
    }
}

proof fn lemma_find_last_suffix(proofs: Seq<ProofView>, id: Seq<char>, i: int)
    requires
        0 <= i <= proofs.len(),
        forall|j: int| i <= j < proofs.len() ==> #[trigger] proofs[j].id != id,
    ensures
        find_last(proofs, id) == find_last(proofs.subrange(0, i), id),
    decreases proofs.len() - i,
{
    if i < proofs.len() {
        assert(proofs.drop_last() =~= proofs.subrange(0, proofs.len() - 1));
        lemma_find_last_suffix(proofs.drop_last(), id, i);
        assert(proofs.drop_last().subrange(0, i) =~= proofs.subrange(0, i));
    } else {
        assert(proofs.subrange(0, i) =~= proofs);
    }
}

/// Whether any UTXO spends the given outpoint.
pub open spec fn has_point(utxos: Seq<UtxoView>, p: OutPointView) -> bool {
    exists|i: int| 0 <= i < utxos.len() && #[trigger] utxos[i].point == p
}

/// The UTXOs after adding those of `incoming` whose outpoint is not there yet, in order.
pub open spec fn merge_utxos(existing: Seq<UtxoView>, incoming: Seq<UtxoView>) -> Seq<UtxoView>
    decreases incoming.len(),
{
    if incoming.len() == 0 {
        existing
    } else {
        let m = merge_utxos(existing, incoming.drop_last());
        if has_point(m, incoming.last().point) {
            m
        } else {
            m.push(incoming.last())
        }
    }
}

/// The UTXOs whose outpoint is not among `drops`, in order.
pub open spec fn retain_utxos(utxos: Seq<UtxoView>, drops: Seq<OutPointView>) -> Seq<UtxoView>
    decreases utxos.len(),
{
    if utxos.len() == 0 {
        Seq::empty()
    } else {
        let r = retain_utxos(utxos.drop_last(), drops);
        if drops.contains(utxos.last().point) {
            r
        } else {
            r.push(utxos.last())
        }
    }
}

/// The proofs whose id differs from `id`, in order.
pub open spec fn without_id(proofs: Seq<ProofView>, id: Seq<char>) -> Seq<ProofView>
    decreases proofs.len(),
{
    if proofs.len() == 0 {
        Seq::empty()
    } else {
        let r = without_id(proofs.drop_last(), id);
        if proofs.last().id == id {
            r
        } else {
            r.push(proofs.last())
        }
    }
}

/// A signed transaction with the script signature of its first input cleared: the challenge
/// input must stay unsigned whatever the signer did.
pub open spec fn strip_challenge_sig(tx: TransactionView) -> TransactionView {
    TransactionView {
        input: tx.input.update(0, TxInView { script_sig: Seq::empty(), ..tx.input[0] }),
        ..tx
    }
}

/// All the outpoints that the proofs spend besides their challenge inputs, proof after proof
/// (proofs without a decodable transaction contribute nothing).
pub open spec fn all_spent(proofs: Seq<ProofView>) -> Seq<OutPointView>
    decreases proofs.len(),
{
    if proofs.len() == 0 {
        Seq::empty()
    } else {
        all_spent(proofs.drop_last()) + proof_spent(proofs.last())
    }
}

/// Every proof is final and holds a decodable transaction.
pub open spec fn all_final(proofs: Seq<ProofView>) -> bool {
    forall|i: int| 0 <= i < proofs.len() ==> {
        &&& (#[trigger] proofs[i]).status == ProofStatus::Final
        &&& proofs[i].proof_tx matches Some(b)
        &&& tx_decoding(b) is Some
    }
}

/// What a final proof contributes to `all_spent`.
pub open spec fn proof_spent(p: ProofView) -> Seq<OutPointView> {
    match p.proof_tx {
        Some(b) => match tx_decoding(b) {
            Some(tx) => spent_points(tx),
            None => Seq::empty(),
        },
        None => Seq::empty(),
    }
}

proof fn lemma_all_spent_concat(a: Seq<ProofView>, b: Seq<ProofView>)
    ensures
        all_spent(a + b) == all_spent(a) + all_spent(b),
    decreases b.len(),
{
    if b.len() == 0 {
        assert(a + b =~= a);
        assert(all_spent(a) + all_spent(b) =~= all_spent(a));
    } else {
        assert((a + b).drop_last() =~= a + b.drop_last());
        lemma_all_spent_concat(a, b.drop_last());
        assert(all_spent(a + b) =~= all_spent(a) + all_spent(b));
    }
}

/// Sum of the amounts that the proofs prove, each against its own previous outputs.
pub open spec fn verified_total(proofs: Seq<ProofView>, challenge: Seq<char>, prevouts: Seq<Seq<TxOutView>>) -> int
    decreases proofs.len(),
{
    if proofs.len() == 0 {
        0
    } else {
        verified_total(proofs.drop_last(), challenge, prevouts) + match verified_amount(proofs.last(), challenge, prevouts[proofs.len() - 1]) {
            Some(v) => v as int,
            None => 0,
        }
    }
}

pub open spec fn prevouts_view(s: Seq<Vec<TxOut>>) -> Seq<Seq<TxOutView>> {
    s.map_values(|v: Vec<TxOut>| outputs_view(v@))
}

/// Networks whose proofs this library verifies.
pub open spec fn verifiable_network(n: Network) -> bool {
    n == Network::BitcoinMainnet || n == Network::BitcoinTestnet
}

/// Checks that every proof is final and that no outpoint besides the challenge inputs is
/// spent twice, within a proof or across proofs. Returns the outpoints, proof after proof.
pub fn check_unique_spends(proofs: &Vec<Proof>) -> (r: Result<Vec<OutPoint>, ProofError>)
    ensures
        r matches Ok(v) ==> all_final(proofs_view(proofs@)) && no_duplicates(all_spent(proofs_view(proofs@)))
            && points_view(v@) == all_spent(proofs_view(proofs@)),
        all_final(proofs_view(proofs@)) ==> (r is Ok <==> no_duplicates(all_spent(proofs_view(proofs@)))),
        all_final(proofs_view(proofs@)) && r is Err ==> r == Err::<Vec<OutPoint>, ProofError>(ProofError::DuplicateError),
        r == Err::<Vec<OutPoint>, ProofError>(ProofError::StateError) || r == Err::<Vec<OutPoint>, ProofError>(ProofError::DecodeError)
            ==> !all_final(proofs_view(proofs@)),
        r is Err ==> r == Err::<Vec<OutPoint>, ProofError>(ProofError::StateError) || r == Err::<Vec<OutPoint>, ProofError>(ProofError::DecodeError)
            || r == Err::<Vec<OutPoint>, ProofError>(ProofError::DuplicateError),
{
    let ghost ps = proofs_view(proofs@);
    let mut seen: Vec<OutPoint> = Vec::new();
    let mut i: usize = 0;
    while i < proofs.len()
        invariant
            ps == proofs_view(proofs@),
            0 <= i <= proofs.len(),
            forall|j: int| 0 <= j < i ==> {
                &&& (#[trigger] ps[j]).status == ProofStatus::Final
                &&& ps[j].proof_tx matches Some(b)
                &&& tx_decoding(b) is Some
            },
            points_view(seen@) == all_spent(ps.subrange(0, i as int)),
            no_duplicates(points_view(seen@)),
        decreases proofs.len() - i,
    {
        proof {
            let pre = ps.subrange(0, i as int);
            let rest = ps.subrange(i as int, ps.len() as int);
            let post = ps.subrange(i + 1, ps.len() as int);
            lemma_all_spent_concat(pre, rest);
            assert(pre + rest =~= ps);
            lemma_all_spent_concat(seq![ps[i as int]], post);
            assert(seq![ps[i as int]] + post =~= rest);
            lemma_all_spent_concat(pre, seq![ps[i as int]]);
            assert(ps.subrange(0, i + 1) =~= pre + seq![ps[i as int]]);
            assert(seq![ps[i as int]].drop_last() =~= Seq::<ProofView>::empty());
            assert(all_spent(Seq::<ProofView>::empty()) =~= Seq::<OutPointView>::empty());
            assert(seq![ps[i as int]].last() == ps[i as int]);
            assert(all_spent(seq![ps[i as int]]) =~= proof_spent(ps[i as int]));
            assert(all_spent(ps) =~= all_spent(pre) + proof_spent(ps[i as int]) + all_spent(post));
            assert(all_spent(ps.subrange(0, i + 1)) =~= all_spent(pre) + proof_spent(ps[i as int]));
        }
        if proofs[i].status != ProofStatus::Final {
            return Err(ProofError::StateError);
        }
        let points = match proofs[i].spending_utxos() {
            Ok(v) => v,
            Err(e) => {
                proof {
                    if e == ProofError::DuplicateError {
                        let own = proof_spent(ps[i as int]);
                        let pre = all_spent(ps.subrange(0, i as int));
                        let whole = all_spent(ps);
                        let (a, b) = choose|a: int, b: int| 0 <= a < b < own.len() && own[a] == own[b];
                        assert(whole[pre.len() + a] == own[a]);
                        assert(whole[pre.len() + b] == own[b]);
                    }
                }
                return Err(e);
            },
        };
        let ghost own = proof_spent(ps[i as int]);
        let mut k: usize = 0;
        while k < points.len()
            invariant
                ps == proofs_view(proofs@),
                0 <= i < proofs.len(),
                0 <= k <= points.len(),
                points_view(points@) == own,
                no_duplicates(own),
                own == proof_spent(ps[i as int]),
                points_view(seen@) == all_spent(ps.subrange(0, i as int)) + own.subrange(0, k as int),
                no_duplicates(points_view(seen@)),
                all_spent(ps) == all_spent(ps.subrange(0, i as int)) + own + all_spent(ps.subrange(i + 1, ps.len() as int)),
                all_spent(ps.subrange(0, i + 1)) == all_spent(ps.subrange(0, i as int)) + own,
                forall|j: int| 0 <= j < i + 1 ==> {
                    &&& (#[trigger] ps[j]).status == ProofStatus::Final
                    &&& ps[j].proof_tx matches Some(b)
                    &&& tx_decoding(b) is Some
                },
            decreases points.len() - k,
        {
            let p = &points[k];
            assert(own[k as int] == p@);
            let mut m: usize = 0;
            while m < seen.len()
                invariant
                    ps == proofs_view(proofs@),
                    0 <= i < proofs.len(),
                    0 <= k < own.len(),
                    own[k as int] == p@,
                    points_view(seen@) == all_spent(ps.subrange(0, i as int)) + own.subrange(0, k as int),
                    all_spent(ps) == all_spent(ps.subrange(0, i as int)) + own + all_spent(ps.subrange(i + 1, ps.len() as int)),
                    0 <= m <= seen.len(),
                    forall|j: int| 0 <= j < m ==> (#[trigger] seen@[j])@ != p@,
                decreases seen.len() - m,
            {
                if seen[m].same_as(p) {
                    proof {
                        let whole = all_spent(ps);
                        let pre = all_spent(ps.subrange(0, i as int));
                        assert(points_view(seen@)[m as int] == seen@[m as int]@);
                        assert(points_view(seen@).len() == seen@.len());
                        if m < pre.len() {
                            assert(whole[m as int] == pre[m as int]);
                        } else {
                            assert(whole[m as int] == own[m - pre.len()]);
                        }
                        assert(whole[pre.len() + k] == own[k as int]);
                        assert(m < pre.len() + k);
                    }
                    return Err(ProofError::DuplicateError);
                }
                m += 1;
            }
            let ghost before = points_view(seen@);
            seen.push(p.copy());
            proof {
                assert(points_view(seen@) =~= before.push(p@));
                assert(own.subrange(0, k + 1) =~= own.subrange(0, k as int).push(own[k as int]));
                assert(all_spent(ps.subrange(0, i as int)) + own.subrange(0, k + 1) =~= before.push(p@));
                assert forall|a: int, b: int| 0 <= a < b < points_view(seen@).len() implies points_view(seen@)[a] != points_view(seen@)[b] by {
                    if b == before.len() {
                        assert(points_view(seen@)[a] == seen@[a]@);
                    }
                }
            }
            k += 1;
        }
        proof {
            assert(own.subrange(0, k as int) =~= own);
        }
        i += 1;
    }
    assert(ps.subrange(0, i as int) =~= ps);
    Ok(seen)
}

proof fn lemma_verified_total_prefix(ps: Seq<ProofView>, c: Seq<char>, pvs: Seq<Seq<TxOutView>>, i: int)
    requires
        0 <= i <= ps.len(),
    ensures
        verified_total(ps.subrange(0, i), c, pvs) <= verified_total(ps, c, pvs),
    decreases ps.len(),
{
    if i == ps.len() {
        assert(ps.subrange(0, i) =~= ps);
    } else {
        lemma_verified_total_prefix(ps.drop_last(), c, pvs, i);
        assert(ps.drop_last().subrange(0, i) =~= ps.subrange(0, i));
    }
}

proof fn lemma_retain_wf(utxos: Seq<UtxoView>, drops: Seq<OutPointView>)
    requires
        forall|i: int| 0 <= i < utxos.len() ==> (#[trigger] utxos[i]).wf(),
    ensures
        forall|i: int| 0 <= i < retain_utxos(utxos, drops).len() ==> (#[trigger] retain_utxos(utxos, drops)[i]).wf(),
    decreases utxos.len(),
{
    if utxos.len() > 0 {
        assert forall|i: int| 0 <= i < utxos.drop_last().len() implies (#[trigger] utxos.drop_last()[i]).wf() by {
            assert(utxos.drop_last()[i] == utxos[i]);
        }
        lemma_retain_wf(utxos.drop_last(), drops);
        assert(utxos[utxos.len() - 1].wf());
        let r = retain_utxos(utxos.drop_last(), drops);
        if !drops.contains(utxos.last().point) {
            assert forall|i: int| 0 <= i < r.push(utxos.last()).len() implies (#[trigger] r.push(utxos.last())[i]).wf() by {
                if i < r.len() {
                    assert(r.push(utxos.last())[i] == r[i]);
                }
            }
        }
    }
}

/// Whether any UTXO spends the outpoint.
pub fn contains_point(utxos: &Vec<UTXO>, p: &OutPoint) -> (r: bool)
    ensures
        r == has_point(utxos_view(utxos@), p@),
{
    let mut i: usize = 0;
    while i < utxos.len()
        invariant
            0 <= i <= utxos.len(),
            forall|j: int| 0 <= j < i ==> (#[trigger] utxos@[j])@.point != p@,
        decreases utxos.len() - i,
    {
        if utxos[i].point.same_as(p) {
            assert(utxos_view(utxos@)[i as int].point == p@);
            return true;
        }
        i += 1;
    }
    assert forall|j: int| 0 <= j < utxos_view(utxos@).len() implies #[trigger] utxos_view(utxos@)[j].point != p@ by {
        assert(utxos_view(utxos@)[j] == utxos@[j]@);
    }
    false
}

/// Whether the outpoint is among `points`.
pub fn contains_outpoint(points: &Vec<OutPoint>, p: &OutPoint) -> (r: bool)
    ensures
        r == points_view(points@).contains(p@),
{
    let mut i: usize = 0;
    while i < points.len()
        invariant
            0 <= i <= points.len(),
            forall|j: int| 0 <= j < i ==> (#[trigger] points@[j])@ != p@,
        decreases points.len() - i,
    {
        if points[i].same_as(p) {
            assert(points_view(points@)[i as int] == p@);
            return true;
        }
        i += 1;
    }
    assert forall|j: int| 0 <= j < points_view(points@).len() implies #[trigger] points_view(points@)[j] != p@ by {
        assert(points_view(points@)[j] == points@[j]@);
    }
    false
}

/// Whether a transaction's txids all have the right length.
pub fn tx_is_wf(tx: &Transaction) -> (r: bool)
    ensures
        r == tx@.wf(),
{
    let mut i: usize = 0;
    while i < tx.input.len()
        invariant
            0 <= i <= tx.input.len(),
            forall|j: int| 0 <= j < i ==> #[trigger] tx@.input[j].previous_output.txid.len() == TXID_LEN,
        decreases tx.input.len() - i,
    {
        if tx.input[i].previous_output.txid.len() != TXID_LEN {
            assert(tx@.input[i as int].previous_output.txid.len() != TXID_LEN);
            return false;
        }
        i += 1;
    }
    true
}

/// Finishes signing a proof with the transaction a signing backend returned: clears the
/// script signature of the challenge input, stores the transaction and makes the proof final.
pub fn sign_proof(proof: &mut Proof, signed: Transaction) -> (r: Result<(), ProofError>)
    ensures
        old(proof)@.status != ProofStatus::Signing ==> r == Err::<(), ProofError>(ProofError::StateError),
        old(proof)@.status == ProofStatus::Signing ==> (r is Ok <==> signed@.input.len() > 0 && signed@.wf()),
        r is Err ==> final(proof)@ == old(proof)@,
        r is Err ==> r == Err::<(), ProofError>(ProofError::StateError) || r == Err::<(), ProofError>(ProofError::Malformed),
        r is Ok ==> final(proof)@ == (ProofView {
            status: ProofStatus::Final,
            proof_tx: Some(tx_encoding(strip_challenge_sig(signed@))),
            ..old(proof)@
        }),
{
    if proof.status != ProofStatus::Signing {
        return Err(ProofError::StateError);
    }
    if signed.input.len() == 0 || !tx_is_wf(&signed) {
        return Err(ProofError::Malformed);
    }
    let mut tx = signed;
    let ghost before = tx@;
    tx.input[0].script_sig = Vec::new();
    assert(tx@.input =~= strip_challenge_sig(before).input);
    assert(tx@ == strip_challenge_sig(before));
    let raw = encode_tx(&tx);
    proof.proof_tx = Some(raw);
    proof.status = ProofStatus::Final;
    Ok(())
}

impl ProofFile {
    /// An empty proof file for a network; its version is still unset.
    pub fn new(network: Network) -> (r: ProofFile)
        ensures
            r@.version == 0,
            r@.network == network,
            r@.challenge.len() == 0,
            r@.block_number == 0,
            r@.proofs.len() == 0,
    {
        ProofFile { version: 0, network, challenge: String::new(), block_number: 0, proofs: Vec::new() }
    }

    /// Removes and returns the last proof with the given id.
    pub fn take_proof(&mut self, id: &str) -> (r: Option<Proof>)
        ensures
            match find_last(old(self)@.proofs, id@) {
                Some(k) => r matches Some(p) && p@ == old(self)@.proofs[k] && final(self)@ == (
                ProofFileView { proofs: old(self)@.proofs.remove(k), ..old(self)@ }),
                None => r is None && final(self)@ == old(self)@,
            },
    {
        let ghost proofs = self@.proofs;
        let mut i: usize = self.proofs.len();
        while i > 0
            invariant
                self@ == old(self)@,
                proofs == self@.proofs,
                0 <= i <= self.proofs.len(),
                forall|j: int| i <= j < proofs.len() ==> #[trigger] proofs[j].id != id@,
            decreases i,
        {
            i -= 1;
            if str_equal(self.proofs[i].id.as_str(), id) {
                proof {
                    lemma_find_last_suffix(proofs, id@, i + 1);
                    assert(proofs.subrange(0, i + 1).drop_last() =~= proofs.subrange(0, i as int));
                }
                let p = self.proofs.remove(i);
                assert(proofs_view(self.proofs@) =~= proofs.remove(i as int));
                return Some(p);
            }
        }
        proof {
            lemma_find_last_suffix(proofs, id@, 0);
        }
        None
    }

    /// Index of the last proof with the given id.
    pub fn find_proof(&self, id: &str) -> (r: Option<usize>)
        ensures
            match r {
                Some(k) => find_last(self@.proofs, id@) == Some(k as int),
                None => find_last(self@.proofs, id@) is None,
            },
            r matches Some(k) ==> k < self.proofs@.len() && self@.proofs[k as int].id == id@,
            find_last(self@.proofs, id@) matches Some(k) ==> 0 <= k < self@.proofs.len(),
    {
        proof {
            lemma_find_last(self@.proofs, id@);
        }
        let ghost proofs = self@.proofs;
        let mut i: usize = self.proofs.len();
        while i > 0
            invariant
                proofs == self@.proofs,
                0 <= i <= self.proofs.len(),
                forall|j: int| i <= j < proofs.len() ==> #[trigger] proofs[j].id != id@,
            decreases i,
        {
            i -= 1;
            if str_equal(self.proofs[i].id.as_str(), id) {
                proof {
                    lemma_find_last_suffix(proofs, id@, i + 1);
                    assert(proofs.subrange(0, i + 1).drop_last() =~= proofs.subrange(0, i as int));
                }
                return Some(i);
            }
        }
        proof {
            lemma_find_last_suffix(proofs, id@, 0);
        }
        None
    }

    /// Verifies every proof of the file, each against the previous outputs of its inputs
    /// (`prevouts[i]` for proof `i`): all proofs are final, no outpoint besides the challenge
    /// inputs is spent twice across the file, the network is a Bitcoin one, and each proof
    /// verifies. Returns the total amount proven; a proof that fails is named by its index.
    pub fn verify_file(&self, prevouts: &Vec<Vec<TxOut>>) -> (r: Result<u64, VerifyFailure>)
        requires
            forall|i: int| 0 <= i < self.proofs@.len() ==> ((#[trigger] self@.proofs[i]).proof_tx matches Some(b) ==> b.len() <= u32::MAX),
            forall|i: int, j: int| 0 <= i < prevouts@.len() && 0 <= j < prevouts@[i]@.len() ==> (#[trigger] prevouts@[i]@[j]).script_pubkey@.len() <= u32::MAX,
            forall|i: int| 0 <= i < prevouts@.len() ==> (#[trigger] prevouts@[i])@.len() < u32::MAX,
        ensures
            all_final(self@.proofs) && !no_duplicates(all_spent(self@.proofs)) ==> r == Err::<u64, VerifyFailure>(
                VerifyFailure::File(ProofError::DuplicateError),
            ),
            r matches Err(VerifyFailure::Proof { index, error }) ==> {
                &&& index < self@.proofs.len() == prevouts@.len()
                &&& verified_amount(self@.proofs[index as int], self@.challenge, prevouts_view(prevouts@)[index as int]) is None
                &&& forall|j: int| 0 <= j < index ==> (#[trigger] verified_amount(self@.proofs[j], self@.challenge, prevouts_view(prevouts@)[j])) is Some
            },
            r matches Ok(t) ==> {
                &&& all_final(self@.proofs)
                &&& no_duplicates(all_spent(self@.proofs))
                &&& verifiable_network(self@.network)
                &&& prevouts@.len() == self@.proofs.len()
                &&& forall|i: int| 0 <= i < self@.proofs.len() ==> (#[trigger] verified_amount(self@.proofs[i], self@.challenge, prevouts_view(prevouts@)[i])) is Some
                &&& t == verified_total(self@.proofs, self@.challenge, prevouts_view(prevouts@))
            },
            ({
                &&& all_final(self@.proofs)
                &&& no_duplicates(all_spent(self@.proofs))
                &&& verifiable_network(self@.network)
                &&& prevouts@.len() == self@.proofs.len()
                &&& forall|i: int| 0 <= i < self@.proofs.len() ==> (#[trigger] verified_amount(self@.proofs[i], self@.challenge, prevouts_view(prevouts@)[i])) is Some
                &&& verified_total(self@.proofs, self@.challenge, prevouts_view(prevouts@)) <= u64::MAX
            }) ==> r is Ok,
    {
        let ghost ps = self@.proofs;
        let ghost pvs = prevouts_view(prevouts@);
        match check_unique_spends(&self.proofs) {
            Ok(_) => {},
            Err(e) => {
                return Err(VerifyFailure::File(e));
            },
        }
        if !(self.network == Network::BitcoinMainnet || self.network == Network::BitcoinTestnet) {
            return Err(VerifyFailure::File(ProofError::UnsupportedNetwork));
        }
        if prevouts.len() != self.proofs.len() {
            return Err(VerifyFailure::File(ProofError::Malformed));
        }
        let mut total: u64 = 0;
        let mut i: usize = 0;
        while i < self.proofs.len()
            invariant
                ps == self@.proofs,
                all_final(ps),
                no_duplicates(all_spent(ps)),
                pvs == prevouts_view(prevouts@),
                prevouts@.len() == ps.len(),
                0 <= i <= ps.len(),
                forall|i: int| 0 <= i < self.proofs@.len() ==> ((#[trigger] self@.proofs[i]).proof_tx matches Some(b) ==> b.len() <= u32::MAX),
                forall|i: int, j: int| 0 <= i < prevouts@.len() && 0 <= j < prevouts@[i]@.len() ==> (#[trigger] prevouts@[i]@[j]).script_pubkey@.len() <= u32::MAX,
                forall|i: int| 0 <= i < prevouts@.len() ==> (#[trigger] prevouts@[i])@.len() < u32::MAX,
                forall|j: int| 0 <= j < i ==> (#[trigger] verified_amount(ps[j], self@.challenge, pvs[j])) is Some,
                total == verified_total(ps.subrange(0, i as int), self@.challenge, pvs),
            decreases ps.len() - i,
        {
            assert(ps[i as int] == self.proofs@[i as int]@);
            assert(pvs[i as int] == outputs_view(prevouts@[i as int]@));
            let amount = match self.proofs[i].verify(self.challenge.as_str(), &prevouts[i]) {
                Ok(v) => v,
                Err(e) => {
                    return Err(VerifyFailure::Proof { index: i, error: e });
                },
            };
            proof {
                assert(ps.subrange(0, i + 1).drop_last() =~= ps.subrange(0, i as int));
            }
            match total.checked_add(amount) {
                Some(t) => {
                    total = t;
                },
                None => {
                    proof {
                        lemma_verified_total_prefix(ps, self@.challenge, pvs, i + 1);
                    }
                    return Err(VerifyFailure::File(ProofError::AmountError));
                },
            }
            i += 1;
        }
        assert(ps.subrange(0, i as int) =~= ps);
        Ok(total)
    }

    /// Adds a UTXO to the proof with the given id, or to a new proof gathering UTXOs when there
    /// is none; the proof is then placed first. The proof must still be gathering UTXOs and
    /// must not spend the outpoint already.
    pub fn add_utxo(&mut self, id: &str, utxo: UTXO) -> (r: Result<(), ProofError>)
        requires
            old(self)@.wf(),
            utxo@.wf(),
        ensures
            match find_last(old(self)@.proofs, id@) {
                None => r is Ok && final(self)@ == (ProofFileView {
                    proofs: seq![ProofView {
                        id: id@,
                        status: ProofStatus::GatheringUtxos,
                        proof_tx: None,
                        utxos: seq![utxo@],
                        psbt: None,
                    }] + old(self)@.proofs,
                    ..old(self)@
                }),
                Some(k) => if old(self)@.proofs[k].status != ProofStatus::GatheringUtxos {
                    r == Err::<(), ProofError>(ProofError::StateError) && final(self)@ == old(self)@
                } else if has_point(old(self)@.proofs[k].utxos, utxo@.point) {
                    r == Err::<(), ProofError>(ProofError::DuplicateError) && final(self)@ == old(self)@
                } else {
                    r is Ok && final(self)@ == (ProofFileView {
                        proofs: seq![ProofView { utxos: old(self)@.proofs[k].utxos.push(utxo@), ..old(self)@.proofs[k] }]
                            + old(self)@.proofs.remove(k),
                        ..old(self)@
                    })
                },
            },
            final(self)@.wf(),
    {
        match self.find_proof(id) {
            None => {
                let mut p = Proof::new(id.to_owned(), ProofStatus::GatheringUtxos);
                p.utxos.push(utxo);
                assert(p@.utxos =~= seq![utxo@]);
                let ghost before = self@.proofs;
                self.proofs.insert(0, p);
                assert(proofs_view(self.proofs@) =~= seq![p@] + before);
                Ok(())
            },
            Some(k) => {
                assert(self@.proofs[k as int] == self.proofs@[k as int]@);
                assert(find_last(self@.proofs, id@) == Some(k as int));
                if self.proofs[k].status != ProofStatus::GatheringUtxos {
                    assert(self@.proofs[k as int].status != ProofStatus::GatheringUtxos);
                    return Err(ProofError::StateError);
                }
                assert(self@.proofs[k as int].utxos == utxos_view(self.proofs@[k as int].utxos@));
                if contains_point(&self.proofs[k].utxos, &utxo.point) {
                    return Err(ProofError::DuplicateError);
                }
                let ghost before = self@.proofs;
                let mut p = self.proofs.remove(k);
                assert(proofs_view(self.proofs@) =~= before.remove(k as int));
                let ghost pv = p@;
                p.utxos.push(utxo);
                assert(p@.utxos =~= pv.utxos.push(utxo@));
                self.proofs.insert(0, p);
                assert(proofs_view(self.proofs@) =~= seq![p@] + before.remove(k as int));
                Ok(())
            },
        }
    }

    /// Removes from the proof with the given id the UTXOs that spend any of `drops`, and places
    /// the proof first. Returns how many were removed.
    pub fn drop_utxos(&mut self, id: &str, drops: &Vec<OutPoint>) -> (r: Result<usize, ProofError>)
        requires
            old(self)@.wf(),
        ensures
            match find_last(old(self)@.proofs, id@) {
                None => r == Err::<usize, ProofError>(ProofError::NotFound) && final(self)@ == old(self)@,
                Some(k) => if old(self)@.proofs[k].status != ProofStatus::GatheringUtxos {
                    r == Err::<usize, ProofError>(ProofError::StateError) && final(self)@ == old(self)@
                } else {
                    let kept = retain_utxos(old(self)@.proofs[k].utxos, points_view(drops@));
                    &&& r == Ok::<usize, ProofError>((old(self)@.proofs[k].utxos.len() - kept.len()) as usize)
                    &&& final(self)@ == (ProofFileView {
                        proofs: seq![ProofView { utxos: kept, ..old(self)@.proofs[k] }] + old(self)@.proofs.remove(k),
                        ..old(self)@
                    })
                },
            },
            final(self)@.wf(),
    {
        let k = match self.find_proof(id) {
            None => {
                return Err(ProofError::NotFound);
            },
            Some(k) => k,
        };
        if self.proofs[k].status != ProofStatus::GatheringUtxos {
            return Err(ProofError::StateError);
        }
        let ghost before = self@.proofs;
        let mut p = self.proofs.remove(k);
        assert(proofs_view(self.proofs@) =~= before.remove(k as int));
        let ghost pv = p@;
        let ghost dv = points_view(drops@);
        let mut kept: Vec<UTXO> = Vec::new();
        let mut i: usize = 0;
        while i < p.utxos.len()
            invariant
                p@ == pv,
                pv.wf(),
                dv == points_view(drops@),
                0 <= i <= pv.utxos.len(),
                utxos_view(kept@) == retain_utxos(pv.utxos.subrange(0, i as int), dv),
                kept@.len() <= i,
            decreases pv.utxos.len() - i,
        {
            assert(pv.utxos.subrange(0, i + 1).drop_last() =~= pv.utxos.subrange(0, i as int));
            assert(pv.utxos[i as int] == p.utxos@[i as int]@);
            if !contains_outpoint(drops, &p.utxos[i].point) {
                let ghost kv = utxos_view(kept@);
                kept.push(p.utxos[i].copy());
                assert(utxos_view(kept@) =~= kv.push(pv.utxos[i as int]));
            }
            i += 1;
        }
        assert(pv.utxos.subrange(0, i as int) =~= pv.utxos);
        let dropped = p.utxos.len() - kept.len();
        p.utxos = kept;
        proof {
            lemma_retain_wf(pv.utxos, dv);
        }
        self.proofs.insert(0, p);
        assert(proofs_view(self.proofs@) =~= seq![p@] + before.remove(k as int));
        Ok(dropped)
    }

    /// Removes every proof with the given id. Returns how many were removed.
    pub fn drop_proofs(&mut self, id: &str) -> (r: usize)
        requires
            old(self)@.wf(),
        ensures
            final(self)@ == (ProofFileView { proofs: without_id(old(self)@.proofs, id@), ..old(self)@ }),
            r == old(self)@.proofs.len() - final(self)@.proofs.len(),
            final(self)@.wf(),
    {
        let ghost all = self@.proofs;
        let mut kept: Vec<Proof> = Vec::new();
        let mut n: usize = 0;
        let total = self.proofs.len();
        while self.proofs.len() > 0
            invariant
                0 <= n <= all.len(),
                total == all.len(),
                forall|j: int| 0 <= j < all.len() ==> (#[trigger] all[j]).wf(),
                proofs_view(self.proofs@) == all.subrange(n as int, all.len() as int),
                self.proofs@.len() + n == all.len(),
                self@.version == old(self)@.version,
                self@.network == old(self)@.network,
                self@.challenge == old(self)@.challenge,
                self@.block_number == old(self)@.block_number,
                proofs_view(kept@) == without_id(all.subrange(0, n as int), id@),
                kept@.len() <= n,
                forall|j: int| 0 <= j < kept@.len() ==> (#[trigger] kept@[j])@.wf(),
            decreases all.len() - n,
        {
            let ghost rest = proofs_view(self.proofs@);
            let ghost old_vec = self.proofs@;
            let p = self.proofs.remove(0);
            assert(rest[0] == p@);
            assert(self.proofs@ =~= old_vec.subrange(1, old_vec.len() as int));
            assert(proofs_view(self.proofs@) =~= rest.subrange(1, rest.len() as int));
            assert(proofs_view(self.proofs@) =~= all.subrange(n + 1, all.len() as int));
            assert(all.subrange(0, n + 1).drop_last() =~= all.subrange(0, n as int));
            assert(all[n as int] == p@);
            if !str_equal(p.id.as_str(), id) {
                let ghost kv = proofs_view(kept@);
                kept.push(p);
                assert(proofs_view(kept@) =~= kv.push(all[n as int]));
            }
            n += 1;
        }
        assert(all.subrange(0, n as int) =~= all);
        self.proofs = kept;
        total - self.proofs.len()
    }

    /// Takes the proof with the given id out of the file to be signed, moving it from
    /// gathering UTXOs to signing when needed. A proof that is already final, or whose status
    /// is undefined, stays where it is.
    pub fn take_for_signing(&mut self, id: &str) -> (r: Result<Proof, ProofError>)
        requires
            old(self)@.wf(),
        ensures
            find_last(old(self)@.proofs, id@) is None ==> r == Err::<Proof, ProofError>(ProofError::NotFound),
            find_last(old(self)@.proofs, id@) matches Some(k) ==> {
                let p = old(self)@.proofs[k];
                &&& p.status == ProofStatus::Final ==> r == Err::<Proof, ProofError>(ProofError::StateError)
                &&& p.status == ProofStatus::Undefined ==> r == Err::<Proof, ProofError>(ProofError::DecodeError)
                &&& p.status == ProofStatus::Signing ==> (r matches Ok(q) && q@ == p)
                &&& p.status == ProofStatus::GatheringUtxos && all_priced(p.utxos) && utxo_total(p.utxos) <= u64::MAX
                    && signing_fits(old(self)@.challenge, p.utxos) ==> r is Ok
                &&& p.status == ProofStatus::GatheringUtxos && r is Ok ==> r->Ok_0@.status == ProofStatus::Signing
                    && r->Ok_0@.id == p.id && r->Ok_0@.utxos == p.utxos && r->Ok_0@.psbt is Some
                &&& p.status == ProofStatus::GatheringUtxos && r is Ok && signing_fits(old(self)@.challenge, p.utxos)
                    && inputs_small(p.utxos) && all_reencode(p.utxos)
                    ==> psbt_decoding(r->Ok_0@.psbt->Some_0) == Some(signing_psbt(old(self)@.challenge, p.utxos, utxo_total(p.utxos) as u64))
                &&& r is Ok ==> final(self)@ == (ProofFileView { proofs: old(self)@.proofs.remove(k), ..old(self)@ })
            },
            r is Err ==> final(self)@ == old(self)@,
            final(self)@.wf(),
    {
        let k = match self.find_proof(id) {
            None => {
                return Err(ProofError::NotFound);
            },
            Some(k) => k,
        };
        assert(self@.proofs[k as int] == self.proofs@[k as int]@);
        if self.proofs[k].status == ProofStatus::Final {
            return Err(ProofError::StateError);
        }
        if self.proofs[k].status == ProofStatus::Undefined {
            return Err(ProofError::DecodeError);
        }
        let ghost before = self@.proofs;
        let mut p = self.proofs.remove(k);
        assert(proofs_view(self.proofs@) =~= before.remove(k as int));
        if p.status == ProofStatus::GatheringUtxos {
            assert(p@.wf());
            match p.start_signing(self.challenge.as_str()) {
                Ok(_) => {},
                Err(e) => {
                    self.proofs.insert(k, p);
                    assert(proofs_view(self.proofs@) =~= before);
                    return Err(e);
                },
            }
        }
        Ok(p)
    }

    /// Puts a proof first in the file.
    pub fn put_first(&mut self, p: Proof)
        ensures
            final(self)@ == (ProofFileView { proofs: seq![p@] + old(self)@.proofs, ..old(self)@ }),
    {
        let ghost before = self@.proofs;
        self.proofs.insert(0, p);
        assert(proofs_view(self.proofs@) =~= seq![p@] + before);
    }

    /// Adds to the proof with the given id (a new proof gathering UTXOs when there is none)
    /// the fetched UTXOs whose outpoint it does not spend yet, in order, and places the proof
    /// first. Returns how many were added.
    pub fn add_fetched_utxos(&mut self, id: &str, utxos: Vec<UTXO>) -> (r: Result<usize, ProofError>)
        requires
            old(self)@.wf(),
            forall|i: int| 0 <= i < utxos@.len() ==> (#[trigger] utxos@[i])@.wf(),
        ensures
            match find_last(old(self)@.proofs, id@) {
                None => r matches Ok(n) && n == merge_utxos(Seq::empty(), utxos_view(utxos@)).len() && final(self)@ == (ProofFileView {
                    proofs: seq![ProofView {
                        id: id@,
                        status: ProofStatus::GatheringUtxos,
                        proof_tx: None,
                        utxos: merge_utxos(Seq::empty(), utxos_view(utxos@)),
                        psbt: None,
                    }] + old(self)@.proofs,
                    ..old(self)@
                }),
                Some(k) => if old(self)@.proofs[k].status != ProofStatus::GatheringUtxos {
                    r == Err::<usize, ProofError>(ProofError::StateError) && final(self)@ == old(self)@
                } else {
                    let merged = merge_utxos(old(self)@.proofs[k].utxos, utxos_view(utxos@));
                    &&& r == Ok::<usize, ProofError>((merged.len() - old(self)@.proofs[k].utxos.len()) as usize)
                    &&& final(self)@ == (ProofFileView {
                        proofs: seq![ProofView { utxos: merged, ..old(self)@.proofs[k] }] + old(self)@.proofs.remove(k),
                        ..old(self)@
                    })
                },
            },
            final(self)@.wf(),
    {
        let ghost before = self@.proofs;
        let mut p = match self.find_proof(id) {
            None => {
                let q = Proof::new(id.to_owned(), ProofStatus::GatheringUtxos);
                assert(q@.utxos =~= Seq::<UtxoView>::empty());
                q
            },
            Some(k) => {
                assert(self@.proofs[k as int] == self.proofs@[k as int]@);
                if self.proofs[k].status != ProofStatus::GatheringUtxos {
                    return Err(ProofError::StateError);
                }
                let q = self.proofs.remove(k);
                assert(proofs_view(self.proofs@) =~= before.remove(k as int));
                q
            },
        };
        let ghost start = p@;
        let start_len = p.utxos.len();
        assert(start.utxos.len() == start_len);
        let ghost incoming = utxos_view(utxos@);
        let mut i: usize = 0;
        while i < utxos.len()
            invariant
                incoming == utxos_view(utxos@),
                forall|j: int| 0 <= j < utxos@.len() ==> (#[trigger] utxos@[j])@.wf(),
                0 <= i <= utxos@.len(),
                p@ == (ProofView { utxos: merge_utxos(start.utxos, incoming.subrange(0, i as int)), ..start }),
                p@.wf(),
                p.utxos@.len() >= start_len,
                start.utxos.len() == start_len,
            decreases utxos@.len() - i,
        {
            assert(incoming.subrange(0, i + 1).drop_last() =~= incoming.subrange(0, i as int));
            assert(incoming[i as int] == utxos@[i as int]@);
            if !contains_point(&p.utxos, &utxos[i].point) {
                let ghost pu = p@.utxos;
                p.utxos.push(utxos[i].copy());
                assert(p@.utxos =~= pu.push(incoming[i as int]));
            }
            i += 1;
        }
        assert(incoming.subrange(0, i as int) =~= incoming);
        let added = p.utxos.len() - start_len;
        let ghost mid = self@.proofs;
        self.proofs.insert(0, p);
        assert(proofs_view(self.proofs@) =~= seq![p@] + mid);
        Ok(added)
    }

    /// Imports a signed proof transaction as a new final proof, placed first. It must have at
    /// least two inputs, the first being exactly the challenge input of this file, and no proof
    /// may have the id yet.
    pub fn add_proof(&mut self, id: &str, raw_tx: Vec<u8>) -> (r: Result<(), ProofError>)
        ensures
            find_last(old(self)@.proofs, id@) is Some ==> r == Err::<(), ProofError>(ProofError::DuplicateError),
            find_last(old(self)@.proofs, id@) is None ==> match tx_decoding(raw_tx@) {
                None => r == Err::<(), ProofError>(ProofError::DecodeError),
                Some(tx) => if tx.input.len() < 2 {
                    r == Err::<(), ProofError>(ProofError::Malformed)
                } else if tx.input[0] != spec_challenge_txin(old(self)@.challenge) {
                    r == Err::<(), ProofError>(ProofError::ChallengeMismatch)
                } else {
                    r is Ok
                },
            },
            r is Err ==> final(self)@ == old(self)@,
            r is Ok ==> final(self)@ == (ProofFileView {
                proofs: seq![ProofView {
                    id: id@,
                    status: ProofStatus::Final,
                    proof_tx: Some(raw_tx@),
                    utxos: Seq::empty(),
                    psbt: None,
                }] + old(self)@.proofs,
                ..old(self)@
            }),
    {
        if self.find_proof(id).is_some() {
            return Err(ProofError::DuplicateError);
        }
        let tx = match decode_tx(raw_tx.as_slice()) {
            Some(t) => t,
            None => {
                return Err(ProofError::DecodeError);
            },
        };
        if tx.input.len() < 2 {
            return Err(ProofError::Malformed);
        }
        let expected = challenge_txin(self.challenge.as_str());
        if !tx.input[0].same_as(&expected) {
            return Err(ProofError::ChallengeMismatch);
        }
        let mut proof = Proof::new(id.to_owned(), ProofStatus::Final);
        proof.proof_tx = Some(raw_tx);
        assert(proof@.utxos =~= Seq::<UtxoView>::empty());
        let ghost before = self@.proofs;
        self.proofs.insert(0, proof);
        assert(proofs_view(self.proofs@) =~= seq![proof@] + before);
        Ok(())
    }
}

} // verus!
