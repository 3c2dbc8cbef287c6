//! The proof file on disk. A file is a message of version (1), network (2), challenge (3),
//! block number (4) and proofs (5, repeated); a proof is a message of id (1), status (2),
//! proof transaction (3), UTXOs (4, repeated) and PSBT (5); a UTXO is a message of txid (1),
//! vout (2), PSBT input (3), block number (4) and block hash (5). Fields holding zero or an
//! empty string are left out; absent fields read as zero or empty.
use vstd::prelude::*;
use vstd::utf8::{decode_utf8, encode_utf8, valid_utf8};

use crate::bindings::{
    decode_psbt_input, decode_tx, psbt_decodes, psbt_decoding, psbt_input_decoding, tx_decoding,
    utf8_string,
};
use crate::proof_file::{Network, ProofFile, ProofFileView, PROOF_FILE_VERSION};
use crate::proofs::{Proof, ProofError, ProofStatus, ProofView, UtxoView, UTXO};
use crate::transaction::{OutPoint, OutPointView, TXID_LEN};
use crate::wire::{
    copy_range, field_ok, fields_view, lemma_serialize_round_trip, parse_fields, read_fields,
    serialize, write_fields, Field, FieldValue, FieldValueView, FieldView,
};

verus! {

pub open spec fn bytes_field(number: u64, b: Seq<u8>) -> Seq<FieldView> {
    if b.len() == 0 {
        Seq::empty()
    } else {
        seq![FieldView { number, value: FieldValueView::Bytes(b) }]
    }
}

pub open spec fn uint_field(number: u64, v: u64) -> Seq<FieldView> {
    if v == 0 {
        Seq::empty()
    } else {
        seq![FieldView { number, value: FieldValueView::Varint(v) }]
    }
}

pub open spec fn opt_bytes_field(number: u64, o: Option<Seq<u8>>) -> Seq<FieldView> {
    match o {
        Some(b) => bytes_field(number, b),
        None => Seq::empty(),
    }
}

/// An empty byte string reads as absent.
pub open spec fn nonempty(b: Seq<u8>) -> Option<Seq<u8>> {
    if b.len() == 0 {
        None
    } else {
        Some(b)
    }
}

// ---- UTXO ----

pub open spec fn utxo_fields(u: UtxoView) -> Seq<FieldView> {
    bytes_field(1, u.point.txid) + uint_field(2, u.point.vout as u64) + bytes_field(3, u.psbt_input)
        + uint_field(4, u.block_number as u64) + opt_bytes_field(5, u.block_hash)
}

pub open spec fn utxo_encoding(u: UtxoView) -> Seq<u8> {
    serialize(utxo_fields(u))
}

pub open spec fn empty_utxo() -> UtxoView {
    UtxoView {
        point: OutPointView { txid: Seq::empty(), vout: 0 },
        psbt_input: Seq::empty(),
        block_number: 0,
        block_hash: None,
    }
}

pub open spec fn apply_utxo_field(u: UtxoView, f: FieldView) -> Option<UtxoView> {
    if f.number == 1 {
        match f.value {
            FieldValueView::Bytes(b) => Some(UtxoView { point: OutPointView { txid: b, vout: u.point.vout }, ..u }),
            FieldValueView::Varint(_) => None,
        }
    } else if f.number == 2 {
        match f.value {
            FieldValueView::Varint(v) => if v <= u32::MAX {
                Some(UtxoView { point: OutPointView { txid: u.point.txid, vout: v as u32 }, ..u })
            } else {
                None
            },
            FieldValueView::Bytes(_) => None,
        }
    } else if f.number == 3 {
        match f.value {
            FieldValueView::Bytes(b) => Some(UtxoView { psbt_input: b, ..u }),
            FieldValueView::Varint(_) => None,
        }
    } else if f.number == 4 {
        match f.value {
            FieldValueView::Varint(v) => if v <= u32::MAX {
                Some(UtxoView { block_number: v as u32, ..u })
            } else {
                None
            },
            FieldValueView::Bytes(_) => None,
        }
    } else if f.number == 5 {
        match f.value {
            FieldValueView::Bytes(b) => Some(UtxoView { block_hash: nonempty(b), ..u }),
            FieldValueView::Varint(_) => None,
        }
    } else {
        Some(u)
    }
}

pub open spec fn apply_utxo_fields(u: UtxoView, fs: Seq<FieldView>) -> Option<UtxoView>
    decreases fs.len(),
{
    if fs.len() == 0 {
        Some(u)
    } else {
        match apply_utxo_field(u, fs[0]) {
            Some(u2) => apply_utxo_fields(u2, fs.drop_first()),
            None => None,
        }
    }
}

/// The UTXO a message holds: it must give a 32-byte txid, a block hash of 32 bytes when it
/// gives one, and a PSBT input that decodes.
pub open spec fn utxo_decoding(b: Seq<u8>) -> Option<UtxoView> {
    match parse_fields(b) {
        Some(fs) => match apply_utxo_fields(empty_utxo(), fs) {
            Some(u) => if u.wf() && psbt_input_decoding(u.psbt_input) is Some {
                Some(u)
            } else {
                None
            },
            None => None,
        },
        None => None,
    }
}

/// Every length the encoding of the UTXO writes fits in 64 bits.
pub open spec fn utxo_fits(u: UtxoView) -> bool {
    &&& u.psbt_input.len() <= u64::MAX
    &&& utxo_encoding(u).len() <= u64::MAX
}

proof fn lemma_utxo_step(s: UtxoView, a: Seq<FieldView>, rest: Seq<FieldView>)
    requires
        a.len() <= 1,
    ensures
        apply_utxo_fields(s, a + rest) == if a.len() == 0 {
            apply_utxo_fields(s, rest)
        } else {
            match apply_utxo_field(s, a[0]) {
                Some(s2) => apply_utxo_fields(s2, rest),
                None => None,
            }
        },
{
    if a.len() == 0 {
        assert(a + rest =~= rest);
    } else {
        assert((a + rest)[0] == a[0]);
        assert((a + rest).drop_first() =~= rest);
    }
}

proof fn lemma_fields_ok_concat(a: Seq<FieldView>, b: Seq<FieldView>)
    requires
        forall|i: int| 0 <= i < a.len() ==> field_ok(#[trigger] a[i]),
        forall|i: int| 0 <= i < b.len() ==> field_ok(#[trigger] b[i]),
    ensures
        forall|i: int| 0 <= i < (a + b).len() ==> field_ok(#[trigger] (a + b)[i]),
{
    assert forall|i: int| 0 <= i < (a + b).len() implies field_ok(#[trigger] (a + b)[i]) by {
        if i < a.len() {
            assert((a + b)[i] == a[i]);
        } else {
            assert((a + b)[i] == b[i - a.len()]);
        }
    }
}

/// A well-formed UTXO reads back from its encoding unchanged.
pub proof fn lemma_utxo_round_trip(u: UtxoView)
    requires
        u.wf(),
        psbt_input_decoding(u.psbt_input) is Some,
        utxo_fits(u),
    ensures
        utxo_decoding(utxo_encoding(u)) == Some(u),
{
    let a1 = bytes_field(1, u.point.txid);
    let a2 = uint_field(2, u.point.vout as u64);
    let a3 = bytes_field(3, u.psbt_input);
    let a4 = uint_field(4, u.block_number as u64);
    let a5 = opt_bytes_field(5, u.block_hash);
    let fs = utxo_fields(u);
    lemma_fields_ok_concat(a1, a2);
    lemma_fields_ok_concat(a1 + a2, a3);
    lemma_fields_ok_concat(a1 + a2 + a3, a4);
    lemma_fields_ok_concat(a1 + a2 + a3 + a4, a5);
    lemma_serialize_round_trip(fs);
    assert(fs =~= a1 + (a2 + (a3 + (a4 + a5))));
    let s0 = empty_utxo();
    lemma_utxo_step(s0, a1, a2 + (a3 + (a4 + a5)));
    let s1 = UtxoView { point: OutPointView { txid: u.point.txid, vout: 0 }, ..s0 };
    lemma_utxo_step(s1, a2, a3 + (a4 + a5));
    let s2 = UtxoView { point: u.point, ..s0 };
    lemma_utxo_step(s2, a3, a4 + a5);
    if u.psbt_input.len() == 0 {
        assert(u.psbt_input =~= Seq::<u8>::empty());
    }
    let s3 = UtxoView { point: u.point, psbt_input: u.psbt_input, ..s0 };
    lemma_utxo_step(s3, a4, a5);
    let s4 = UtxoView { point: u.point, psbt_input: u.psbt_input, block_number: u.block_number, block_hash: None };
    lemma_utxo_step(s4, a5, Seq::empty());
    assert(a5 + Seq::<FieldView>::empty() =~= a5);
    assert(apply_utxo_fields(u, Seq::empty()) == Some(u));
}

// ---- Proof ----

pub open spec fn status_code(s: ProofStatus) -> u64 {
    match s {
        ProofStatus::Undefined => 0,
        ProofStatus::GatheringUtxos => 1,
        ProofStatus::Signing => 2,
        ProofStatus::Final => 3,
    }
}

pub open spec fn status_of(v: u64) -> Option<ProofStatus> {
    if v == 0 {
        Some(ProofStatus::Undefined)
    } else if v == 1 {
        Some(ProofStatus::GatheringUtxos)
    } else if v == 2 {
        Some(ProofStatus::Signing)
    } else if v == 3 {
        Some(ProofStatus::Final)
    } else {
        None
    }
}

pub open spec fn utxo_entries(us: Seq<UtxoView>) -> Seq<FieldView> {
    us.map_values(|u: UtxoView| FieldView { number: 4, value: FieldValueView::Bytes(utxo_encoding(u)) })
}

pub open spec fn proof_fields(p: ProofView) -> Seq<FieldView> {
    bytes_field(1, encode_utf8(p.id)) + uint_field(2, status_code(p.status)) + opt_bytes_field(3, p.proof_tx)
        + utxo_entries(p.utxos) + opt_bytes_field(5, p.psbt)
}

pub open spec fn proof_encoding(p: ProofView) -> Seq<u8> {
    serialize(proof_fields(p))
}

pub open spec fn empty_proof() -> ProofView {
    ProofView { id: Seq::empty(), status: ProofStatus::Undefined, proof_tx: None, utxos: Seq::empty(), psbt: None }
}

pub open spec fn apply_proof_field(p: ProofView, f: FieldView) -> Option<ProofView> {
    if f.number == 1 {
        match f.value {
            FieldValueView::Bytes(b) => if valid_utf8(b) {
                Some(ProofView { id: decode_utf8(b), ..p })
            } else {
                None
            },
            FieldValueView::Varint(_) => None,
        }
    } else if f.number == 2 {
        match f.value {
            FieldValueView::Varint(v) => match status_of(v) {
                Some(st) => Some(ProofView { status: st, ..p }),
                None => None,
            },
            FieldValueView::Bytes(_) => None,
        }
    } else if f.number == 3 {
        match f.value {
            FieldValueView::Bytes(b) => Some(ProofView { proof_tx: nonempty(b), ..p }),
            FieldValueView::Varint(_) => None,
        }
    } else if f.number == 4 {
        match f.value {
            FieldValueView::Bytes(b) => match utxo_decoding(b) {
                Some(u) => Some(ProofView { utxos: p.utxos.push(u), ..p }),
                None => None,
            },
            FieldValueView::Varint(_) => None,
        }
    } else if f.number == 5 {
        match f.value {
            FieldValueView::Bytes(b) => Some(ProofView { psbt: nonempty(b), ..p }),
            FieldValueView::Varint(_) => None,
        }
    } else {
        Some(p)
    }
}

pub open spec fn apply_proof_fields(p: ProofView, fs: Seq<FieldView>) -> Option<ProofView>
    decreases fs.len(),
{
    if fs.len() == 0 {
        Some(p)
    } else {
        match apply_proof_field(p, fs[0]) {
            Some(p2) => apply_proof_fields(p2, fs.drop_first()),
            None => None,
        }
    }
}

/// The serialized data a proof holds decodes: its transaction and its PSBT.
pub open spec fn nested_decode(p: ProofView) -> bool {
    &&& (p.proof_tx matches Some(b) ==> tx_decoding(b) is Some)
    &&& (p.psbt matches Some(b) ==> psbt_decoding(b) is Some)
}

/// The proof a message holds; its transaction and PSBT, when present, must decode.
pub open spec fn proof_decoding(b: Seq<u8>) -> Option<ProofView> {
    match parse_fields(b) {
        Some(fs) => match apply_proof_fields(empty_proof(), fs) {
            Some(p) => if nested_decode(p) {
                Some(p)
            } else {
                None
            },
            None => None,
        },
        None => None,
    }
}

/// A proof as the encoding can carry it: present byte strings are not empty and decode, and
/// every UTXO is well formed with a PSBT input that decodes.
pub open spec fn proof_canonical(p: ProofView) -> bool {
    &&& (p.proof_tx matches Some(b) ==> b.len() > 0)
    &&& (p.psbt matches Some(b) ==> b.len() > 0)
    &&& nested_decode(p)
    &&& forall|i: int| 0 <= i < p.utxos.len() ==> (#[trigger] p.utxos[i]).wf() && psbt_input_decoding(p.utxos[i].psbt_input) is Some
}

/// Every length the encoding of the proof writes fits in 64 bits.
pub open spec fn proof_fits(p: ProofView) -> bool {
    &&& (p.proof_tx matches Some(b) ==> b.len() <= u64::MAX)
    &&& (p.psbt matches Some(b) ==> b.len() <= u64::MAX)
    &&& encode_utf8(p.id).len() <= u64::MAX
    &&& forall|i: int| 0 <= i < p.utxos.len() ==> utxo_fits(#[trigger] p.utxos[i])
    &&& proof_encoding(p).len() <= u64::MAX
}

proof fn lemma_proof_step(s: ProofView, a: Seq<FieldView>, rest: Seq<FieldView>)
    requires
        a.len() <= 1,
    ensures
        apply_proof_fields(s, a + rest) == if a.len() == 0 {
            apply_proof_fields(s, rest)
        } else {
            match apply_proof_field(s, a[0]) {
                Some(s2) => apply_proof_fields(s2, rest),
                None => None,
            }
        },
{
    if a.len() == 0 {
        assert(a + rest =~= rest);
    } else {
        assert((a + rest)[0] == a[0]);
        assert((a + rest).drop_first() =~= rest);
    }
}

proof fn lemma_utxo_entries(s: ProofView, us: Seq<UtxoView>, rest: Seq<FieldView>)
    requires
        forall|i: int| 0 <= i < us.len() ==> (#[trigger] us[i]).wf() && utxo_fits(us[i]) && psbt_input_decoding(us[i].psbt_input) is Some,
    ensures
        apply_proof_fields(s, utxo_entries(us) + rest) == apply_proof_fields(ProofView { utxos: s.utxos + us, ..s }, rest),
    decreases us.len(),
{
    if us.len() == 0 {
        assert(utxo_entries(us) + rest =~= rest);
        assert(s.utxos + us =~= s.utxos);
    } else {
        let u = us[0];
        let tail = us.drop_first();
        assert forall|i: int| 0 <= i < tail.len() implies (#[trigger] tail[i]).wf() && utxo_fits(tail[i]) && psbt_input_decoding(tail[i].psbt_input) is Some by {
            assert(tail[i] == us[i + 1]);
        }
        assert((utxo_entries(us) + rest)[0] == utxo_entries(us)[0]);
        assert((utxo_entries(us) + rest).drop_first() =~= utxo_entries(tail) + rest);
        lemma_utxo_round_trip(u);
        let s2 = ProofView { utxos: s.utxos.push(u), ..s };
        lemma_utxo_entries(s2, tail, rest);
        assert(s2.utxos + tail =~= s.utxos + us);
    }
}

proof fn lemma_entries_ok(us: Seq<UtxoView>)
    requires
        forall|i: int| 0 <= i < us.len() ==> utxo_fits(#[trigger] us[i]),
    ensures
        forall|i: int| 0 <= i < utxo_entries(us).len() ==> field_ok(#[trigger] utxo_entries(us)[i]),
{
    assert forall|i: int| 0 <= i < utxo_entries(us).len() implies field_ok(#[trigger] utxo_entries(us)[i]) by {
        assert(utxo_fits(us[i]));
    }
}

proof fn lemma_empty_string()
    ensures
        encode_utf8(Seq::<char>::empty()) == Seq::<u8>::empty(),
{
    assert(encode_utf8(Seq::<char>::empty()) =~= Seq::<u8>::empty());
}

/// A canonical proof reads back from its encoding unchanged.
pub proof fn lemma_proof_round_trip(p: ProofView)
    requires
        proof_canonical(p),
        proof_fits(p),
    ensures
        proof_decoding(proof_encoding(p)) == Some(p),
{
    let a1 = bytes_field(1, encode_utf8(p.id));
    let a2 = uint_field(2, status_code(p.status));
    let a3 = opt_bytes_field(3, p.proof_tx);
    let a4 = utxo_entries(p.utxos);
    let a5 = opt_bytes_field(5, p.psbt);
    let fs = proof_fields(p);
    lemma_entries_ok(p.utxos);
    lemma_fields_ok_concat(a1, a2);
    lemma_fields_ok_concat(a1 + a2, a3);
    lemma_fields_ok_concat(a1 + a2 + a3, a4);
    lemma_fields_ok_concat(a1 + a2 + a3 + a4, a5);
    lemma_serialize_round_trip(fs);
    assert(fs =~= a1 + (a2 + (a3 + (a4 + a5))));
    let s0 = empty_proof();
    lemma_proof_step(s0, a1, a2 + (a3 + (a4 + a5)));
    vstd::utf8::encode_utf8_valid_utf8(p.id);
    vstd::utf8::encode_utf8_decode_utf8(p.id);
    if encode_utf8(p.id).len() == 0 {
        vstd::utf8::encode_utf8_decode_utf8(p.id);
        lemma_empty_string();
        assert(decode_utf8(Seq::<u8>::empty()) =~= Seq::<char>::empty());
        assert(p.id =~= Seq::<char>::empty());
    }
    let s1 = ProofView { id: p.id, ..s0 };
    lemma_proof_step(s1, a2, a3 + (a4 + a5));
    let s2 = ProofView { id: p.id, status: p.status, ..s0 };
    lemma_proof_step(s2, a3, a4 + a5);
    let s3 = ProofView { id: p.id, status: p.status, proof_tx: p.proof_tx, ..s0 };
    lemma_utxo_entries(s3, p.utxos, a5);
    assert(s3.utxos + p.utxos =~= p.utxos);
    let s4 = ProofView { id: p.id, status: p.status, proof_tx: p.proof_tx, utxos: p.utxos, psbt: None };
    lemma_proof_step(s4, a5, Seq::empty());
    assert(a5 + Seq::<FieldView>::empty() =~= a5);
}

// ---- Proof file ----

pub open spec fn network_code(n: Network) -> u64 {
    match n {
        Network::Undefined => 0,
        Network::BitcoinMainnet => 1,
        Network::BitcoinTestnet => 2,
        Network::Liquid => 3,
    }
}

pub open spec fn network_of(v: u64) -> Option<Network> {
    if v == 0 {
        Some(Network::Undefined)
    } else if v == 1 {
        Some(Network::BitcoinMainnet)
    } else if v == 2 {
        Some(Network::BitcoinTestnet)
    } else if v == 3 {
        Some(Network::Liquid)
    } else {
        None
    }
}

pub open spec fn proof_entries(ps: Seq<ProofView>) -> Seq<FieldView> {
    ps.map_values(|p: ProofView| FieldView { number: 5, value: FieldValueView::Bytes(proof_encoding(p)) })
}

pub open spec fn file_fields(f: ProofFileView) -> Seq<FieldView> {
    uint_field(1, f.version as u64) + uint_field(2, network_code(f.network)) + bytes_field(3, encode_utf8(f.challenge))
        + uint_field(4, f.block_number as u64) + proof_entries(f.proofs)
}

/// The bytes of a proof file.
pub open spec fn file_encoding(f: ProofFileView) -> Seq<u8> {
    serialize(file_fields(f))
}

pub open spec fn empty_file() -> ProofFileView {
    ProofFileView { version: 0, network: Network::Undefined, challenge: Seq::empty(), block_number: 0, proofs: Seq::empty() }
}

pub open spec fn apply_file_field(p: ProofFileView, f: FieldView) -> Option<ProofFileView> {
    if f.number == 1 {
        match f.value {
            FieldValueView::Varint(v) => if v <= u32::MAX {
                Some(ProofFileView { version: v as u32, ..p })
            } else {
                None
            },
            FieldValueView::Bytes(_) => None,
        }
    } else if f.number == 2 {
        match f.value {
            FieldValueView::Varint(v) => match network_of(v) {
                Some(n) => Some(ProofFileView { network: n, ..p }),
                None => None,
            },
            FieldValueView::Bytes(_) => None,
        }
    } else if f.number == 3 {
        match f.value {
            FieldValueView::Bytes(b) => if valid_utf8(b) {
                Some(ProofFileView { challenge: decode_utf8(b), ..p })
            } else {
                None
            },
            FieldValueView::Varint(_) => None,
        }
    } else if f.number == 4 {
        match f.value {
            FieldValueView::Varint(v) => if v <= u32::MAX {
                Some(ProofFileView { block_number: v as u32, ..p })
            } else {
                None
            },
            FieldValueView::Bytes(_) => None,
        }
    } else if f.number == 5 {
        match f.value {
            FieldValueView::Bytes(b) => match proof_decoding(b) {
                Some(q) => Some(ProofFileView { proofs: p.proofs.push(q), ..p }),
                None => None,
            },
            FieldValueView::Varint(_) => None,
        }
    } else {
        Some(p)
    }
}

pub open spec fn apply_file_fields(p: ProofFileView, fs: Seq<FieldView>) -> Option<ProofFileView>
    decreases fs.len(),
{
    if fs.len() == 0 {
        Some(p)
    } else {
        match apply_file_field(p, fs[0]) {
            Some(p2) => apply_file_fields(p2, fs.drop_first()),
            None => None,
        }
    }
}

/// What loading a proof file gives: the file, or why it cannot be loaded.
pub open spec fn file_decoding(b: Seq<u8>) -> Result<ProofFileView, ProofError> {
    match parse_fields(b) {
        Some(fs) => match apply_file_fields(empty_file(), fs) {
            Some(f) => if f.version != PROOF_FILE_VERSION {
                Err(ProofError::VersionError)
            } else {
                Ok(f)
            },
            None => Err(ProofError::DecodeError),
        },
        None => Err(ProofError::DecodeError),
    }
}

pub open spec fn file_canonical(f: ProofFileView) -> bool {
    forall|i: int| 0 <= i < f.proofs.len() ==> proof_canonical(#[trigger] f.proofs[i])
}

/// Every length the encoding of the file writes fits in 64 bits.
pub open spec fn file_fits(f: ProofFileView) -> bool {
    &&& encode_utf8(f.challenge).len() <= u64::MAX
    &&& forall|i: int| 0 <= i < f.proofs.len() ==> proof_fits(#[trigger] f.proofs[i])
}

proof fn lemma_file_step(s: ProofFileView, a: Seq<FieldView>, rest: Seq<FieldView>)
    requires
        a.len() <= 1,
    ensures
        apply_file_fields(s, a + rest) == if a.len() == 0 {
            apply_file_fields(s, rest)
        } else {
            match apply_file_field(s, a[0]) {
                Some(s2) => apply_file_fields(s2, rest),
                None => None,
            }
        },
{
    if a.len() == 0 {
        assert(a + rest =~= rest);
    } else {
        assert((a + rest)[0] == a[0]);
        assert((a + rest).drop_first() =~= rest);
    }
}

proof fn lemma_proof_entries(s: ProofFileView, ps: Seq<ProofView>)
    requires
        forall|i: int| 0 <= i < ps.len() ==> proof_canonical(#[trigger] ps[i]) && proof_fits(ps[i]),
    ensures
        apply_file_fields(s, proof_entries(ps)) == Some(ProofFileView { proofs: s.proofs + ps, ..s }),
    decreases ps.len(),
{
    if ps.len() == 0 {
        assert(proof_entries(ps) =~= Seq::<FieldView>::empty());
        assert(s.proofs + ps =~= s.proofs);
    } else {
        let tail = ps.drop_first();
        assert forall|i: int| 0 <= i < tail.len() implies proof_canonical(#[trigger] tail[i]) && proof_fits(tail[i]) by {
            assert(tail[i] == ps[i + 1]);
        }
        assert(proof_entries(ps).drop_first() =~= proof_entries(tail));
        lemma_proof_round_trip(ps[0]);
        let s2 = ProofFileView { proofs: s.proofs.push(ps[0]), ..s };
        lemma_proof_entries(s2, tail);
        assert(s2.proofs + tail =~= s.proofs + ps);
    }
}

/// Saving a proof file and loading it back gives the same file: for a file of the supported
/// version whose proofs are canonical (present byte strings are not empty, UTXOs are well
/// formed) and whose lengths fit the encoding.
pub proof fn lemma_proof_file_round_trip(f: ProofFileView)
    requires
        f.version == PROOF_FILE_VERSION,
        file_canonical(f),
        file_fits(f),
    ensures
        file_decoding(file_encoding(f)) == Ok::<ProofFileView, ProofError>(f),
{
    let a1 = uint_field(1, f.version as u64);
    let a2 = uint_field(2, network_code(f.network));
    let a3 = bytes_field(3, encode_utf8(f.challenge));
    let a4 = uint_field(4, f.block_number as u64);
    let a5 = proof_entries(f.proofs);
    let fs = file_fields(f);
    assert forall|i: int| 0 <= i < a5.len() implies field_ok(#[trigger] a5[i]) by {
        assert(proof_fits(f.proofs[i]));
    }
    lemma_fields_ok_concat(a1, a2);
    lemma_fields_ok_concat(a1 + a2, a3);
    lemma_fields_ok_concat(a1 + a2 + a3, a4);
    lemma_fields_ok_concat(a1 + a2 + a3 + a4, a5);
    lemma_serialize_round_trip(fs);
    assert(fs =~= a1 + (a2 + (a3 + (a4 + a5))));
    let s0 = empty_file();
    lemma_file_step(s0, a1, a2 + (a3 + (a4 + a5)));
    let s1 = ProofFileView { version: f.version, ..s0 };
    lemma_file_step(s1, a2, a3 + (a4 + a5));
    let s2 = ProofFileView { version: f.version, network: f.network, ..s0 };
    lemma_file_step(s2, a3, a4 + a5);
    vstd::utf8::encode_utf8_valid_utf8(f.challenge);
    vstd::utf8::encode_utf8_decode_utf8(f.challenge);
    if encode_utf8(f.challenge).len() == 0 {
        lemma_empty_string();
        assert(decode_utf8(Seq::<u8>::empty()) =~= Seq::<char>::empty());
        assert(f.challenge =~= Seq::<char>::empty());
    }
    let s3 = ProofFileView { version: f.version, network: f.network, challenge: f.challenge, ..s0 };
    lemma_file_step(s3, a4, a5);
    let s4 = ProofFileView { block_number: f.block_number, ..s3 };
    lemma_proof_entries(s4, f.proofs);
    assert(s4.proofs + f.proofs =~= f.proofs);
}

proof fn lemma_apply_proof_fields_wf(p: ProofView, fs: Seq<FieldView>)
    requires
        p.wf(),
    ensures
        apply_proof_fields(p, fs) matches Some(q) ==> q.wf(),
    decreases fs.len(),
{
    if fs.len() > 0 {
        match apply_proof_field(p, fs[0]) {
            Some(p2) => {
                assert(p2.wf()) by {
                    if fs[0].number == 4 {
                        assert forall|i: int| 0 <= i < p2.utxos.len() implies (#[trigger] p2.utxos[i]).wf() by {
                            if i < p.utxos.len() {
                                assert(p2.utxos[i] == p.utxos[i]);
                            }
                        }
                    }
                }
                lemma_apply_proof_fields_wf(p2, fs.drop_first());
            },
            None => {},
        }
    }
}

proof fn lemma_apply_file_fields_wf(f: ProofFileView, fs: Seq<FieldView>)
    requires
        f.wf(),
    ensures
        apply_file_fields(f, fs) matches Some(g) ==> g.wf(),
    decreases fs.len(),
{
    if fs.len() > 0 {
        match apply_file_field(f, fs[0]) {
            Some(f2) => {
                assert(f2.wf()) by {
                    if fs[0].number == 5 {
                        if let FieldValueView::Bytes(b) = fs[0].value {
                            if let Some(fs2) = parse_fields(b) {
                                lemma_apply_proof_fields_wf(empty_proof(), fs2);
                            }
                        }
                        assert forall|i: int| 0 <= i < f2.proofs.len() implies (#[trigger] f2.proofs[i]).wf() by {
                            if i < f.proofs.len() {
                                assert(f2.proofs[i] == f.proofs[i]);
                            }
                        }
                    }
                }
                lemma_apply_file_fields_wf(f2, fs.drop_first());
            },
            None => {},
        }
    }
}

/// A loaded proof file is well formed: every UTXO in it has a 32-byte txid, and a 32-byte
/// block hash when it has one.
pub proof fn lemma_loaded_file_wf(b: Seq<u8>)
    ensures
        file_decoding(b) matches Ok(f) ==> f.wf(),
{
    if let Some(fs) = parse_fields(b) {
        lemma_apply_file_fields_wf(empty_file(), fs);
    }
}

// ---- exec: UTXO ----

fn push_bytes_field(fields: &mut Vec<Field>, number: u64, b: &[u8])
    requires
        1 <= number <= 5,
    ensures
        fields_view(final(fields)@) == fields_view(old(fields)@) + bytes_field(number, b@),
        final(fields)@.len() >= old(fields)@.len(),
        forall|i: int| 0 <= i < final(fields)@.len() ==> (#[trigger] final(fields)@[i]).number == if i < old(fields)@.len() { old(fields)@[i].number } else { number },
{
    let ghost before = fields_view(fields@);
    if b.len() > 0 {
        fields.push(Field { number, value: FieldValue::Bytes(copy_range(b, 0, b.len())) });
        assert(b@.subrange(0, b@.len() as int) =~= b@);
        assert(fields_view(fields@) =~= before + bytes_field(number, b@));
    } else {
        assert(fields_view(fields@) =~= before + bytes_field(number, b@));
    }
}

fn push_uint_field(fields: &mut Vec<Field>, number: u64, v: u64)
    requires
        1 <= number <= 5,
    ensures
        fields_view(final(fields)@) == fields_view(old(fields)@) + uint_field(number, v),
        final(fields)@.len() >= old(fields)@.len(),
        forall|i: int| 0 <= i < final(fields)@.len() ==> (#[trigger] final(fields)@[i]).number == if i < old(fields)@.len() { old(fields)@[i].number } else { number },
{
    let ghost before = fields_view(fields@);
    if v != 0 {
        fields.push(Field { number, value: FieldValue::Varint(v) });
    }
    assert(fields_view(fields@) =~= before + uint_field(number, v));
}

/// Encodes a UTXO.
pub fn encode_utxo(u: &UTXO) -> (r: Vec<u8>)
    ensures
        r@ == utxo_encoding(u@),
{
    let mut fields: Vec<Field> = Vec::new();
    push_bytes_field(&mut fields, 1, u.point.txid.as_slice());
    push_uint_field(&mut fields, 2, u.point.vout as u64);
    push_bytes_field(&mut fields, 3, u.psbt_input.as_slice());
    push_uint_field(&mut fields, 4, u.block_number as u64);
    match &u.block_hash {
        Some(h) => push_bytes_field(&mut fields, 5, h.as_slice()),
        None => {},
    }
    assert(fields_view(fields@) =~= utxo_fields(u@));
    write_fields(&fields)
}

/// Decodes a UTXO.
pub fn decode_utxo(b: &[u8]) -> (r: Option<UTXO>)
    ensures
        match utxo_decoding(b@) {
            Some(u) => r matches Some(x) && x@ == u,
            None => r is None,
        },
{
    let fields = match read_fields(b) {
        Some(f) => f,
        None => {
            return None;
        },
    };
    let ghost fs = fields_view(fields@);
    let mut u = UTXO {
        point: OutPoint { txid: Vec::new(), vout: 0 },
        psbt_input: Vec::new(),
        block_number: 0,
        block_hash: None,
    };
    assert(u@ == empty_utxo()) by {
        assert(u@.point.txid =~= Seq::<u8>::empty());
        assert(u@.psbt_input =~= Seq::<u8>::empty());
    }
    let mut i: usize = 0;
    assert(fs.subrange(0, fs.len() as int) =~= fs);
    while i < fields.len()
        invariant
            fs == fields_view(fields@),
            parse_fields(b@) == Some(fs),
            0 <= i <= fields@.len(),
            apply_utxo_fields(empty_utxo(), fs) == apply_utxo_fields(u@, fs.subrange(i as int, fs.len() as int)),
        decreases fields@.len() - i,
    {
        let ghost before = u@;
        assert(fs.subrange(i as int, fs.len() as int)[0] == fs[i as int]);
        assert(fs.subrange(i as int, fs.len() as int).drop_first() =~= fs.subrange(i + 1, fs.len() as int));
        let f = &fields[i];
        assert(fs[i as int] == f@);
        if f.number == 1 {
            match &f.value {
                FieldValue::Bytes(v) => {
                    u.point.txid = copy_range(v.as_slice(), 0, v.len());
                    assert(v@.subrange(0, v@.len() as int) =~= v@);
                },
                FieldValue::Varint(_) => {
                    return None;
                },
            }
        } else if f.number == 2 {
            match &f.value {
                FieldValue::Varint(v) => {
                    if *v > u32::MAX as u64 {
                        return None;
                    }
                    u.point.vout = *v as u32;
                },
                FieldValue::Bytes(_) => {
                    return None;
                },
            }
        } else if f.number == 3 {
            match &f.value {
                FieldValue::Bytes(v) => {
                    u.psbt_input = copy_range(v.as_slice(), 0, v.len());
                    assert(v@.subrange(0, v@.len() as int) =~= v@);
                },
                FieldValue::Varint(_) => {
                    return None;
                },
            }
        } else if f.number == 4 {
            match &f.value {
                FieldValue::Varint(v) => {
                    if *v > u32::MAX as u64 {
                        return None;
                    }
                    u.block_number = *v as u32;
                },
                FieldValue::Bytes(_) => {
                    return None;
                },
            }
        } else if f.number == 5 {
            match &f.value {
                FieldValue::Bytes(v) => {
                    if v.len() == 0 {
                        u.block_hash = None;
                    } else {
                        u.block_hash = Some(copy_range(v.as_slice(), 0, v.len()));
                        assert(v@.subrange(0, v@.len() as int) =~= v@);
                    }
                },
                FieldValue::Varint(_) => {
                    return None;
                },
            }
        }
        assert(apply_utxo_field(before, fs[i as int]) == Some(u@));
        i += 1;
    }
    assert(fs.subrange(i as int, fs.len() as int) =~= Seq::<FieldView>::empty());
    let wf = u.point.txid.len() == TXID_LEN && match &u.block_hash {
        Some(h) => h.len() == TXID_LEN,
        None => true,
    };
    if wf && decode_psbt_input(u.psbt_input.as_slice()).is_some() {
        Some(u)
    } else {
        None
    }
}

// ---- exec: Proof and proof file ----

fn status_number(s: ProofStatus) -> (r: u64)
    ensures
        r == status_code(s),
{
    match s {
        ProofStatus::Undefined => 0,
        ProofStatus::GatheringUtxos => 1,
        ProofStatus::Signing => 2,
        ProofStatus::Final => 3,
    }
}

fn status_from(v: u64) -> (r: Option<ProofStatus>)
    ensures
        r == status_of(v),
{
    if v == 0 {
        Some(ProofStatus::Undefined)
    } else if v == 1 {
        Some(ProofStatus::GatheringUtxos)
    } else if v == 2 {
        Some(ProofStatus::Signing)
    } else if v == 3 {
        Some(ProofStatus::Final)
    } else {
        None
    }
}

fn network_number(n: Network) -> (r: u64)
    ensures
        r == network_code(n),
{
    match n {
        Network::Undefined => 0,
        Network::BitcoinMainnet => 1,
        Network::BitcoinTestnet => 2,
        Network::Liquid => 3,
    }
}

fn network_from(v: u64) -> (r: Option<Network>)
    ensures
        r == network_of(v),
{
    if v == 0 {
        Some(Network::Undefined)
    } else if v == 1 {
        Some(Network::BitcoinMainnet)
    } else if v == 2 {
        Some(Network::BitcoinTestnet)
    } else if v == 3 {
        Some(Network::Liquid)
    } else {
        None
    }
}

/// Encodes a proof.
pub fn encode_proof(p: &Proof) -> (r: Vec<u8>)
    ensures
        r@ == proof_encoding(p@),
{
    let mut fields: Vec<Field> = Vec::new();
    push_bytes_field(&mut fields, 1, p.id.as_str().as_bytes());
    push_uint_field(&mut fields, 2, status_number(p.status));
    match &p.proof_tx {
        Some(t) => push_bytes_field(&mut fields, 3, t.as_slice()),
        None => {},
    }
    let ghost head = fields_view(fields@);
    assert(head =~= bytes_field(1, encode_utf8(p@.id)) + uint_field(2, status_code(p@.status)) + opt_bytes_field(3, p@.proof_tx));
    let mut i: usize = 0;
    while i < p.utxos.len()
        invariant
            0 <= i <= p.utxos@.len(),
            fields_view(fields@) == head + utxo_entries(p@.utxos.subrange(0, i as int)),
            forall|j: int| 0 <= j < fields@.len() ==> (#[trigger] fields@[j]).number <= 5,
        decreases p.utxos@.len() - i,
    {
        let enc = encode_utxo(&p.utxos[i]);
        let ghost before = fields_view(fields@);
        fields.push(Field { number: 4, value: FieldValue::Bytes(enc) });
        assert(p@.utxos[i as int] == p.utxos@[i as int]@);
        assert(utxo_entries(p@.utxos.subrange(0, i + 1)) =~= utxo_entries(p@.utxos.subrange(0, i as int)).push(
            FieldView { number: 4, value: FieldValueView::Bytes(utxo_encoding(p@.utxos[i as int])) }));
        assert(fields_view(fields@) =~= before.push(FieldView { number: 4, value: FieldValueView::Bytes(utxo_encoding(p@.utxos[i as int])) }));
        i += 1;
    }
    assert(p@.utxos.subrange(0, i as int) =~= p@.utxos);
    match &p.psbt {
        Some(t) => push_bytes_field(&mut fields, 5, t.as_slice()),
        None => {},
    }
    assert(fields_view(fields@) =~= proof_fields(p@));
    write_fields(&fields)
}

/// Decodes a proof.
pub fn decode_proof(b: &[u8]) -> (r: Option<Proof>)
    ensures
        match proof_decoding(b@) {
            Some(p) => r matches Some(x) && x@ == p,
            None => r is None,
        },
{
    let fields = match read_fields(b) {
        Some(f) => f,
        None => {
            return None;
        },
    };
    let ghost fs = fields_view(fields@);
    let mut p = Proof::new(String::new(), ProofStatus::Undefined);
    assert(p@ == empty_proof()) by {
        assert(p@.id =~= Seq::<char>::empty());
        assert(p@.utxos =~= Seq::<UtxoView>::empty());
    }
    let mut i: usize = 0;
    assert(fs.subrange(0, fs.len() as int) =~= fs);
    while i < fields.len()
        invariant
            fs == fields_view(fields@),
            parse_fields(b@) == Some(fs),
            0 <= i <= fields@.len(),
            apply_proof_fields(empty_proof(), fs) == apply_proof_fields(p@, fs.subrange(i as int, fs.len() as int)),
        decreases fields@.len() - i,
    {
        let ghost before = p@;
        assert(fs.subrange(i as int, fs.len() as int)[0] == fs[i as int]);
        assert(fs.subrange(i as int, fs.len() as int).drop_first() =~= fs.subrange(i + 1, fs.len() as int));
        let f = &fields[i];
        assert(fs[i as int] == f@);
        if f.number == 1 {
            match &f.value {
                FieldValue::Bytes(v) => {
                    let copy = copy_range(v.as_slice(), 0, v.len());
                    assert(v@.subrange(0, v@.len() as int) =~= v@);
                    match utf8_string(copy) {
                        Some(s) => {
                            p.id = s;
                        },
                        None => {
                            return None;
                        },
                    }
                },
                FieldValue::Varint(_) => {
                    return None;
                },
            }
        } else if f.number == 2 {
            match &f.value {
                FieldValue::Varint(v) => match status_from(*v) {
                    Some(st) => {
                        p.status = st;
                    },
                    None => {
                        return None;
                    },
                },
                FieldValue::Bytes(_) => {
                    return None;
                },
            }
        } else if f.number == 3 {
            match &f.value {
                FieldValue::Bytes(v) => {
                    if v.len() == 0 {
                        p.proof_tx = None;
                    } else {
                        p.proof_tx = Some(copy_range(v.as_slice(), 0, v.len()));
                        assert(v@.subrange(0, v@.len() as int) =~= v@);
                    }
                },
                FieldValue::Varint(_) => {
                    return None;
                },
            }
        } else if f.number == 4 {
            match &f.value {
                FieldValue::Bytes(v) => match decode_utxo(v.as_slice()) {
                    Some(u) => {
                        let ghost pu = p@.utxos;
                        p.utxos.push(u);
                        assert(p@.utxos =~= pu.push(u@));
                    },
                    None => {
                        return None;
                    },
                },
                FieldValue::Varint(_) => {
                    return None;
                },
            }
        } else if f.number == 5 {
            match &f.value {
                FieldValue::Bytes(v) => {
                    if v.len() == 0 {
                        p.psbt = None;
                    } else {
                        p.psbt = Some(copy_range(v.as_slice(), 0, v.len()));
                        assert(v@.subrange(0, v@.len() as int) =~= v@);
                    }
                },
                FieldValue::Varint(_) => {
                    return None;
                },
            }
        }
        assert(apply_proof_field(before, fs[i as int]) == Some(p@));
        i += 1;
    }
    assert(fs.subrange(i as int, fs.len() as int) =~= Seq::<FieldView>::empty());
    let tx_ok = match &p.proof_tx {
        Some(t) => decode_tx(t.as_slice()).is_some(),
        None => true,
    };
    let psbt_ok = match &p.psbt {
        Some(t) => psbt_decodes(t.as_slice()),
        None => true,
    };
    if tx_ok && psbt_ok {
        Some(p)
    } else {
        None
    }
}

/// Encodes a proof file.
pub fn encode_proof_file(pf: &ProofFile) -> (r: Vec<u8>)
    ensures
        r@ == file_encoding(pf@),
{
    let mut fields: Vec<Field> = Vec::new();
    push_uint_field(&mut fields, 1, pf.version as u64);
    push_uint_field(&mut fields, 2, network_number(pf.network));
    push_bytes_field(&mut fields, 3, pf.challenge.as_str().as_bytes());
    push_uint_field(&mut fields, 4, pf.block_number as u64);
    let ghost head = fields_view(fields@);
    assert(head =~= uint_field(1, pf@.version as u64) + uint_field(2, network_code(pf@.network)) + bytes_field(3, encode_utf8(pf@.challenge))
        + uint_field(4, pf@.block_number as u64));
    let mut i: usize = 0;
    while i < pf.proofs.len()
        invariant
            0 <= i <= pf.proofs@.len(),
            fields_view(fields@) == head + proof_entries(pf@.proofs.subrange(0, i as int)),
            forall|j: int| 0 <= j < fields@.len() ==> (#[trigger] fields@[j]).number <= 5,
        decreases pf.proofs@.len() - i,
    {
        let enc = encode_proof(&pf.proofs[i]);
        let ghost before = fields_view(fields@);
        fields.push(Field { number: 5, value: FieldValue::Bytes(enc) });
        assert(pf@.proofs[i as int] == pf.proofs@[i as int]@);
        assert(proof_entries(pf@.proofs.subrange(0, i + 1)) =~= proof_entries(pf@.proofs.subrange(0, i as int)).push(
            FieldView { number: 5, value: FieldValueView::Bytes(proof_encoding(pf@.proofs[i as int])) }));
        assert(fields_view(fields@) =~= before.push(FieldView { number: 5, value: FieldValueView::Bytes(proof_encoding(pf@.proofs[i as int])) }));
        i += 1;
    }
    assert(pf@.proofs.subrange(0, i as int) =~= pf@.proofs);
    assert(fields_view(fields@) =~= file_fields(pf@));
    write_fields(&fields)
}

/// Loads a proof file from its bytes: fails with a decode error on corrupt data and with a
/// version error when the version is not the supported one.
pub fn decode_proof_file(b: &[u8]) -> (r: Result<ProofFile, ProofError>)
    ensures
        match file_decoding(b@) {
            Ok(f) => r matches Ok(x) && x@ == f,
            Err(e) => r == Err::<ProofFile, ProofError>(e),
        },
        r matches Ok(x) ==> x@.wf(),
{
    proof {
        lemma_loaded_file_wf(b@);
    }
    let fields = match read_fields(b) {
        Some(f) => f,
        None => {
            return Err(ProofError::DecodeError);
        },
    };
    let ghost fs = fields_view(fields@);
    let mut pf = ProofFile::new(Network::Undefined);
    assert(pf@ == empty_file()) by {
        assert(pf@.challenge =~= Seq::<char>::empty());
        assert(pf@.proofs =~= Seq::<ProofView>::empty());
    }
    let mut i: usize = 0;
    assert(fs.subrange(0, fs.len() as int) =~= fs);
    while i < fields.len()
        invariant
            fs == fields_view(fields@),
            parse_fields(b@) == Some(fs),
            0 <= i <= fields@.len(),
            apply_file_fields(empty_file(), fs) == apply_file_fields(pf@, fs.subrange(i as int, fs.len() as int)),
        decreases fields@.len() - i,
    {
        let ghost before = pf@;
        assert(fs.subrange(i as int, fs.len() as int)[0] == fs[i as int]);
        assert(fs.subrange(i as int, fs.len() as int).drop_first() =~= fs.subrange(i + 1, fs.len() as int));
        let f = &fields[i];
        assert(fs[i as int] == f@);
        if f.number == 1 {
            match &f.value {
                FieldValue::Varint(v) => {
                    if *v > u32::MAX as u64 {
                        return Err(ProofError::DecodeError);
                    }
                    pf.version = *v as u32;
                },
                FieldValue::Bytes(_) => {
                    return Err(ProofError::DecodeError);
                },
            }
        } else if f.number == 2 {
            match &f.value {
                FieldValue::Varint(v) => match network_from(*v) {
                    Some(n) => {
                        pf.network = n;
                    },
                    None => {
                        return Err(ProofError::DecodeError);
                    },
                },
                FieldValue::Bytes(_) => {
                    return Err(ProofError::DecodeError);
                },
            }
        } else if f.number == 3 {
            match &f.value {
                FieldValue::Bytes(v) => {
                    let copy = copy_range(v.as_slice(), 0, v.len());
                    assert(v@.subrange(0, v@.len() as int) =~= v@);
                    match utf8_string(copy) {
                        Some(s) => {
                            pf.challenge = s;
                        },
                        None => {
                            return Err(ProofError::DecodeError);
                        },
                    }
                },
                FieldValue::Varint(_) => {
                    return Err(ProofError::DecodeError);
                },
            }
        } else if f.number == 4 {
            match &f.value {
                FieldValue::Varint(v) => {
                    if *v > u32::MAX as u64 {
                        return Err(ProofError::DecodeError);
                    }
                    pf.block_number = *v as u32;
                },
                FieldValue::Bytes(_) => {
                    return Err(ProofError::DecodeError);
                },
            }
        } else if f.number == 5 {
            match &f.value {
                FieldValue::Bytes(v) => match decode_proof(v.as_slice()) {
                    Some(q) => {
                        let ghost pp = pf@.proofs;
                        pf.proofs.push(q);
                        assert(pf@.proofs =~= pp.push(q@));
                    },
                    None => {
                        return Err(ProofError::DecodeError);
                    },
                },
                FieldValue::Varint(_) => {
                    return Err(ProofError::DecodeError);
                },
            }
        }
        assert(apply_file_field(before, fs[i as int]) == Some(pf@));
        i += 1;
    }
    assert(fs.subrange(i as int, fs.len() as int) =~= Seq::<FieldView>::empty());
    if pf.version != PROOF_FILE_VERSION {
        return Err(ProofError::VersionError);
    }
    Ok(pf)
}

/// Loading the bytes of a canonical file of the supported version and saving the result gives
/// the same bytes back.
pub proof fn lemma_proof_file_bytes_round_trip(f: ProofFileView)
    requires
        f.version == PROOF_FILE_VERSION,
        file_canonical(f),
        file_fits(f),
    ensures
        file_decoding(file_encoding(f)) matches Ok(g) && file_encoding(g) == file_encoding(f),
{
    lemma_proof_file_round_trip(f);
}

} // verus!
