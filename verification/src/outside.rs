//! Calls into the `bitcoin` crate that only compute.
//!
//! Each function here makes one outside computation on plain values. Its
//! contract is believed, not proved.
use crate::bip32::Network;
use crate::ecdsa;
use crate::psbt;
use crate::psbt::{Transaction, TransactionView, TxOut, TxOutView};
use crate::text;
use bitcoin::absolute::LockTime;
use bitcoin::sighash::{Prevouts, SighashCache};
use bitcoin::{Amount, OutPoint};
use vstd::prelude::*;

verus! {

/// An amount in words: whole bitcoins, then eight decimals unless there are
/// none but zeros, then the unit.
pub open spec fn amount_words(satoshi: u64) -> Seq<char> {
    let whole = (satoshi / 100_000_000) as nat;
    let rest = (satoshi % 100_000_000) as nat;
    let decimals = if rest == 0 {
        Seq::<char>::empty()
    } else {
        seq!['.'] + Seq::new((8 - text::decimal(rest).len()) as nat, |i: int| '0') + text::decimal(
            rest,
        )
    };
    text::decimal(whole) + decimals + " BTC"@
}

/// Calls `Display` of `bitcoin::Amount`: the amount in bitcoins, with eight
/// decimals where it is not a whole number of them, and the unit `BTC`.
#[verifier::external_body]
pub(crate) fn amount_text(satoshi: u64) -> (words: String)
    ensures
        words@ == amount_words(satoshi),
{
    Amount::from_sat(satoshi).to_string()
}

/// How `Debug` of `bitcoin::Script` writes the script with these bytes.
pub uninterp spec fn script_words(script: Seq<u8>) -> Seq<char>;

/// Calls `Debug` of `bitcoin::Script`: the script disassembled. The words
/// depend on the script's bytes alone.
#[verifier::external_body]
pub(crate) fn script_text(script: &[u8]) -> (words: String)
    ensures
        words@ == script_words(script@),
{
    format!("{:?}", bitcoin::Script::from_bytes(script))
}

/// The bytes of the script that an address stands for on a network, or the
/// words that refuse the address there.
pub uninterp spec fn address_script(address: Seq<char>, network: Network) -> Result<
    Seq<u8>,
    Seq<char>,
>;

/// Calls `bitcoin::Address::require_network` on the address that the text
/// writes, and takes its script (`script_pubkey`). Both, and the words of a
/// refusal, depend on the text and the network alone.
#[verifier::external_body]
pub(crate) fn script_of_address(address: &str, network: Network) -> (res: Result<Vec<u8>, String>)
    ensures
        match res {
            Ok(script) => address_script(address@, network) == Ok::<Seq<u8>, Seq<char>>(script@),
            Err(e) => address_script(address@, network) == Err::<Seq<u8>, Seq<char>>(e@),
        },
{
    let network = match network {
        Network::Bitcoin => bitcoin::Network::Bitcoin,
        Network::Testnet => bitcoin::Network::Testnet,
        Network::Testnet4 => bitcoin::Network::Testnet4,
        Network::Signet => bitcoin::Network::Signet,
        Network::Regtest => bitcoin::Network::Regtest,
    };
    let parsed = address.parse::<bitcoin::Address<bitcoin::address::NetworkUnchecked>>();
    match parsed.and_then(|a| a.require_network(network)) {
        Ok(a) => Ok(a.script_pubkey().to_bytes()),
        Err(e) => Err(e.to_string()),
    }
}

/// Calls `secp256k1::ecdsa::Signature::from_compact`: it takes sixty-four bytes
/// that write two numbers below the group order, and refuses all else in the
/// same words. The signature is handed on in the form in which it came
/// (`serialize_compact`).
#[verifier::external_body]
pub(crate) fn parse_compact(bytes: &[u8]) -> (res: Result<[u8; 64], String>)
    ensures
        match res {
            Ok(sig) => ecdsa::valid_compact(bytes@) && sig@ == bytes@,
            Err(e) => !ecdsa::valid_compact(bytes@) && e@ == "malformed signature"@,
        },
{
    match bitcoin::secp256k1::ecdsa::Signature::from_compact(bytes) {
        Ok(sig) => Ok(sig.serialize_compact()),
        Err(e) => Err(e.to_string()),
    }
}

/// Calls `secp256k1::ecdsa::Signature::normalize_s`: the second number is
/// replaced by its negative modulo the group order where it is above half of
/// it; the first stays.
#[verifier::external_body]
pub(crate) fn normalize_s(compact: &[u8; 64]) -> (sig: [u8; 64])
    requires
        ecdsa::valid_compact(compact@),
    ensures
        sig@ == ecdsa::low_s(compact@),
{
    let mut sig = bitcoin::secp256k1::ecdsa::Signature::from_compact(compact)
        .expect("two numbers below the group order");
    sig.normalize_s();
    sig.serialize_compact()
}

/// The compressed serialization of the secp256k1 point that the bytes write, if
/// they write one.
pub uninterp spec fn point_of(bytes: Seq<u8>) -> Option<Seq<u8>>;

/// Calls `secp256k1::PublicKey::from_slice`, and takes the key in its compressed
/// form (`serialize`). Which bytes are a point, and its compressed form, depend
/// on the bytes alone; all others are refused in the same words.
#[verifier::external_body]
pub(crate) fn parse_public_key(bytes: &[u8]) -> (res: Result<[u8; 33], String>)
    ensures
        match res {
            Ok(key) => point_of(bytes@) == Some(key@),
            Err(e) => point_of(bytes@) is None && e@ == "malformed public key"@,
        },
{
    match bitcoin::secp256k1::PublicKey::from_slice(bytes) {
        Ok(key) => Ok(key.serialize()),
        Err(e) => Err(e.to_string()),
    }
}

/// The HASH160 of bytes: the RIPEMD-160 of their SHA-256.
pub uninterp spec fn hash160(bytes: Seq<u8>) -> Seq<u8>;

/// Calls `bitcoin::hashes::hash160::Hash::hash`. The hash depends on the bytes
/// alone.
#[verifier::external_body]
pub(crate) fn hash160_of(bytes: &[u8]) -> (hash: [u8; 20])
    ensures
        hash@ == hash160(bytes@),
{
    let hash = <bitcoin::hashes::hash160::Hash as bitcoin::hashes::Hash>::hash(bytes);
    bitcoin::hashes::Hash::to_byte_array(hash)
}

/// The consensus encoding of a transaction without signatures.
pub uninterp spec fn encoded_tx(tx: TransactionView) -> Seq<u8>;

/// Calls `bitcoin::consensus::serialize` on the transaction. The bytes depend on
/// what the transaction says alone.
#[verifier::external_body]
pub(crate) fn encode_tx(tx: &Transaction) -> (bytes: Vec<u8>)
    ensures
        bytes@ == encoded_tx(tx@),
{
    let input = tx.input.iter().map(|i| bitcoin::TxIn {
        previous_output: OutPoint::new(bitcoin::hashes::Hash::from_byte_array(i.txid), i.vout),
        sequence: bitcoin::Sequence(i.sequence),
        ..Default::default()
    }).collect();
    let output = tx.output.iter().map(|o| bitcoin::TxOut {
        value: Amount::from_sat(o.value),
        script_pubkey: o.script_pubkey.clone().into(),
    }).collect();
    let version = bitcoin::transaction::Version(tx.version);
    let lock_time = LockTime::from_consensus(tx.lock_time);
    bitcoin::consensus::serialize(&bitcoin::Transaction { version, lock_time, input, output })
}

/// The digest that a witness-version-zero script signature of an input covers:
/// by the encoded transaction, the input's index, the witness script, the amount
/// spent and the number that tells what is covered. Or the words that refuse it.
pub uninterp spec fn p2wsh_digest(
    tx: Seq<u8>,
    index: nat,
    script: Seq<u8>,
    value: u64,
    sighash_type: u32,
) -> Result<Seq<u8>, Seq<char>>;

/// Calls `bitcoin::sighash::SighashCache::p2wsh_signature_hash` (BIP-143) on the
/// transaction that the bytes encode. The digest, and the words of a refusal,
/// depend on the arguments alone.
#[verifier::external_body]
pub(crate) fn p2wsh_digest_of(
    tx: &Vec<u8>,
    index: usize,
    script: &[u8],
    value: u64,
    sighash_type: u32,
) -> (res: Result<[u8; 32], String>)
    ensures
        match res {
            Ok(digest) => p2wsh_digest(tx@, index as nat, script@, value, sighash_type) == Ok::<
                Seq<u8>,
                Seq<char>,
            >(digest@),
            Err(e) => p2wsh_digest(tx@, index as nat, script@, value, sighash_type) == Err::<
                Seq<u8>,
                Seq<char>,
            >(e@),
        },
{
    let tx = bitcoin::consensus::deserialize::<bitcoin::Transaction>(tx).map_err(|e| e.to_string())?;
    let script = bitcoin::Script::from_bytes(script);
    let kind = bitcoin::EcdsaSighashType::from_consensus(sighash_type);
    SighashCache::new(tx)
        .p2wsh_signature_hash(index, script, Amount::from_sat(value), kind)
        .map(bitcoin::hashes::Hash::to_byte_array)
        .map_err(|e| e.to_string())
}

/// The digest that a Taproot script-path signature of an input covers: by the
/// encoded transaction, the input's index, all the outputs spent, the leaf's
/// hash and the number that tells what is covered. Or the words that refuse it.
pub uninterp spec fn tapscript_digest(
    tx: Seq<u8>,
    index: nat,
    prevouts: Seq<TxOutView>,
    leaf_hash: Seq<u8>,
    sighash_type: u8,
) -> Result<Seq<u8>, Seq<char>>;

/// Calls `bitcoin::sighash::SighashCache::taproot_script_spend_signature_hash`
/// (BIP-341) on the transaction that the bytes encode, with all the outputs that
/// it spends. The digest, and the words of a refusal, depend on the arguments
/// alone.
#[verifier::external_body]
pub(crate) fn tapscript_digest_of(
    tx: &Vec<u8>,
    index: usize,
    prevouts: &Vec<TxOut>,
    leaf_hash: &[u8; 32],
    sighash_type: u8,
) -> (res: Result<[u8; 32], String>)
    ensures
        match res {
            Ok(digest) => tapscript_digest(
                tx@,
                index as nat,
                psbt::outputs(prevouts@),
                leaf_hash@,
                sighash_type,
            ) == Ok::<Seq<u8>, Seq<char>>(digest@),
            Err(e) => tapscript_digest(
                tx@,
                index as nat,
                psbt::outputs(prevouts@),
                leaf_hash@,
                sighash_type,
            ) == Err::<Seq<u8>, Seq<char>>(e@),
        },
{
    let kind = bitcoin::TapSighashType::from_consensus_u8(sighash_type).map_err(|e| e.to_string())?;
    let tx = bitcoin::consensus::deserialize::<bitcoin::Transaction>(tx).map_err(|e| e.to_string())?;
    let spent: Vec<bitcoin::TxOut> = prevouts.iter().map(|o| bitcoin::TxOut {
        value: Amount::from_sat(o.value),
        script_pubkey: o.script_pubkey.clone().into(),
    }).collect();
    let leaf: bitcoin::TapLeafHash = bitcoin::hashes::Hash::from_byte_array(*leaf_hash);
    SighashCache::new(tx)
        .taproot_script_spend_signature_hash(index, &Prevouts::All(&spent), leaf, kind)
        .map(bitcoin::hashes::Hash::to_byte_array)
        .map_err(|e| e.to_string())
}

/// The shortest form of a number whose first byte is zero: without zeros at the
/// start, but for one where the number would else start with a set bit.
pub open spec fn der_number(bytes: Seq<u8>) -> Seq<u8>
    decreases bytes.len(),
{
    if bytes.len() > 1 && bytes[0] == 0 && bytes[1] < 0x80 {
        der_number(bytes.drop_first())
    } else {
        bytes
    }
}

/// The DER encoding of a signature in compact form: a sequence of two integers.
pub open spec fn der_signature(compact: Seq<u8>) -> Seq<u8> {
    let r = der_number(seq![0u8] + compact.take(32));
    let s = der_number(seq![0u8] + compact.skip(32));
    seq![0x30u8, (4 + r.len() + s.len()) as u8, 0x02, r.len() as u8] + r + seq![
        0x02u8,
        s.len() as u8,
    ] + s
}

/// Calls `secp256k1::ecdsa::Signature::serialize_der`: the DER encoding of the two
/// numbers, each in its shortest form.
#[verifier::external_body]
pub(crate) fn serialize_der(compact: &[u8; 64]) -> (der: Vec<u8>)
    requires
        ecdsa::valid_compact(compact@),
    ensures
        der@ == der_signature(compact@),
{
    let sig = bitcoin::secp256k1::ecdsa::Signature::from_compact(compact)
        .expect("two numbers below the group order");
    sig.serialize_der().to_vec()
}

} // verus!
