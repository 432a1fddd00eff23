//! What values say is what they hold.
use crate::bip32::Xpub;
use crate::elements::{ElementsTx, Pset, PsetInput, PsetKeyOrigin};
use crate::fleet::{FleetMember, MemberEnv};
use crate::policy::MinimalHsmPolicy;
use crate::program::{MasterKeyHandle, Reply, ReplyView, Request, RequestView};
use crate::psbt::{
    KeyOrigin, PartialSig, Psbt, PsbtInput, TapKeyOrigin, TapScriptSig, Transaction, TxOut,
};
use crate::signing::{EcdsaPlan, SigningKey, TaprootPlan};
use crate::token::{Attribute, AttributeView};
use vstd::prelude::*;

verus! {

/// What a transaction says is what it holds: its version, lock time and inputs, and of
/// each output, in their order, the amount and the script. So is what is told of each
/// of its inputs.
pub proof fn law_transaction_says_what_it_holds(psbt: Psbt, tx: Transaction, out: TxOut)
    ensures
        out@.value == out.value,
        out@.script_pubkey == out.script_pubkey@,
        tx@.version == tx.version,
        tx@.lock_time == tx.lock_time,
        tx@.input == tx.input@,
        tx@.output.len() == tx.output@.len(),
        forall|i: int| 0 <= i < tx.output@.len() ==> #[trigger] tx@.output[i] == tx.output@[i]@,
        psbt@.unsigned_tx == psbt.unsigned_tx@,
        psbt@.inputs.len() == psbt.inputs@.len(),
        forall|i: int| 0 <= i < psbt.inputs@.len() ==> #[trigger] psbt@.inputs[i] == psbt.inputs@[i]@,
{
}

/// What is told of an input says what it holds: each key with its master fingerprint
/// and path, the number, the script, the spent output, and the signatures.
pub proof fn law_input_says_what_it_holds(
    input: PsbtInput,
    own: KeyOrigin,
    tap: TapKeyOrigin,
    sig: PartialSig,
    leaf: TapScriptSig,
)
    ensures
        input@.sighash_type == input.sighash_type,
        input@.witness_script is Some <==> input.witness_script is Some,
        input.witness_script matches Some(s) ==> input@.witness_script == Some(s@),
        input@.witness_utxo is Some <==> input.witness_utxo is Some,
        input.witness_utxo matches Some(o) ==> input@.witness_utxo == Some(o@),
        input@.bip32_derivation.len() == input.bip32_derivation@.len(),
        forall|i: int|
            0 <= i < input.bip32_derivation@.len() ==> #[trigger] input@.bip32_derivation[i]
                == input.bip32_derivation@[i]@,
        input@.tap_key_origins.len() == input.tap_key_origins@.len(),
        forall|i: int|
            0 <= i < input.tap_key_origins@.len() ==> #[trigger] input@.tap_key_origins[i]
                == input.tap_key_origins@[i]@,
        input@.partial_sigs.len() == input.partial_sigs@.len(),
        forall|i: int|
            0 <= i < input.partial_sigs@.len() ==> #[trigger] input@.partial_sigs[i]
                == input.partial_sigs@[i]@,
        input@.tap_script_sigs.len() == input.tap_script_sigs@.len(),
        forall|i: int|
            0 <= i < input.tap_script_sigs@.len() ==> #[trigger] input@.tap_script_sigs[i]
                == input.tap_script_sigs@[i]@,
        own@.key == own.key.bytes@,
        own@.fingerprint == own.fingerprint.bytes@,
        own@.path == own.path.segments@,
        tap@.key == tap.key@,
        tap@.fingerprint == tap.fingerprint.bytes@,
        tap@.path == tap.path.segments@,
        tap@.leaf_hashes.len() == tap.leaf_hashes@.len(),
        forall|i: int|
            0 <= i < tap.leaf_hashes@.len() ==> #[trigger] tap@.leaf_hashes[i]
                == tap.leaf_hashes@[i]@,
        sig@.key == sig.key@,
        sig@.signature == sig.signature@,
        sig@.sighash_type == sig.sighash_type,
        leaf@.key == leaf.key@,
        leaf@.leaf_hash == leaf.leaf_hash@,
        leaf@.signature == leaf.signature@,
        leaf@.sighash_type == leaf.sighash_type,
{
}

/// The same of an Elements transaction and its inputs.
pub proof fn law_pset_says_what_it_holds(
    pset: Pset,
    tx: ElementsTx,
    input: PsetInput,
    own: PsetKeyOrigin,
)
    ensures
        tx@.version == tx.version,
        tx@.lock_time == tx.lock_time,
        tx@.input.len() == tx.input@.len(),
        forall|i: int| 0 <= i < tx.input@.len() ==> #[trigger] tx@.input[i] == tx.input@[i]@,
        tx@.output.len() == tx.output@.len(),
        forall|i: int| 0 <= i < tx.output@.len() ==> #[trigger] tx@.output[i] == tx.output@[i]@,
        pset.unsigned_tx matches Ok(t) ==> pset@.unsigned_tx matches Ok(v) && v == t@,
        pset.unsigned_tx matches Err(e) ==> pset@.unsigned_tx matches Err(v) && v == e@,
        pset@.inputs.len() == pset.inputs@.len(),
        forall|i: int| 0 <= i < pset.inputs@.len() ==> #[trigger] pset@.inputs[i] == pset.inputs@[i]@,
        input@.sighash_type == input.sighash_type,
        input@.witness_script is Some <==> input.witness_script is Some,
        input.witness_script matches Some(s) ==> input@.witness_script == Some(s@),
        input@.witness_value is Some <==> input.witness_value is Some,
        input.witness_value matches Some(v) ==> input@.witness_value == Some(v@),
        input@.bip32_derivation.len() == input.bip32_derivation@.len(),
        forall|i: int|
            0 <= i < input.bip32_derivation@.len() ==> #[trigger] input@.bip32_derivation[i]
                == input.bip32_derivation@[i]@,
        input@.partial_sigs.len() == input.partial_sigs@.len(),
        forall|i: int|
            0 <= i < input.partial_sigs@.len() ==> #[trigger] input@.partial_sigs[i]
                == input.partial_sigs@[i]@,
        own@.key == own.key@,
        own@.fingerprint == own.fingerprint.bytes@,
        own@.path == own.path.segments@,
{
}

/// What a signer's key, a plan and a key's metadata say is what they hold.
pub proof fn law_keys_say_what_they_hold(
    key: SigningKey,
    ecdsa: EcdsaPlan,
    taproot: TaprootPlan,
    xpub: Xpub,
    master: MasterKeyHandle,
)
    ensures
        key@.label == key.label@,
        key@.fingerprint == key.fingerprint.bytes@,
        key@.path == key.path.segments@,
        key@.network == key.network,
        key@.handle == key.handle,
        key@.taproot == key.taproot,
        ecdsa@.key == ecdsa.key@,
        ecdsa@.relative == ecdsa.relative.segments@,
        ecdsa@.digest == ecdsa.digest@,
        ecdsa@.sighash_type == ecdsa.sighash_type,
        taproot@.key == taproot.key@,
        taproot@.relative == taproot.relative.segments@,
        taproot@.path == taproot.path.segments@,
        taproot@.sighash_type == taproot.sighash_type,
        taproot@.leaves.len() == taproot.leaves@.len(),
        forall|i: int|
            0 <= i < taproot.leaves@.len() ==> (#[trigger] taproot@.leaves[i]).leaf_hash
                == taproot.leaves@[i].leaf_hash@ && taproot@.leaves[i].digest
                == taproot.leaves@[i].digest@,
        xpub@.network == xpub.network,
        xpub@.depth == xpub.depth,
        xpub@.parent_fingerprint == xpub.parent_fingerprint.bytes@,
        xpub@.child_number == xpub.child_number,
        xpub@.public_key == xpub.public_key.bytes@,
        xpub@.chain_code == xpub.chain_code.bytes@,
        master@.key_handle == master.key_handle,
        master@.xpub == master.xpub@,
        master@.fingerprint == master.fingerprint.bytes@,
{
}

/// What a policy, a member of a fleet and a cosigner say is what they hold.
pub proof fn law_policies_and_members_say_what_they_hold<F>(
    p: MinimalHsmPolicy,
    m: MemberEnv,
    c: FleetMember<F>,
)
    ensures
        p@.per_transaction_limit == p.per_transaction_limit,
        p@.max_signatures_per_hour == p.max_signatures_per_hour,
        p@.destination_whitelist is Some <==> p.destination_whitelist is Some,
        p.destination_whitelist matches Some(list) ==> {
            &&& p@.destination_whitelist->Some_0.len() == list@.len()
            &&& forall|i: int|
                0 <= i < list@.len() ==> #[trigger] p@.destination_whitelist->Some_0[i]
                    == list@[i]@
        },
        m@.vendor == m.vendor@,
        m@.label == m.label@,
        m@.library_path == m.library_path@,
        m@.slot == m.slot@,
        m@.pin == m.pin@,
        m@.derivation_path == m.derivation_path@,
        m@.network == m.network,
        m@.key_init == m.key_init@,
        c.member().vendor == c.vendor@,
        c.member().label == c.label@,
        c.member().library_path == c.library_path@,
        c.member().slot == c.slot@,
        c.member().pin == c.pin@,
        c.member().derivation_path == c.derivation_path@,
        c.member().network == c.network,
        c.member().key_init == c.key_init@,
{
}

/// What is asked of the token and the backend, and what they answer, is what the
/// requests and the replies hold; so are the attributes in them.
pub proof fn law_requests_say_what_they_hold(q: Request, r: Reply, a: Attribute)
    ensures
        q matches Request::SignEcdsa(h, d) ==> q@ == RequestView::SignEcdsa(h, d@),
        q matches Request::DerivePath(h, p) ==> q@ == RequestView::DerivePath(h, p.segments@),
        q matches Request::DeriveChild(h, c) ==> q@ == RequestView::DeriveChild(h, c),
        q matches Request::DeriveMasterKey(s, l) ==> q@ == RequestView::DeriveMasterKey(s@, l@),
        q matches Request::StrategySign(p, d) ==> q@ == RequestView::StrategySign(p.segments@, d@),
        q matches Request::SignSchnorr { key, label, path, digest } ==> q@
            == (RequestView::SignSchnorr {
            key,
            label: label@,
            path: path.segments@,
            digest: digest@,
        }),
        q matches Request::DeriveKey { mechanism, parameter, base, template } ==> {
            &&& q@ is DeriveKey
            &&& q@->mechanism == mechanism
            &&& q@->parameter == parameter@
            &&& q@->base == base
            &&& q@->template.len() == template@.len()
            &&& forall|i: int|
                0 <= i < template@.len() ==> #[trigger] q@->template[i] == template@[i]@
        },
        q matches Request::DestroyObject(h) ==> q@ == RequestView::DestroyObject(h),
        q matches Request::OpenSession(s) ==> q@ == RequestView::OpenSession(s),
        q matches Request::Login(p) ==> q@ == RequestView::Login(p@),
        r matches Reply::Signature(Ok(s)) ==> r@ == ReplyView::Signature(Ok(s@)),
        r matches Reply::Derived(Ok(h)) ==> r@ == ReplyView::Derived(Ok(h)),
        r matches Reply::Handle(Ok(h)) ==> r@ == ReplyView::Handle(Ok(h)),
        r matches Reply::Handles(Ok(h)) ==> r@ == ReplyView::Handles(Ok(h@)),
        r matches Reply::Schnorr(Ok(s)) ==> r@ == ReplyView::Schnorr(Ok(s@)),
        r matches Reply::StrategySignature(Ok(s)) ==> r@ == ReplyView::StrategySignature(Ok(s@)),
        r matches Reply::Policy(Ok(p)) ==> r@ == ReplyView::Policy(Ok(p@)),
        r matches Reply::SigRate(Ok(c)) ==> r@ == ReplyView::SigRate(Ok(c.timestamps@)),
        r matches Reply::Time(t) ==> r@ == ReplyView::Time(t),
        a matches Attribute::Label(v) ==> a@ == AttributeView::Label(v@),
        a matches Attribute::Value(v) ==> a@ == AttributeView::Value(v@),
        a matches Attribute::EcPoint(v) ==> a@ == AttributeView::EcPoint(v@),
        a matches Attribute::VendorDefined(n, v) ==> a@ == AttributeView::VendorDefined(n, v@),
        a matches Attribute::Class(c) ==> a@ == AttributeView::Class(c),
        a matches Attribute::Token(b) ==> a@ == AttributeView::Token(b),
        a matches Attribute::Private(b) ==> a@ == AttributeView::Private(b),
        a matches Attribute::Sensitive(b) ==> a@ == AttributeView::Sensitive(b),
        a matches Attribute::Extractable(b) ==> a@ == AttributeView::Extractable(b),
{
}

} // verus!
