//! Signing the inputs of a transaction.
//!
//! For each input the signer makes a plan: nothing to do, a reason to stop, or
//! what to sign and with which key. Carrying a plan out derives the child key
//! where one is needed, signs, and destroys the child key again.
use crate::bip32;
use crate::bip32::{ChildNumber, DerivationPath, Fingerprint, Network};
use crate::ecdsa;
use crate::ecdsa::SignLowS;
use crate::error::{Pkcs11Error, Pkcs11ErrorView};
use crate::outside;
use crate::program;
use crate::program::{Machine, Operation, Prog, Reply, ReplyView, Request, RequestView, Step};
use crate::psbt;
use crate::psbt::{
    KeyOrigin, KeyOriginView, PartialSig, PartialSigView, Psbt, PsbtInputView, PsbtView,
    TapKeyOrigin, TapKeyOriginView, TapScriptSig, TapScriptSigView, TxOut, TxOutView,
};
use crate::text;
use crate::token::ObjectHandle;
use vstd::prelude::*;
use vstd::string::*;

verus! {

// ---------------------------------------------------------------------------
// What is covered
// ---------------------------------------------------------------------------

/// The number for a signature that covers all inputs and outputs.
pub const SIGHASH_ALL: u32 = 1;

/// Whether nodes relay ECDSA signatures with this number.
pub open spec fn standard_sighash(n: u32) -> bool {
    n == 0x01 || n == 0x02 || n == 0x03 || n == 0x81 || n == 0x82 || n == 0x83
}

/// The number for an input's ECDSA signatures: the one it asks for, or the one for
/// all if it asks for none. One that is not standard is an error.
pub open spec fn ecdsa_sighash(asked: Option<u32>) -> Result<u32, Seq<char>> {
    match asked {
        None => Ok(SIGHASH_ALL),
        Some(n) => if standard_sighash(n) {
            Ok(n)
        } else {
            Err("invalid sighash type: non-standard sighash type "@ + text::decimal(n as nat))
        },
    }
}

fn choose_ecdsa_sighash(asked: Option<u32>) -> (res: Result<u32, String>)
    ensures
        match res {
            Ok(n) => ecdsa_sighash(asked) == Ok::<u32, Seq<char>>(n),
            Err(e) => ecdsa_sighash(asked) == Err::<u32, Seq<char>>(e@),
        },
{
    match asked {
        None => Ok(SIGHASH_ALL),
        Some(n) => if n == 0x01 || n == 0x02 || n == 0x03 || n == 0x81 || n == 0x82 || n == 0x83 {
            Ok(n)
        } else {
            Err(
                text::join2(
                    "invalid sighash type: non-standard sighash type ",
                    text::decimal_text(n as u64).as_str(),
                ),
            )
        },
    }
}

/// The number for an input's Taproot signatures: the one it asks for, or zero, which
/// covers all, if it asks for none. One that does not exist is an error.
pub open spec fn taproot_sighash(asked: Option<u32>) -> Result<u8, Seq<char>> {
    match asked {
        None => Ok(0),
        Some(n) => if n == 0 || standard_sighash(n) {
            Ok(n as u8)
        } else {
            Err("invalid sighash type: invalid sighash type "@ + text::decimal(n as nat))
        },
    }
}

fn choose_taproot_sighash(asked: Option<u32>) -> (res: Result<u8, String>)
    ensures
        match res {
            Ok(n) => taproot_sighash(asked) == Ok::<u8, Seq<char>>(n),
            Err(e) => taproot_sighash(asked) == Err::<u8, Seq<char>>(e@),
        },
{
    match asked {
        None => Ok(0),
        Some(n) => if n == 0 || n == 0x01 || n == 0x02 || n == 0x03 || n == 0x81 || n == 0x82 || n
            == 0x83 {
            Ok(n as u8)
        } else {
            Err(
                text::join2(
                    "invalid sighash type: invalid sighash type ",
                    text::decimal_text(n as u64).as_str(),
                ),
            )
        },
    }
}

// ---------------------------------------------------------------------------
// The signer's keys
// ---------------------------------------------------------------------------

/// The signer as the plans see it.
#[derive(Debug)]
pub struct SigningKey {
    /// The signer's label.
    pub label: String,
    /// The fingerprint of the master key.
    pub fingerprint: Fingerprint,
    /// The path from the master key to the federation key.
    pub path: DerivationPath,
    /// The network that the signer is for.
    pub network: Network,
    /// The federation key on the token.
    pub handle: ObjectHandle,
    /// Whether the backend signs for Taproot.
    pub taproot: bool,
}

/// What a [`SigningKey`] says.
pub struct SigningKeyView {
    pub label: Seq<char>,
    pub fingerprint: Seq<u8>,
    pub path: Seq<ChildNumber>,
    pub network: Network,
    pub handle: ObjectHandle,
    pub taproot: bool,
}

impl View for SigningKey {
    type V = SigningKeyView;

    open spec fn view(&self) -> SigningKeyView {
        SigningKeyView {
            label: self.label@,
            fingerprint: self.fingerprint@,
            path: self.path@,
            network: self.network,
            handle: self.handle,
            taproot: self.taproot,
        }
    }
}

impl Clone for SigningKey {
    fn clone(&self) -> (k: SigningKey)
        ensures
            k@ == self@,
    {
        SigningKey {
            label: self.label.clone(),
            fingerprint: self.fingerprint,
            path: self.path.clone(),
            network: self.network,
            handle: self.handle,
            taproot: self.taproot,
        }
    }
}

/// The first key that descends from this master key.
pub open spec fn own_origin(list: Seq<KeyOriginView>, fingerprint: Seq<u8>) -> Option<KeyOriginView>
    decreases list.len(),
{
    if list.len() == 0 {
        None
    } else if list[0].fingerprint == fingerprint {
        Some(list[0])
    } else {
        own_origin(list.drop_first(), fingerprint)
    }
}

fn find_own_origin(list: &Vec<KeyOrigin>, fingerprint: &Fingerprint) -> (found: Option<usize>)
    ensures
        match found {
            Some(i) => i < list@.len() && own_origin(psbt::origins(list@), fingerprint@) == Some(
                list@[i as int]@,
            ),
            None => own_origin(psbt::origins(list@), fingerprint@) is None,
        },
{
    let n: usize = list.len();
    let mut i: usize = 0;
    let ghost all = psbt::origins(list@);
    assert(all.skip(0) =~= all);
    while i < n
        invariant
            i <= n,
            n == list@.len(),
            all == psbt::origins(list@),
            own_origin(all, fingerprint@) == own_origin(all.skip(i as int), fingerprint@),
        decreases n - i,
    {
        assert(all.skip(i as int)[0] == list@[i as int]@);
        if list[i].fingerprint.same(fingerprint) {
            return Some(i);
        }
        assert(all.skip(i as int).drop_first() =~= all.skip(i + 1));
        i = i + 1;
    }
    None
}

/// The first Taproot key that descends from this master key.
pub open spec fn own_tap_origin(list: Seq<TapKeyOriginView>, fingerprint: Seq<u8>) -> Option<
    TapKeyOriginView,
>
    decreases list.len(),
{
    if list.len() == 0 {
        None
    } else if list[0].fingerprint == fingerprint {
        Some(list[0])
    } else {
        own_tap_origin(list.drop_first(), fingerprint)
    }
}

fn find_own_tap_origin(list: &Vec<TapKeyOrigin>, fingerprint: &Fingerprint) -> (found: Option<
    usize,
>)
    ensures
        match found {
            Some(i) => i < list@.len() && own_tap_origin(psbt::tap_origins(list@), fingerprint@)
                == Some(list@[i as int]@),
            None => own_tap_origin(psbt::tap_origins(list@), fingerprint@) is None,
        },
{
    let n: usize = list.len();
    let mut i: usize = 0;
    let ghost all = psbt::tap_origins(list@);
    assert(all.skip(0) =~= all);
    while i < n
        invariant
            i <= n,
            n == list@.len(),
            all == psbt::tap_origins(list@),
            own_tap_origin(all, fingerprint@) == own_tap_origin(all.skip(i as int), fingerprint@),
        decreases n - i,
    {
        assert(all.skip(i as int)[0] == list@[i as int]@);
        if list[i].fingerprint.same(fingerprint) {
            return Some(i);
        }
        assert(all.skip(i as int).drop_first() =~= all.skip(i + 1));
        i = i + 1;
    }
    None
}

// ---------------------------------------------------------------------------
// Plans
// ---------------------------------------------------------------------------

/// What to do for one input.
#[derive(Debug)]
pub enum InputPlan {
    /// The input is not this signer's.
    Skip,
    /// The input is this signer's, and cannot be signed.
    Stop(String),
    /// Sign with ECDSA.
    Ecdsa(EcdsaPlan),
    /// Sign Taproot leaves.
    Taproot(TaprootPlan),
}

/// What to sign with ECDSA.
#[derive(Debug)]
pub struct EcdsaPlan {
    /// The serialized public key.
    pub key: Vec<u8>,
    /// The path from the federation key.
    pub relative: DerivationPath,
    /// What to sign.
    pub digest: [u8; 32],
    /// The number that tells what is covered.
    pub sighash_type: u32,
}

/// What to sign for Taproot.
#[derive(Debug)]
pub struct TaprootPlan {
    /// The x coordinate of the public key.
    pub key: [u8; 32],
    /// The path from the federation key.
    pub relative: DerivationPath,
    /// The path from the master key.
    pub path: DerivationPath,
    /// The leaves, each with what to sign for it.
    pub leaves: Vec<LeafDigest>,
    /// The number that tells what is covered.
    pub sighash_type: u8,
}

/// A leaf, and what to sign for it.
#[derive(Clone, Copy, Debug)]
pub struct LeafDigest {
    /// The leaf's hash.
    pub leaf_hash: [u8; 32],
    /// What to sign.
    pub digest: [u8; 32],
}

/// What an [`InputPlan`] says.
pub enum InputPlanView {
    Skip,
    Stop(Seq<char>),
    Ecdsa(EcdsaPlanView),
    Taproot(TaprootPlanView),
}

/// What an [`EcdsaPlan`] says.
pub struct EcdsaPlanView {
    pub key: Seq<u8>,
    pub relative: Seq<ChildNumber>,
    pub digest: Seq<u8>,
    pub sighash_type: u32,
}

/// What a [`TaprootPlan`] says.
pub struct TaprootPlanView {
    pub key: Seq<u8>,
    pub relative: Seq<ChildNumber>,
    pub path: Seq<ChildNumber>,
    pub leaves: Seq<LeafDigestView>,
    pub sighash_type: u8,
}

/// What a [`LeafDigest`] says.
pub struct LeafDigestView {
    pub leaf_hash: Seq<u8>,
    pub digest: Seq<u8>,
}

impl View for LeafDigest {
    type V = LeafDigestView;

    open spec fn view(&self) -> LeafDigestView {
        LeafDigestView { leaf_hash: self.leaf_hash@, digest: self.digest@ }
    }
}

/// What a list of leaves says.
pub open spec fn leaf_digests(list: Seq<LeafDigest>) -> Seq<LeafDigestView> {
    list.map_values(|l: LeafDigest| l@)
}

impl View for EcdsaPlan {
    type V = EcdsaPlanView;

    open spec fn view(&self) -> EcdsaPlanView {
        EcdsaPlanView {
            key: self.key@,
            relative: self.relative@,
            digest: self.digest@,
            sighash_type: self.sighash_type,
        }
    }
}

impl View for TaprootPlan {
    type V = TaprootPlanView;

    open spec fn view(&self) -> TaprootPlanView {
        TaprootPlanView {
            key: self.key@,
            relative: self.relative@,
            path: self.path@,
            leaves: leaf_digests(self.leaves@),
            sighash_type: self.sighash_type,
        }
    }
}

impl View for InputPlan {
    type V = InputPlanView;

    open spec fn view(&self) -> InputPlanView {
        match *self {
            InputPlan::Skip => InputPlanView::Skip,
            InputPlan::Stop(t) => InputPlanView::Stop(t@),
            InputPlan::Ecdsa(p) => InputPlanView::Ecdsa(p@),
            InputPlan::Taproot(p) => InputPlanView::Taproot(p@),
        }
    }
}

/// Why a path that does not reach the federation key is no use.
pub open spec fn too_short(index: nat, path: Seq<ChildNumber>, federation: Seq<ChildNumber>) -> Seq<
    char,
> {
    "input "@ + text::decimal(index) + " BIP-32 path "@ + bip32::path_text(path)
        + " is shorter than this signer's federation path "@ + bip32::path_text(federation)
}

fn too_short_text(index: usize, path: &DerivationPath, federation: &DerivationPath) -> (t: String)
    ensures
        t@ == too_short(index as nat, path@, federation@),
{
    let mut t = text::join4(
        "input ",
        text::decimal_text(index as u64).as_str(),
        " BIP-32 path ",
        path.to_string().as_str(),
    );
    t.append(" is shorter than this signer's federation path ");
    t.append(federation.to_string().as_str());
    t
}

/// The steps behind the first `n`.
fn steps_behind(path: &DerivationPath, n: usize) -> (rest: DerivationPath)
    requires
        n <= path@.len(),
    ensures
        rest@ == path@.skip(n as int),
{
    let all = path.segments.as_slice();
    let rest = vstd::slice::slice_subrange(all, n, all.len());
    assert(rest@ =~= path@.skip(n as int));
    DerivationPath { segments: vstd::slice::slice_to_vec(rest) }
}

/// The plan for an input of which the signer has an ECDSA key. The path leads
/// from the master key, and what is behind the federation path is derived.
pub open spec fn ecdsa_plan(
    key: SigningKeyView,
    psbt: PsbtView,
    index: nat,
    own: KeyOriginView,
) -> InputPlanView {
    let input = psbt.inputs[index as int];
    if own.path.len() < key.path.len() {
        InputPlanView::Stop(too_short(index, own.path, key.path))
    } else {
        match ecdsa_sighash(input.sighash_type) {
            Err(t) => InputPlanView::Stop(t),
            Ok(sighash_type) => match (input.witness_script, input.witness_utxo) {
                (None, _) => InputPlanView::Stop(
                    "input "@ + text::decimal(index)
                        + " missing witness_script (only P2WSH multi-sig is supported by Pkcs11Signer in v1)"@,
                ),
                (_, None) => InputPlanView::Stop(
                    "input "@ + text::decimal(index) + " missing witness_utxo"@,
                ),
                (Some(script), Some(utxo)) => match outside::p2wsh_digest(
                    outside::encoded_tx(psbt.unsigned_tx),
                    index,
                    script,
                    utxo.value,
                    sighash_type,
                ) {
                    Err(e) => InputPlanView::Stop("sighash failure: "@ + e),
                    Ok(digest) => InputPlanView::Ecdsa(
                        EcdsaPlanView {
                            key: own.key,
                            relative: own.path.skip(key.path.len() as int),
                            digest,
                            sighash_type,
                        },
                    ),
                },
            },
        }
    }
}

fn plan_ecdsa(key: &SigningKey, psbt: &Psbt, index: usize, own: usize) -> (plan: InputPlan)
    requires
        index < psbt.inputs@.len(),
        own < psbt.inputs@[index as int].bip32_derivation@.len(),
    ensures
        plan@ == ecdsa_plan(
            key@,
            psbt@,
            index as nat,
            psbt.inputs@[index as int].bip32_derivation@[own as int]@,
        ),
{
    let input = &psbt.inputs[index];
    let origin = &input.bip32_derivation[own];
    assert(psbt@.inputs[index as int] == input@);
    let depth: usize = key.path.segments.len();
    if origin.path.segments.len() < depth {
        return InputPlan::Stop(too_short_text(index, &origin.path, &key.path));
    }
    let sighash_type = match choose_ecdsa_sighash(input.sighash_type) {
        Ok(n) => n,
        Err(t) => {
            return InputPlan::Stop(t);
        },
    };
    let script = match &input.witness_script {
        Some(script) => script,
        None => {
            return InputPlan::Stop(
                text::join3(
                    "input ",
                    text::decimal_text(index as u64).as_str(),
                    " missing witness_script (only P2WSH multi-sig is supported by Pkcs11Signer in v1)",
                ),
            );
        },
    };
    let utxo = match &input.witness_utxo {
        Some(utxo) => utxo,
        None => {
            return InputPlan::Stop(
                text::join3(
                    "input ",
                    text::decimal_text(index as u64).as_str(),
                    " missing witness_utxo",
                ),
            );
        },
    };
    let tx = outside::encode_tx(&psbt.unsigned_tx);
    match outside::p2wsh_digest_of(&tx, index, script.as_slice(), utxo.value, sighash_type) {
        Err(e) => InputPlan::Stop(text::join2("sighash failure: ", e.as_str())),
        Ok(digest) => InputPlan::Ecdsa(
            EcdsaPlan {
                key: vstd::slice::slice_to_vec(origin.key.bytes.as_slice()),
                relative: steps_behind(&origin.path, depth),
                digest,
                sighash_type,
            },
        ),
    }
}

/// The outputs that the inputs spend, if each input tells its own.
pub open spec fn prevouts(inputs: Seq<PsbtInputView>) -> Result<Seq<TxOutView>, Seq<char>>
    decreases inputs.len(),
{
    if inputs.len() == 0 {
        Ok(Seq::empty())
    } else {
        match prevouts(inputs.drop_last()) {
            Err(t) => Err(t),
            Ok(before) => match inputs.last().witness_utxo {
                Some(utxo) => Ok(before.push(utxo)),
                None => Err(
                    "input "@ + text::decimal((inputs.len() - 1) as nat) + " missing witness_utxo"@,
                ),
            },
        }
    }
}

proof fn lemma_missing_prevout_stays(inputs: Seq<PsbtInputView>, i: int)
    requires
        0 <= i <= inputs.len(),
        prevouts(inputs.take(i)) is Err,
    ensures
        prevouts(inputs) == prevouts(inputs.take(i)),
    decreases inputs.len(),
{
    if i == inputs.len() {
        assert(inputs.take(i) =~= inputs);
    } else {
        assert(inputs.drop_last().take(i) =~= inputs.take(i));
        lemma_missing_prevout_stays(inputs.drop_last(), i);
    }
}

fn gather_prevouts(psbt: &Psbt) -> (res: Result<Vec<TxOut>, String>)
    ensures
        match res {
            Ok(outs) => prevouts(psbt@.inputs) == Ok::<Seq<TxOutView>, Seq<char>>(
                psbt::outputs(outs@),
            ),
            Err(t) => prevouts(psbt@.inputs) == Err::<Seq<TxOutView>, Seq<char>>(t@),
        },
{
    let n: usize = psbt.inputs.len();
    let mut outs: Vec<TxOut> = Vec::new();
    let mut i: usize = 0;
    let ghost all = psbt@.inputs;
    assert(psbt::outputs(outs@) =~= Seq::<TxOutView>::empty());
    while i < n
        invariant
            i <= n,
            n == psbt.inputs@.len(),
            all == psbt@.inputs,
            prevouts(all.take(i as int)) == Ok::<Seq<TxOutView>, Seq<char>>(psbt::outputs(outs@)),
        decreases n - i,
    {
        proof {
            assert(all.take(i + 1).drop_last() =~= all.take(i as int));
            assert(all.take(i + 1).last() == psbt.inputs@[i as int]@);
        }
        match &psbt.inputs[i].witness_utxo {
            Some(utxo) => {
                let ghost before = psbt::outputs(outs@);
                let copied = TxOut {
                    value: utxo.value,
                    script_pubkey: vstd::slice::slice_to_vec(utxo.script_pubkey.as_slice()),
                };
                outs.push(copied);
                assert(psbt::outputs(outs@) =~= before.push(copied@));
            },
            None => {
                proof {
                    lemma_missing_prevout_stays(all, i + 1);
                }
                return Err(
                    text::join3(
                        "input ",
                        text::decimal_text(i as u64).as_str(),
                        " missing witness_utxo",
                    ),
                );
            },
        }
        i = i + 1;
    }
    assert(all.take(n as int) =~= all);
    Ok(outs)
}

/// What to sign for each of the leaves.
pub open spec fn leaf_plans(
    tx: Seq<u8>,
    index: nat,
    spent: Seq<TxOutView>,
    leaves: Seq<Seq<u8>>,
    sighash_type: u8,
) -> Result<Seq<LeafDigestView>, Seq<char>>
    decreases leaves.len(),
{
    if leaves.len() == 0 {
        Ok(Seq::empty())
    } else {
        match leaf_plans(tx, index, spent, leaves.drop_last(), sighash_type) {
            Err(t) => Err(t),
            Ok(before) => match outside::tapscript_digest(
                tx,
                index,
                spent,
                leaves.last(),
                sighash_type,
            ) {
                Ok(digest) => Ok(before.push(LeafDigestView { leaf_hash: leaves.last(), digest })),
                Err(e) => Err("sighash failure: "@ + e),
            },
        }
    }
}

proof fn lemma_refused_leaf_stays(
    tx: Seq<u8>,
    index: nat,
    spent: Seq<TxOutView>,
    leaves: Seq<Seq<u8>>,
    sighash_type: u8,
    i: int,
)
    requires
        0 <= i <= leaves.len(),
        leaf_plans(tx, index, spent, leaves.take(i), sighash_type) is Err,
    ensures
        leaf_plans(tx, index, spent, leaves, sighash_type) == leaf_plans(
            tx,
            index,
            spent,
            leaves.take(i),
            sighash_type,
        ),
    decreases leaves.len(),
{
    if i == leaves.len() {
        assert(leaves.take(i) =~= leaves);
    } else {
        assert(leaves.drop_last().take(i) =~= leaves.take(i));
        lemma_refused_leaf_stays(tx, index, spent, leaves.drop_last(), sighash_type, i);
    }
}

fn plan_leaves(
    tx: &Vec<u8>,
    index: usize,
    spent: &Vec<TxOut>,
    leaves: &Vec<[u8; 32]>,
    sighash_type: u8,
) -> (res: Result<Vec<LeafDigest>, String>)
    ensures
        match res {
            Ok(plans) => leaf_plans(
                tx@,
                index as nat,
                psbt::outputs(spent@),
                psbt::hashes(leaves@),
                sighash_type,
            ) == Ok::<Seq<LeafDigestView>, Seq<char>>(leaf_digests(plans@)),
            Err(t) => leaf_plans(
                tx@,
                index as nat,
                psbt::outputs(spent@),
                psbt::hashes(leaves@),
                sighash_type,
            ) == Err::<Seq<LeafDigestView>, Seq<char>>(t@),
        },
{
    let n: usize = leaves.len();
    let mut plans: Vec<LeafDigest> = Vec::new();
    let mut i: usize = 0;
    let ghost all = psbt::hashes(leaves@);
    let ghost outs = psbt::outputs(spent@);
    assert(leaf_digests(plans@) =~= Seq::<LeafDigestView>::empty());
    while i < n
        invariant
            i <= n,
            n == leaves@.len(),
            all == psbt::hashes(leaves@),
            outs == psbt::outputs(spent@),
            leaf_plans(tx@, index as nat, outs, all.take(i as int), sighash_type) == Ok::<
                Seq<LeafDigestView>,
                Seq<char>,
            >(leaf_digests(plans@)),
        decreases n - i,
    {
        proof {
            assert(all.take(i + 1).drop_last() =~= all.take(i as int));
            assert(all.take(i + 1).last() == leaves@[i as int]@);
        }
        match outside::tapscript_digest_of(tx, index, spent, &leaves[i], sighash_type) {
            Ok(digest) => {
                let ghost before = leaf_digests(plans@);
                let plan = LeafDigest { leaf_hash: leaves[i], digest };
                plans.push(plan);
                assert(leaf_digests(plans@) =~= before.push(plan@));
            },
            Err(e) => {
                proof {
                    lemma_refused_leaf_stays(tx@, index as nat, outs, all, sighash_type, i + 1);
                }
                return Err(text::join2("sighash failure: ", e.as_str()));
            },
        }
        i = i + 1;
    }
    assert(all.take(n as int) =~= all);
    Ok(plans)
}

/// The plan for an input of which the signer has a Taproot key.
pub open spec fn taproot_plan(
    key: SigningKeyView,
    psbt: PsbtView,
    index: nat,
    own: TapKeyOriginView,
) -> InputPlanView {
    let input = psbt.inputs[index as int];
    if !key.taproot {
        InputPlanView::Stop(
            "input "@ + text::decimal(index)
                + " is Taproot, and the backend offers no Taproot signer"@,
        )
    } else if own.path.len() < key.path.len() {
        InputPlanView::Stop(too_short(index, own.path, key.path))
    } else {
        match taproot_sighash(input.sighash_type) {
            Err(t) => InputPlanView::Stop(t),
            Ok(sighash_type) => match prevouts(psbt.inputs) {
                Err(t) => InputPlanView::Stop(t),
                Ok(spent) => match leaf_plans(
                    outside::encoded_tx(psbt.unsigned_tx),
                    index,
                    spent,
                    own.leaf_hashes,
                    sighash_type,
                ) {
                    Err(t) => InputPlanView::Stop(t),
                    Ok(leaves) => InputPlanView::Taproot(
                        TaprootPlanView {
                            key: own.key,
                            relative: own.path.skip(key.path.len() as int),
                            path: own.path,
                            leaves,
                            sighash_type,
                        },
                    ),
                },
            },
        }
    }
}

fn plan_taproot(key: &SigningKey, psbt: &Psbt, index: usize, own: usize) -> (plan: InputPlan)
    requires
        index < psbt.inputs@.len(),
        own < psbt.inputs@[index as int].tap_key_origins@.len(),
    ensures
        plan@ == taproot_plan(
            key@,
            psbt@,
            index as nat,
            psbt.inputs@[index as int].tap_key_origins@[own as int]@,
        ),
{
    let input = &psbt.inputs[index];
    let origin = &input.tap_key_origins[own];
    assert(psbt@.inputs[index as int] == input@);
    if !key.taproot {
        return InputPlan::Stop(
            text::join3(
                "input ",
                text::decimal_text(index as u64).as_str(),
                " is Taproot, and the backend offers no Taproot signer",
            ),
        );
    }
    let depth: usize = key.path.segments.len();
    if origin.path.segments.len() < depth {
        return InputPlan::Stop(too_short_text(index, &origin.path, &key.path));
    }
    let sighash_type = match choose_taproot_sighash(input.sighash_type) {
        Ok(n) => n,
        Err(t) => {
            return InputPlan::Stop(t);
        },
    };
    let spent = match gather_prevouts(psbt) {
        Ok(spent) => spent,
        Err(t) => {
            return InputPlan::Stop(t);
        },
    };
    let tx = outside::encode_tx(&psbt.unsigned_tx);
    match plan_leaves(&tx, index, &spent, &origin.leaf_hashes, sighash_type) {
        Err(t) => InputPlan::Stop(t),
        Ok(leaves) => InputPlan::Taproot(
            TaprootPlan {
                key: origin.key,
                relative: steps_behind(&origin.path, depth),
                path: origin.path.clone(),
                leaves,
                sighash_type,
            },
        ),
    }
}

/// The plan for an input: by the signer's ECDSA key where it has one there, else
/// by its Taproot key.
pub open spec fn input_plan(key: SigningKeyView, psbt: PsbtView, index: nat) -> InputPlanView {
    let input = psbt.inputs[index as int];
    match own_origin(input.bip32_derivation, key.fingerprint) {
        Some(own) => ecdsa_plan(key, psbt, index, own),
        None => match own_tap_origin(input.tap_key_origins, key.fingerprint) {
            Some(own) => taproot_plan(key, psbt, index, own),
            None => InputPlanView::Skip,
        },
    }
}

/// Whether a key of the input descends from this master key.
pub open spec fn ours(fingerprint: Seq<u8>, input: PsbtInputView) -> bool {
    own_origin(input.bip32_derivation, fingerprint) is Some || own_tap_origin(
        input.tap_key_origins,
        fingerprint,
    ) is Some
}

/// Whether any of the inputs is this signer's.
pub open spec fn any_ours(fingerprint: Seq<u8>, inputs: Seq<PsbtInputView>) -> bool {
    exists|i: int| 0 <= i < inputs.len() && ours(fingerprint, #[trigger] inputs[i])
}

/// Whether any input of the transaction is this signer's.
pub fn has_own_input(psbt: &Psbt, fingerprint: &Fingerprint) -> (b: bool)
    ensures
        b == any_ours(fingerprint@, psbt@.inputs),
{
    let n: usize = psbt.inputs.len();
    let mut i: usize = 0;
    while i < n
        invariant
            i <= n,
            n == psbt@.inputs.len(),
            n == psbt.inputs@.len(),
            forall|j: int| 0 <= j < i ==> !ours(fingerprint@, #[trigger] psbt@.inputs[j]),
        decreases n - i,
    {
        assert(psbt@.inputs[i as int] == psbt.inputs@[i as int]@);
        let input = &psbt.inputs[i];
        if find_own_origin(&input.bip32_derivation, fingerprint).is_some() || find_own_tap_origin(
            &input.tap_key_origins,
            fingerprint,
        ).is_some() {
            assert(ours(fingerprint@, psbt@.inputs[i as int]));
            return true;
        }
        i = i + 1;
    }
    false
}

/// Makes the plan for an input.
pub fn plan_input(key: &SigningKey, psbt: &Psbt, index: usize) -> (plan: InputPlan)
    requires
        index < psbt@.inputs.len(),
    ensures
        plan@ == input_plan(key@, psbt@, index as nat),
{
    assert(psbt@.inputs[index as int] == psbt.inputs@[index as int]@);
    match find_own_origin(&psbt.inputs[index].bip32_derivation, &key.fingerprint) {
        Some(own) => plan_ecdsa(key, psbt, index, own),
        None => match find_own_tap_origin(&psbt.inputs[index].tap_key_origins, &key.fingerprint) {
            Some(own) => plan_taproot(key, psbt, index, own),
            None => InputPlan::Skip,
        },
    }
}

// ---------------------------------------------------------------------------
// Carrying a plan out
// ---------------------------------------------------------------------------

/// What signing an input gives.
#[derive(Debug)]
pub enum InputSigs {
    /// Nothing.
    Nothing,
    /// An ECDSA signature.
    Ecdsa(PartialSig),
    /// Taproot signatures, one for each leaf.
    Taproot(Vec<TapScriptSig>),
}

/// What [`InputSigs`] says.
pub enum InputSigsView {
    Nothing,
    Ecdsa(PartialSigView),
    Taproot(Seq<TapScriptSigView>),
}

impl View for InputSigs {
    type V = InputSigsView;

    open spec fn view(&self) -> InputSigsView {
        match *self {
            InputSigs::Nothing => InputSigsView::Nothing,
            InputSigs::Ecdsa(s) => InputSigsView::Ecdsa(s@),
            InputSigs::Taproot(l) => InputSigsView::Taproot(psbt::tap_sigs(l@)),
        }
    }
}

/// What a result says.
pub open spec fn sigs_view(r: Result<InputSigs, String>) -> Result<InputSigsView, Seq<char>> {
    match r {
        Ok(s) => Ok(s@),
        Err(t) => Err(t@),
    }
}

/// Destroys the key that was used, unless it is the federation key, and is done.
/// Whether the token minds is of no account: it drops such keys at the end of
/// the session.
pub open spec fn drop_child(
    federation: ObjectHandle,
    used: ObjectHandle,
    out: Result<InputSigsView, Seq<char>>,
) -> Prog<Result<InputSigsView, Seq<char>>> {
    if used == federation {
        Prog::Done(out)
    } else {
        Prog::Ask(
            RequestView::DestroyObject(used),
            |r: ReplyView|
                match r {
                    ReplyView::Unit(_) => Prog::Done(out),
                    _ => Prog::Stuck,
                },
        )
    }
}

/// What an ECDSA signature comes to.
pub open spec fn ecdsa_outcome(
    plan: EcdsaPlanView,
    signed: Result<Seq<u8>, Pkcs11ErrorView>,
) -> Result<InputSigsView, Seq<char>> {
    match signed {
        Ok(signature) => Ok(
            InputSigsView::Ecdsa(
                PartialSigView { key: plan.key, signature, sighash_type: plan.sighash_type },
            ),
        ),
        Err(e) => Err(e.text()),
    }
}

/// What follows once the token has signed.
pub open spec fn then_drop_child(
    federation: ObjectHandle,
    plan: EcdsaPlanView,
    used: ObjectHandle,
) -> spec_fn(Result<Seq<u8>, Pkcs11ErrorView>) -> Prog<Result<InputSigsView, Seq<char>>> {
    |d: Result<Seq<u8>, Pkcs11ErrorView>| drop_child(federation, used, ecdsa_outcome(plan, d))
}

/// Signs with the key that is for the input.
pub open spec fn ecdsa_with(
    federation: ObjectHandle,
    plan: EcdsaPlanView,
    used: ObjectHandle,
) -> Prog<Result<InputSigsView, Seq<char>>> {
    ecdsa::low_s_signing(used, plan.digest).bind(then_drop_child(federation, plan, used))
}

/// Derives the key where it is not the federation key itself, and signs.
pub open spec fn ecdsa_signing(federation: ObjectHandle, plan: EcdsaPlanView) -> Prog<
    Result<InputSigsView, Seq<char>>,
> {
    if plan.relative.len() == 0 {
        ecdsa_with(federation, plan, federation)
    } else {
        Prog::Ask(
            RequestView::DerivePath(federation, plan.relative),
            |r: ReplyView|
                match r {
                    ReplyView::Derived(Ok(used)) => ecdsa_with(federation, plan, used),
                    ReplyView::Derived(Err(e)) => Prog::Done(Err(e.text())),
                    _ => Prog::Stuck,
                },
        )
    }
}

/// Signs the leaves in turn, behind those that are done.
pub open spec fn leaf_signing(
    label: Seq<char>,
    federation: ObjectHandle,
    plan: TaprootPlanView,
    used: ObjectHandle,
    done: Seq<TapScriptSigView>,
) -> Prog<Result<InputSigsView, Seq<char>>>
    decreases plan.leaves.len() - done.len(),
{
    if done.len() >= plan.leaves.len() {
        drop_child(federation, used, Ok(InputSigsView::Taproot(done)))
    } else {
        let leaf = plan.leaves[done.len() as int];
        Prog::Ask(
            RequestView::SignSchnorr { key: used, label, path: plan.path, digest: leaf.digest },
            |r: ReplyView|
                match r {
                    ReplyView::Schnorr(Ok(signature)) => leaf_signing(
                        label,
                        federation,
                        plan,
                        used,
                        done.push(
                            TapScriptSigView {
                                key: plan.key,
                                leaf_hash: leaf.leaf_hash,
                                signature,
                                sighash_type: plan.sighash_type,
                            },
                        ),
                    ),
                    ReplyView::Schnorr(Err(e)) => drop_child(federation, used, Err(e.text())),
                    _ => Prog::Stuck,
                },
        )
    }
}

/// Derives the key where it is not the federation key itself, and signs the
/// leaves. Without leaves there is nothing to do.
pub open spec fn taproot_signing(
    label: Seq<char>,
    federation: ObjectHandle,
    plan: TaprootPlanView,
) -> Prog<Result<InputSigsView, Seq<char>>> {
    if plan.leaves.len() == 0 {
        Prog::Done(Ok(InputSigsView::Nothing))
    } else if plan.relative.len() == 0 {
        leaf_signing(label, federation, plan, federation, Seq::empty())
    } else {
        Prog::Ask(
            RequestView::DerivePath(federation, plan.relative),
            |r: ReplyView|
                match r {
                    ReplyView::Derived(Ok(used)) => leaf_signing(
                        label,
                        federation,
                        plan,
                        used,
                        Seq::empty(),
                    ),
                    ReplyView::Derived(Err(e)) => Prog::Done(Err(e.text())),
                    _ => Prog::Stuck,
                },
        )
    }
}

/// Carries a plan out.
pub open spec fn plan_signing(
    label: Seq<char>,
    federation: ObjectHandle,
    plan: InputPlanView,
) -> Prog<Result<InputSigsView, Seq<char>>> {
    match plan {
        InputPlanView::Skip => Prog::Done(Ok(InputSigsView::Nothing)),
        InputPlanView::Stop(t) => Prog::Done(Err(t)),
        InputPlanView::Ecdsa(p) => ecdsa_signing(federation, p),
        InputPlanView::Taproot(p) => taproot_signing(label, federation, p),
    }
}

enum SignInputState {
    Deriving(EcdsaPlan),
    Signing(EcdsaPlan, ObjectHandle, SignLowS),
    DerivingTaproot(TaprootPlan),
    SigningLeaf(TaprootPlan, ObjectHandle, Vec<TapScriptSig>),
    Dropping(ObjectHandle, Result<InputSigs, String>),
}

/// Carries a plan out.
pub struct SignInput {
    label: String,
    federation: ObjectHandle,
    state: SignInputState,
}

impl Operation for SignInput {
    type Out = Result<InputSigs, String>;

    type OutView = Result<InputSigsView, Seq<char>>;

    closed spec fn prog(self) -> Prog<Result<InputSigsView, Seq<char>>> {
        match self.state {
            SignInputState::Deriving(p) if p@.relative.len() > 0 => ecdsa_signing(
                self.federation,
                p@,
            ),
            SignInputState::Signing(p, used, m) if m.prog() is Ask => m.prog().bind(
                then_drop_child(self.federation, p@, used),
            ),
            SignInputState::DerivingTaproot(p) if p@.leaves.len() > 0 && p@.relative.len() > 0 => {
                taproot_signing(self.label@, self.federation, p@)
            },
            SignInputState::SigningLeaf(p, used, done) if done@.len() < p@.leaves.len() => {
                leaf_signing(self.label@, self.federation, p@, used, psbt::tap_sigs(done@))
            },
            SignInputState::Dropping(used, out) if used != self.federation => drop_child(
                self.federation,
                used,
                sigs_view(out),
            ),
            _ => Prog::Stuck,
        }
    }

    open spec fn out_view(out: Result<InputSigs, String>) -> Result<InputSigsView, Seq<char>> {
        sigs_view(out)
    }
}

impl SignInput {
    fn dropping(
        label: String,
        federation: ObjectHandle,
        used: ObjectHandle,
        out: Result<InputSigs, String>,
    ) -> (step: Step<SignInput, Result<InputSigs, String>>)
        ensures
            program::runs_as(step, drop_child(federation, used, sigs_view(out))),
    {
        if used == federation {
            Step::Done(out)
        } else {
            Step::Ask(
                Request::DestroyObject(used),
                SignInput { label, federation, state: SignInputState::Dropping(used, out) },
            )
        }
    }

    fn signing(
        label: String,
        federation: ObjectHandle,
        plan: EcdsaPlan,
        used: ObjectHandle,
        step: Step<SignLowS, Result<[u8; 64], Pkcs11Error>>,
        Ghost(prog): Ghost<Prog<Result<Seq<u8>, Pkcs11ErrorView>>>,
    ) -> (next: Step<SignInput, Result<InputSigs, String>>)
        requires
            program::runs_as(step, prog),
        ensures
            program::runs_as(next, prog.bind(then_drop_child(federation, plan@, used))),
    {
        match step {
            Step::Ask(q, m) => Step::Ask(
                q,
                SignInput { label, federation, state: SignInputState::Signing(plan, used, m) },
            ),
            Step::Done(Ok(signature)) => {
                let sig = PartialSig {
                    key: plan.key,
                    signature: vstd::slice::slice_to_vec(signature.as_slice()),
                    sighash_type: plan.sighash_type,
                };
                SignInput::dropping(label, federation, used, Ok(InputSigs::Ecdsa(sig)))
            },
            Step::Done(Err(e)) => {
                let t = e.to_string();
                SignInput::dropping(label, federation, used, Err(t))
            },
        }
    }

    fn next_leaf(
        label: String,
        federation: ObjectHandle,
        plan: TaprootPlan,
        used: ObjectHandle,
        done: Vec<TapScriptSig>,
    ) -> (step: Step<SignInput, Result<InputSigs, String>>)
        requires
            done@.len() <= plan@.leaves.len(),
        ensures
            program::runs_as(
                step,
                leaf_signing(label@, federation, plan@, used, psbt::tap_sigs(done@)),
            ),
    {
        let k: usize = done.len();
        if k >= plan.leaves.len() {
            SignInput::dropping(label, federation, used, Ok(InputSigs::Taproot(done)))
        } else {
            assert(plan@.leaves[k as int] == plan.leaves@[k as int]@);
            let digest = plan.leaves[k].digest;
            Step::Ask(
                Request::SignSchnorr {
                    key: used,
                    label: label.clone(),
                    path: plan.path.clone(),
                    digest,
                },
                SignInput {
                    label,
                    federation,
                    state: SignInputState::SigningLeaf(plan, used, done),
                },
            )
        }
    }

    /// Starts to carry a plan out, with the federation key on the token and the
    /// signer's label.
    pub fn start(label: String, federation: ObjectHandle, plan: InputPlan) -> (step: Step<
        SignInput,
        Result<InputSigs, String>,
    >)
        ensures
            program::runs_as(step, plan_signing(label@, federation, plan@)),
    {
        match plan {
            InputPlan::Skip => Step::Done(Ok(InputSigs::Nothing)),
            InputPlan::Stop(t) => Step::Done(Err(t)),
            InputPlan::Ecdsa(p) => {
                if p.relative.segments.len() == 0 {
                    let ghost prog = ecdsa::low_s_signing(federation, p.digest@);
                    let step = ecdsa::sign_with_low_s(federation, p.digest);
                    SignInput::signing(label, federation, p, federation, step, Ghost(prog))
                } else {
                    Step::Ask(
                        Request::DerivePath(federation, p.relative.clone()),
                        SignInput { label, federation, state: SignInputState::Deriving(p) },
                    )
                }
            },
            InputPlan::Taproot(p) => {
                if p.leaves.len() == 0 {
                    Step::Done(Ok(InputSigs::Nothing))
                } else if p.relative.segments.len() == 0 {
                    let done: Vec<TapScriptSig> = Vec::new();
                    assert(psbt::tap_sigs(done@) =~= Seq::<TapScriptSigView>::empty());
                    SignInput::next_leaf(label, federation, p, federation, done)
                } else {
                    Step::Ask(
                        Request::DerivePath(federation, p.relative.clone()),
                        SignInput { label, federation, state: SignInputState::DerivingTaproot(p) },
                    )
                }
            },
        }
    }
}

impl Machine for SignInput {
    fn resume(self, reply: Reply) -> (step: Step<SignInput, Result<InputSigs, String>>) {
        let label = self.label;
        let federation = self.federation;
        match self.state {
            SignInputState::Deriving(p) => match reply {
                Reply::Derived(Ok(used)) => {
                    let ghost prog = ecdsa::low_s_signing(used, p.digest@);
                    let step = ecdsa::sign_with_low_s(used, p.digest);
                    SignInput::signing(label, federation, p, used, step, Ghost(prog))
                },
                Reply::Derived(Err(e)) => Step::Done(Err(e.to_string())),
                _ => vstd::pervasive::unreached(),
            },
            SignInputState::Signing(p, used, m) => {
                let ghost prog = (m.prog()->Ask_1)(reply@);
                assert(prog.bind(then_drop_child(federation, p@, used)) !is Stuck);
                let step = m.resume(reply);
                SignInput::signing(label, federation, p, used, step, Ghost(prog))
            },
            SignInputState::DerivingTaproot(p) => match reply {
                Reply::Derived(Ok(used)) => {
                    let done: Vec<TapScriptSig> = Vec::new();
                    assert(psbt::tap_sigs(done@) =~= Seq::<TapScriptSigView>::empty());
                    SignInput::next_leaf(label, federation, p, used, done)
                },
                Reply::Derived(Err(e)) => Step::Done(Err(e.to_string())),
                _ => vstd::pervasive::unreached(),
            },
            SignInputState::SigningLeaf(p, used, done) => match reply {
                Reply::Schnorr(Ok(signature)) => {
                    let mut done = done;
                    let k: usize = done.len();
                    let ghost before = psbt::tap_sigs(done@);
                    assert(p@.leaves[k as int] == p.leaves@[k as int]@);
                    let sig = TapScriptSig {
                        key: p.key,
                        leaf_hash: p.leaves[k].leaf_hash,
                        signature,
                        sighash_type: p.sighash_type,
                    };
                    done.push(sig);
                    assert(psbt::tap_sigs(done@) =~= before.push(sig@));
                    SignInput::next_leaf(label, federation, p, used, done)
                },
                Reply::Schnorr(Err(e)) => {
                    let t = e.to_string();
                    SignInput::dropping(label, federation, used, Err(t))
                },
                _ => vstd::pervasive::unreached(),
            },
            SignInputState::Dropping(_, out) => match reply {
                Reply::Unit(_) => Step::Done(out),
                _ => vstd::pervasive::unreached(),
            },
        }
    }
}

} // verus!
