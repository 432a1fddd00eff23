//! Signing partially signed Elements transactions.
//!
//! The HSM signs a digest and sees nothing of what is confidential. Blinding
//! and proofs are made elsewhere; the digest is over what they give.
use crate::bip32::{ChildNumber, DerivationPath, Fingerprint};
use crate::ecdsa;
use crate::error::{Pkcs11Error, Pkcs11ErrorView};
use crate::outside;
use crate::policy;
use crate::policy::{CheckSigRate, LoadPolicy, MinimalHsmPolicy, PolicyView, RecordSigRate};
use crate::program;
use crate::program::{Machine, Operation, Prog, Reply, ReplyView, Request, RequestView, Step};
use crate::psbt;
use crate::psbt::{PartialSig, PartialSigView};
use crate::signing;
use crate::text;
use ::elements::encode::{deserialize, Error};
use ::elements::sighash::SighashCache;
use ::elements::{EcdsaSighashType, LockTime, Script, Transaction};
use vstd::prelude::*;
use vstd::string::*;

verus! {

// ---------------------------------------------------------------------------
// Transactions
// ---------------------------------------------------------------------------

/// What a list of byte strings says.
pub open spec fn byte_strings(list: Seq<Vec<u8>>) -> Seq<Seq<u8>> {
    list.map_values(|b: Vec<u8>| b@)
}

/// An Elements transaction without its signatures. Its inputs and outputs are in
/// their consensus encoding.
#[derive(Debug)]
pub struct ElementsTx {
    /// The version.
    pub version: u32,
    /// The lock time, in its consensus encoding.
    pub lock_time: u32,
    /// The inputs, encoded.
    pub input: Vec<Vec<u8>>,
    /// The outputs, encoded.
    pub output: Vec<Vec<u8>>,
}

/// What an [`ElementsTx`] says.
pub struct ElementsTxView {
    pub version: u32,
    pub lock_time: u32,
    pub input: Seq<Seq<u8>>,
    pub output: Seq<Seq<u8>>,
}

impl View for ElementsTx {
    type V = ElementsTxView;

    open spec fn view(&self) -> ElementsTxView {
        ElementsTxView {
            version: self.version,
            lock_time: self.lock_time,
            input: byte_strings(self.input@),
            output: byte_strings(self.output@),
        }
    }
}

/// Where a key of an input comes from.
#[derive(Debug)]
pub struct PsetKeyOrigin {
    /// The serialized public key.
    pub key: Vec<u8>,
    /// The fingerprint of the master key it descends from.
    pub fingerprint: Fingerprint,
    /// The path from that master key.
    pub path: DerivationPath,
}

/// What a [`PsetKeyOrigin`] says.
pub struct PsetKeyOriginView {
    pub key: Seq<u8>,
    pub fingerprint: Seq<u8>,
    pub path: Seq<ChildNumber>,
}

impl View for PsetKeyOrigin {
    type V = PsetKeyOriginView;

    open spec fn view(&self) -> PsetKeyOriginView {
        PsetKeyOriginView {
            key: self.key@,
            fingerprint: self.fingerprint@,
            path: self.path@,
        }
    }
}

/// What a list of origins says.
pub open spec fn pset_origins(list: Seq<PsetKeyOrigin>) -> Seq<PsetKeyOriginView> {
    list.map_values(|o: PsetKeyOrigin| o@)
}

/// What a signer reads and fills in one input.
#[derive(Debug)]
pub struct PsetInput {
    /// The keys that sign for the input, in the order of the keys.
    pub bip32_derivation: Vec<PsetKeyOrigin>,
    /// What the signatures should cover.
    pub sighash_type: Option<u32>,
    /// The script that the witness has to satisfy.
    pub witness_script: Option<Vec<u8>>,
    /// The amount of the output that the input spends, in its consensus
    /// encoding.
    pub witness_value: Option<Vec<u8>>,
    /// The signatures so far, each in DER with the byte that tells what it
    /// covers.
    pub partial_sigs: Vec<PartialSig>,
}

/// What a [`PsetInput`] says.
pub struct PsetInputView {
    pub bip32_derivation: Seq<PsetKeyOriginView>,
    pub sighash_type: Option<u32>,
    pub witness_script: Option<Seq<u8>>,
    pub witness_value: Option<Seq<u8>>,
    pub partial_sigs: Seq<PartialSigView>,
}

impl View for PsetInput {
    type V = PsetInputView;

    open spec fn view(&self) -> PsetInputView {
        PsetInputView {
            bip32_derivation: pset_origins(self.bip32_derivation@),
            sighash_type: self.sighash_type,
            witness_script: psbt::bytes_view(self.witness_script),
            witness_value: psbt::bytes_view(self.witness_value),
            partial_sigs: psbt::sigs(self.partial_sigs@),
        }
    }
}

/// What a list of inputs says.
pub open spec fn pset_inputs(list: Seq<PsetInput>) -> Seq<PsetInputView> {
    list.map_values(|i: PsetInput| i@)
}

/// A partially signed Elements transaction.
#[derive(Debug)]
pub struct Pset {
    /// The transaction without its signatures, or why there is none.
    pub unsigned_tx: Result<ElementsTx, String>,
    /// What signers need to know of each input.
    pub inputs: Vec<PsetInput>,
}

/// What a [`Pset`] says.
pub struct PsetView {
    pub unsigned_tx: Result<ElementsTxView, Seq<char>>,
    pub inputs: Seq<PsetInputView>,
}

impl View for Pset {
    type V = PsetView;

    open spec fn view(&self) -> PsetView {
        PsetView {
            unsigned_tx: match self.unsigned_tx {
                Ok(tx) => Ok(tx@),
                Err(t) => Err(t@),
            },
            inputs: pset_inputs(self.inputs@),
        }
    }
}

impl PsetView {
    /// The transaction has the inputs that are told of.
    pub open spec fn well_formed(self) -> bool {
        match self.unsigned_tx {
            Ok(tx) => tx.input.len() == self.inputs.len(),
            Err(_) => true,
        }
    }
}

/// What can go wrong.
#[derive(Debug)]
pub enum PsetError {
    /// With the signer.
    SignerBackend(String),
    /// With the transaction.
    Elements(String),
}

/// What a [`PsetError`] says.
pub enum PsetErrorView {
    SignerBackend(Seq<char>),
    Elements(Seq<char>),
}

impl View for PsetError {
    type V = PsetErrorView;

    open spec fn view(&self) -> PsetErrorView {
        match *self {
            PsetError::SignerBackend(t) => PsetErrorView::SignerBackend(t@),
            PsetError::Elements(t) => PsetErrorView::Elements(t@),
        }
    }
}

// ---------------------------------------------------------------------------
// The digest
// ---------------------------------------------------------------------------

/// The digest that a witness-version-zero script signature of an input of an
/// Elements transaction covers: by the transaction, the input's index, the
/// witness script, the encoded amount spent and the number that tells what is
/// covered. Or the words that refuse a part of the transaction.
pub uninterp spec fn elements_digest(
    tx: ElementsTxView,
    index: nat,
    script: Seq<u8>,
    value: Seq<u8>,
    sighash_type: u32,
) -> Result<Seq<u8>, Seq<char>>;

/// Calls `elements::sighash::SighashCache::segwitv0_sighash` on the transaction
/// that the encoded parts make up. It asks for an input with this index. The
/// digest, and the words that refuse a part which is no encoding, depend on the
/// arguments alone.
#[verifier::external_body]
fn elements_digest_of(
    tx: &ElementsTx,
    index: usize,
    script: &Vec<u8>,
    value: &Vec<u8>,
    sighash_type: u32,
) -> (res: Result<[u8; 32], String>)
    requires
        index < tx@.input.len(),
    ensures
        match res {
            Ok(digest) => elements_digest(tx@, index as nat, script@, value@, sighash_type)
                == Ok::<Seq<u8>, Seq<char>>(digest@),
            Err(e) => elements_digest(tx@, index as nat, script@, value@, sighash_type) == Err::<
                Seq<u8>,
                Seq<char>,
            >(e@),
        },
{
    let text = |e: Error| e.to_string();
    let input = tx.input.iter().map(|i| deserialize(i)).collect::<Result<_, _>>();
    let output = tx.output.iter().map(|o| deserialize(o)).collect::<Result<_, _>>();
    let tx = Transaction {
        version: tx.version,
        lock_time: LockTime::from_consensus(tx.lock_time),
        input: input.map_err(text)?,
        output: output.map_err(text)?,
    };
    let kind = EcdsaSighashType::from_u32(sighash_type);
    let script = Script::from(script.clone());
    let value = deserialize(value).map_err(text)?;
    Ok(*SighashCache::new(&tx).segwitv0_sighash(index, &script, value, kind).as_ref())
}

// ---------------------------------------------------------------------------
// Plans
// ---------------------------------------------------------------------------

/// The first key that descends from this master key.
pub open spec fn own_pset_origin(list: Seq<PsetKeyOriginView>, fingerprint: Seq<u8>) -> Option<
    PsetKeyOriginView,
>
    decreases list.len(),
{
    if list.len() == 0 {
        None
    } else if list[0].fingerprint == fingerprint {
        Some(list[0])
    } else {
        own_pset_origin(list.drop_first(), fingerprint)
    }
}

fn find_own_pset_origin(list: &Vec<PsetKeyOrigin>, fingerprint: &Fingerprint) -> (found: Option<
    usize,
>)
    ensures
        match found {
            Some(i) => i < list@.len() && own_pset_origin(pset_origins(list@), fingerprint@)
                == Some(list@[i as int]@),
            None => own_pset_origin(pset_origins(list@), fingerprint@) is None,
        },
{
    let n: usize = list.len();
    let mut i: usize = 0;
    let ghost all = pset_origins(list@);
    assert(all.skip(0) =~= all);
    while i < n
        invariant
            i <= n,
            n == list@.len(),
            all == pset_origins(list@),
            own_pset_origin(all, fingerprint@) == own_pset_origin(all.skip(i as int), fingerprint@),
        decreases n - i,
    {
        assert(all.skip(i as int)[0] == list@[i as int]@);
        if list[i].fingerprint.same(fingerprint) {
            return Some(i);
        }
        assert(all.skip(i as int).drop_first() =~= all.skip(i + 1));
        i = i + 1;
    }
    None
}

/// Whether a key of the input descends from this master key.
pub open spec fn own_input(fingerprint: Seq<u8>, input: PsetInputView) -> bool {
    own_pset_origin(input.bip32_derivation, fingerprint) is Some
}

/// Whether any of the inputs is this signer's.
pub open spec fn any_own(fingerprint: Seq<u8>, inputs: Seq<PsetInputView>) -> bool {
    exists|i: int| 0 <= i < inputs.len() && own_input(fingerprint, #[trigger] inputs[i])
}

fn has_own_input(pset: &Pset, fingerprint: &Fingerprint) -> (b: bool)
    ensures
        b == any_own(fingerprint@, pset@.inputs),
{
    let n: usize = pset.inputs.len();
    let mut i: usize = 0;
    while i < n
        invariant
            i <= n,
            n == pset@.inputs.len(),
            n == pset.inputs@.len(),
            forall|j: int| 0 <= j < i ==> !own_input(fingerprint@, #[trigger] pset@.inputs[j]),
        decreases n - i,
    {
        assert(pset@.inputs[i as int] == pset.inputs@[i as int]@);
        if find_own_pset_origin(&pset.inputs[i].bip32_derivation, fingerprint).is_some() {
            assert(own_input(fingerprint@, pset@.inputs[i as int]));
            return true;
        }
        i = i + 1;
    }
    false
}

/// What to do for one input.
#[derive(Debug)]
pub enum PsetPlan {
    /// The input is not this signer's.
    Skip,
    /// The input is this signer's, and cannot be signed.
    Stop(PsetError),
    /// Sign.
    Sign {
        /// The serialized public key.
        key: Vec<u8>,
        /// The path from the master key.
        path: DerivationPath,
        /// What to sign.
        digest: [u8; 32],
        /// The number that tells what is covered.
        sighash_type: u32,
    },
}

/// What a [`PsetPlan`] says.
pub enum PsetPlanView {
    Skip,
    Stop(PsetErrorView),
    Sign { key: Seq<u8>, path: Seq<ChildNumber>, digest: Seq<u8>, sighash_type: u32 },
}

impl View for PsetPlan {
    type V = PsetPlanView;

    open spec fn view(&self) -> PsetPlanView {
        match *self {
            PsetPlan::Skip => PsetPlanView::Skip,
            PsetPlan::Stop(e) => PsetPlanView::Stop(e@),
            PsetPlan::Sign { key, path, digest, sighash_type } => PsetPlanView::Sign {
                key: key@,
                path: path@,
                digest: digest@,
                sighash_type,
            },
        }
    }
}

/// The number for an input's signatures: the one it asks for, if that is
/// standard, and else the one for all.
pub open spec fn pset_sighash(asked: Option<u32>) -> u32 {
    match asked {
        Some(n) if signing::standard_sighash(n) => n,
        _ => signing::SIGHASH_ALL,
    }
}

fn choose_pset_sighash(asked: Option<u32>) -> (n: u32)
    ensures
        n == pset_sighash(asked),
{
    match asked {
        Some(n) => if n == 0x01 || n == 0x02 || n == 0x03 || n == 0x81 || n == 0x82 || n == 0x83 {
            n
        } else {
            signing::SIGHASH_ALL
        },
        None => signing::SIGHASH_ALL,
    }
}

/// The plan for an input.
pub open spec fn pset_plan(
    tx: ElementsTxView,
    input: PsetInputView,
    index: nat,
    fingerprint: Seq<u8>,
) -> PsetPlanView {
    match own_pset_origin(input.bip32_derivation, fingerprint) {
        None => PsetPlanView::Skip,
        Some(own) => match (input.witness_script, input.witness_value) {
            (None, _) => PsetPlanView::Stop(
                PsetErrorView::Elements(
                    "input "@ + text::decimal(index)
                        + " missing witness_script (only P2WSH multi-sig is supported by Pkcs11Signer in v1)"@,
                ),
            ),
            (_, None) => PsetPlanView::Stop(
                PsetErrorView::Elements(
                    "input "@ + text::decimal(index) + " missing witness_utxo"@,
                ),
            ),
            (Some(script), Some(value)) => {
                let sighash_type = pset_sighash(input.sighash_type);
                match elements_digest(tx, index, script, value, sighash_type) {
                    Err(e) => PsetPlanView::Stop(PsetErrorView::Elements(e)),
                    Ok(digest) => PsetPlanView::Sign {
                        key: own.key,
                        path: own.path,
                        digest,
                        sighash_type,
                    },
                }
            },
        },
    }
}

/// Makes the plan for an input.
pub fn plan_pset_input(tx: &ElementsTx, input: &PsetInput, index: usize, fingerprint: &Fingerprint) -> (plan:
    PsetPlan)
    requires
        index < tx@.input.len(),
    ensures
        plan@ == pset_plan(tx@, input@, index as nat, fingerprint@),
{
    let own = match find_own_pset_origin(&input.bip32_derivation, fingerprint) {
        Some(i) => i,
        None => {
            return PsetPlan::Skip;
        },
    };
    let sighash_type = choose_pset_sighash(input.sighash_type);
    let script = match &input.witness_script {
        Some(script) => script,
        None => {
            return PsetPlan::Stop(
                PsetError::Elements(
                    text::join3(
                        "input ",
                        text::decimal_text(index as u64).as_str(),
                        " missing witness_script (only P2WSH multi-sig is supported by Pkcs11Signer in v1)",
                    ),
                ),
            );
        },
    };
    let value = match &input.witness_value {
        Some(value) => value,
        None => {
            return PsetPlan::Stop(
                PsetError::Elements(
                    text::join3(
                        "input ",
                        text::decimal_text(index as u64).as_str(),
                        " missing witness_utxo",
                    ),
                ),
            );
        },
    };
    match elements_digest_of(tx, index, script, value, sighash_type) {
        Err(e) => PsetPlan::Stop(PsetError::Elements(e)),
        Ok(digest) => PsetPlan::Sign {
            key: vstd::slice::slice_to_vec(input.bip32_derivation[own].key.as_slice()),
            path: input.bip32_derivation[own].path.clone(),
            digest,
            sighash_type,
        },
    }
}

// ---------------------------------------------------------------------------
// The program
// ---------------------------------------------------------------------------

/// What signing gives: the transaction with what was signed in it, and how many
/// inputs were signed or what went wrong. What was signed before something went
/// wrong is in it too, if it was counted.
pub type SignedPset = (PsetView, Result<nat, PsetErrorView>);

/// The signature for an input: in DER, with its second number in the lower half,
/// and the byte that tells what it covers behind it.
pub open spec fn pset_sig(key: Seq<u8>, compact: Seq<u8>, sighash_type: u32) -> PartialSigView {
    PartialSigView {
        key,
        signature: outside::der_signature(ecdsa::low_s(compact)).push(sighash_type as u8),
        sighash_type,
    }
}

/// An input with the signature in it, if there is one.
pub open spec fn with_pset_sig(input: PsetInputView, sig: Option<PartialSigView>) -> PsetInputView {
    match sig {
        Some(s) => PsetInputView { partial_sigs: psbt::with_sig(input.partial_sigs, s), ..input },
        None => input,
    }
}

/// A transaction with the signatures in its first inputs, one entry for each.
pub open spec fn with_pset_sigs(pset: PsetView, done: Seq<Option<PartialSigView>>) -> PsetView {
    PsetView {
        inputs: Seq::new(
            pset.inputs.len(),
            |i: int|
                if i < done.len() {
                    with_pset_sig(pset.inputs[i], done[i])
                } else {
                    pset.inputs[i]
                },
        ),
        ..pset
    }
}

/// How many signatures there are.
pub open spec fn signed_count(done: Seq<Option<PartialSigView>>) -> nat
    decreases done.len(),
{
    if done.len() == 0 {
        0
    } else {
        signed_count(done.drop_last()) + if done.last() is Some {
            1nat
        } else {
            0nat
        }
    }
}

/// What a list of signatures says.
pub open spec fn pset_signatures(list: Seq<Option<PartialSig>>) -> Seq<Option<PartialSigView>> {
    list.map_values(
        |s: Option<PartialSig>|
            match s {
                Some(s) => Some(s@),
                None => None,
            },
    )
}

/// What follows once a signature is counted, or may not be: what is not counted is
/// not handed back.
pub open spec fn then_hand_back_pset(
    pset: PsetView,
    done: Seq<Option<PartialSigView>>,
    outcome: Result<(), PsetErrorView>,
) -> spec_fn(Result<(), Pkcs11ErrorView>) -> Prog<SignedPset> {
    |d: Result<(), Pkcs11ErrorView>|
        match (d, outcome) {
            (Ok(_), Ok(_)) => Prog::Done((with_pset_sigs(pset, done), Ok(signed_count(done)))),
            (Ok(_), Err(e)) => Prog::Done((with_pset_sigs(pset, done), Err(e))),
            (Err(_), Err(e)) => Prog::Done((pset, Err(e))),
            (Err(e), Ok(_)) => Prog::Done((pset, Err(PsetErrorView::SignerBackend(e.text())))),
        }
}

/// Ends with this outcome. If any input was signed, one signature is counted.
pub open spec fn pset_finishing(
    label: Seq<char>,
    max: Option<u32>,
    pset: PsetView,
    done: Seq<Option<PartialSigView>>,
    outcome: Result<(), PsetErrorView>,
) -> Prog<SignedPset> {
    if signed_count(done) > 0 {
        policy::rate_recording(label, max).bind(then_hand_back_pset(pset, done, outcome))
    } else {
        Prog::Done(
            (
                pset,
                match outcome {
                    Ok(_) => Ok(0),
                    Err(e) => Err(e),
                },
            ),
        )
    }
}

/// Signs the inputs behind those that are done, each with the key that the strategy
/// picks for its path. The first that cannot be signed ends it.
pub open spec fn pset_inputs_signing(
    label: Seq<char>,
    fingerprint: Seq<u8>,
    max: Option<u32>,
    tx: ElementsTxView,
    pset: PsetView,
    done: Seq<Option<PartialSigView>>,
) -> Prog<SignedPset>
    decreases pset.inputs.len() - done.len(),
{
    if done.len() >= pset.inputs.len() {
        pset_finishing(label, max, pset, done, Ok(()))
    } else {
        match pset_plan(tx, pset.inputs[done.len() as int], done.len(), fingerprint) {
            PsetPlanView::Skip => pset_inputs_signing(
                label,
                fingerprint,
                max,
                tx,
                pset,
                done.push(None),
            ),
            PsetPlanView::Stop(e) => pset_finishing(label, max, pset, done, Err(e)),
            PsetPlanView::Sign { key, path, digest, sighash_type } => Prog::Ask(
                RequestView::StrategySign(path, digest),
                |r: ReplyView|
                    match r {
                        ReplyView::StrategySignature(Ok(compact)) => if ecdsa::valid_compact(
                            compact,
                        ) {
                            pset_inputs_signing(
                                label,
                                fingerprint,
                                max,
                                tx,
                                pset,
                                done.push(Some(pset_sig(key, compact, sighash_type))),
                            )
                        } else {
                            Prog::Stuck
                        },
                        ReplyView::StrategySignature(Err(e)) => pset_finishing(
                            label,
                            max,
                            pset,
                            done,
                            Err(PsetErrorView::SignerBackend(e.text())),
                        ),
                        _ => Prog::Stuck,
                    },
            ),
        }
    }
}

/// What follows once the count of signatures is held against the ceiling.
pub open spec fn then_sign_inputs(
    label: Seq<char>,
    fingerprint: Seq<u8>,
    max: Option<u32>,
    tx: ElementsTxView,
    pset: PsetView,
) -> spec_fn(Result<(), Pkcs11ErrorView>) -> Prog<SignedPset> {
    |d: Result<(), Pkcs11ErrorView>|
        match d {
            Ok(_) => pset_inputs_signing(
                label,
                fingerprint,
                max,
                tx,
                pset,
                Seq::empty(),
            ),
            Err(e) => Prog::Done((pset, Err(PsetErrorView::SignerBackend(e.text())))),
        }
}

/// What follows once the policy is read. Where no input is this signer's there is
/// nothing to sign, and no count to look at.
pub open spec fn then_sign_pset(label: Seq<char>, fingerprint: Seq<u8>, pset: PsetView) -> spec_fn(
    Result<PolicyView, Pkcs11ErrorView>,
) -> Prog<SignedPset> {
    |d: Result<PolicyView, Pkcs11ErrorView>|
        match d {
            Err(e) => Prog::Done((pset, Err(PsetErrorView::SignerBackend(e.text())))),
            Ok(p) => match pset.unsigned_tx {
                Err(t) => Prog::Done((pset, Err(PsetErrorView::Elements(t)))),
                Ok(tx) => if any_own(fingerprint, pset.inputs) {
                    policy::rate_checking(label, p.max_signatures_per_hour).bind(
                        then_sign_inputs(
                            label,
                            fingerprint,
                            p.max_signatures_per_hour,
                            tx,
                            pset,
                        ),
                    )
                } else {
                    Prog::Done((pset, Ok(0)))
                },
            },
        }
}

/// Signs a transaction: reads the policy, holds the count of signatures against
/// its ceiling, signs the inputs that are this signer's, and counts a signature.
/// The amounts are confidential, so that of the policy only the ceiling on
/// signatures applies.
pub open spec fn pset_signing(label: Seq<char>, fingerprint: Seq<u8>, pset: PsetView) -> Prog<
    SignedPset,
> {
    policy::policy_loading(label).bind(then_sign_pset(label, fingerprint, pset))
}

// ---------------------------------------------------------------------------
// The machine
// ---------------------------------------------------------------------------

enum SignPsetState {
    Loading(LoadPolicy),
    Checking(MinimalHsmPolicy, CheckSigRate),
    Signing {
        policy: MinimalHsmPolicy,
        done: Vec<Option<PartialSig>>,
        key: Vec<u8>,
        path: DerivationPath,
        digest: [u8; 32],
        sighash_type: u32,
    },
    Recording(Vec<Option<PartialSig>>, Result<(), PsetError>, RecordSigRate),
}

/// Signs a partially signed Elements transaction.
pub struct SignPset {
    label: String,
    fingerprint: Fingerprint,
    pset: Pset,
    state: SignPsetState,
}

/// What a result says.
pub open spec fn pset_outcome(r: Result<(), PsetError>) -> Result<(), PsetErrorView> {
    match r {
        Ok(u) => Ok(u),
        Err(e) => Err(e@),
    }
}

impl Operation for SignPset {
    type Out = (Pset, Result<usize, PsetError>);

    type OutView = SignedPset;

    closed spec fn prog(self) -> Prog<SignedPset> {
        match self.state {
            SignPsetState::Loading(m) if m.prog() is Ask && self.pset@.well_formed()
                => m.prog().bind(then_sign_pset(self.label@, self.fingerprint@, self.pset@)),
            SignPsetState::Checking(policy, inner) if {
                &&& inner.prog() is Ask
                &&& self.pset@.unsigned_tx is Ok
                &&& self.pset@.well_formed()
            } => inner.prog().bind(
                then_sign_inputs(
                    self.label@,
                    self.fingerprint@,
                    policy@.max_signatures_per_hour,
                    self.pset@.unsigned_tx->Ok_0,
                    self.pset@,
                ),
            ),
            SignPsetState::Signing { policy, done, key, path, digest, sighash_type } if {
                &&& self.pset@.unsigned_tx is Ok
                &&& self.pset@.well_formed()
                &&& done@.len() < self.pset@.inputs.len()
                &&& sighash_type < 256
                &&& pset_plan(
                    self.pset@.unsigned_tx->Ok_0,
                    self.pset@.inputs[done@.len() as int],
                    done@.len(),
                    self.fingerprint@,
                ) == (PsetPlanView::Sign { key: key@, path: path@, digest: digest@, sighash_type })
            } => pset_inputs_signing(
                self.label@,
                self.fingerprint@,
                policy@.max_signatures_per_hour,
                self.pset@.unsigned_tx->Ok_0,
                self.pset@,
                pset_signatures(done@),
            ),
            SignPsetState::Recording(done, outcome, inner) if inner.prog() is Ask && done@.len()
                <= self.pset@.inputs.len() => inner.prog().bind(
                then_hand_back_pset(self.pset@, pset_signatures(done@), pset_outcome(outcome)),
            ),
            _ => Prog::Stuck,
        }
    }

    open spec fn out_view(out: (Pset, Result<usize, PsetError>)) -> SignedPset {
        (
            out.0@,
            match out.1 {
                Ok(n) => Ok(n as nat),
                Err(e) => Err(e@),
            },
        )
    }
}

impl SignPset {
    fn loading(
        label: String,
        fingerprint: Fingerprint,
        pset: Pset,
        step: Step<LoadPolicy, Result<MinimalHsmPolicy, Pkcs11Error>>,
        Ghost(prog): Ghost<Prog<Result<PolicyView, Pkcs11ErrorView>>>,
    ) -> (next: Step<SignPset, (Pset, Result<usize, PsetError>)>)
        requires
            program::runs_as(step, prog),
            pset@.well_formed(),
        ensures
            program::runs_as(next, prog.bind(then_sign_pset(label@, fingerprint@, pset@))),
    {
        match step {
            Step::Ask(q, m) => Step::Ask(
                q,
                SignPset { label, fingerprint, pset, state: SignPsetState::Loading(m) },
            ),
            Step::Done(Err(e)) => {
                let t = e.to_string();
                Step::Done((pset, Err(PsetError::SignerBackend(t))))
            },
            Step::Done(Ok(policy)) => {
                if let Err(t) = &pset.unsigned_tx {
                    let t = t.clone();
                    return Step::Done((pset, Err(PsetError::Elements(t))));
                }
                if has_own_input(&pset, &fingerprint) {
                    let ghost rest = policy::rate_checking(
                        label@,
                        policy@.max_signatures_per_hour,
                    );
                    let step = policy::check_sigrate(label.as_str(), &policy);
                    SignPset::checking(label, fingerprint, pset, policy, step, Ghost(rest))
                } else {
                    Step::Done((pset, Ok(0)))
                }
            },
        }
    }

    fn checking(
        label: String,
        fingerprint: Fingerprint,
        pset: Pset,
        policy: MinimalHsmPolicy,
        step: Step<CheckSigRate, Result<(), Pkcs11Error>>,
        Ghost(prog): Ghost<Prog<Result<(), Pkcs11ErrorView>>>,
    ) -> (next: Step<SignPset, (Pset, Result<usize, PsetError>)>)
        requires
            program::runs_as(step, prog),
            pset@.unsigned_tx is Ok,
            pset@.well_formed(),
        ensures
            program::runs_as(
                next,
                prog.bind(
                    then_sign_inputs(
                        label@,
                        fingerprint@,
                        policy@.max_signatures_per_hour,
                        pset@.unsigned_tx->Ok_0,
                        pset@,
                    ),
                ),
            ),
    {
        match step {
            Step::Ask(q, inner) => Step::Ask(
                q,
                SignPset {
                    label,
                    fingerprint,
                    pset,
                    state: SignPsetState::Checking(policy, inner),
                },
            ),
            Step::Done(Err(e)) => {
                let t = e.to_string();
                Step::Done((pset, Err(PsetError::SignerBackend(t))))
            },
            Step::Done(Ok(_)) => {
                let done: Vec<Option<PartialSig>> = Vec::new();
                assert(pset_signatures(done@) =~= Seq::<Option<PartialSigView>>::empty());
                SignPset::inputs(label, fingerprint, pset, policy, done)
            },
        }
    }

    fn recording(
        label: String,
        fingerprint: Fingerprint,
        pset: Pset,
        done: Vec<Option<PartialSig>>,
        outcome: Result<(), PsetError>,
        step: Step<RecordSigRate, Result<(), Pkcs11Error>>,
        Ghost(prog): Ghost<Prog<Result<(), Pkcs11ErrorView>>>,
    ) -> (next: Step<SignPset, (Pset, Result<usize, PsetError>)>)
        requires
            program::runs_as(step, prog),
            done@.len() <= pset@.inputs.len(),
        ensures
            program::runs_as(
                next,
                prog.bind(
                    then_hand_back_pset(pset@, pset_signatures(done@), pset_outcome(outcome)),
                ),
            ),
    {
        match step {
            Step::Ask(q, inner) => Step::Ask(
                q,
                SignPset {
                    label,
                    fingerprint,
                    pset,
                    state: SignPsetState::Recording(done, outcome, inner),
                },
            ),
            Step::Done(Ok(_)) => {
                let signed = SignPset::count(&done);
                let filled = SignPset::put_all(pset, done);
                match outcome {
                    Ok(_) => Step::Done((filled, Ok(signed))),
                    Err(e) => Step::Done((filled, Err(e))),
                }
            },
            Step::Done(Err(e)) => match outcome {
                Ok(_) => {
                    let t = e.to_string();
                    Step::Done((pset, Err(PsetError::SignerBackend(t))))
                },
                Err(e) => Step::Done((pset, Err(e))),
            },
        }
    }

    fn finish(
        label: String,
        fingerprint: Fingerprint,
        pset: Pset,
        policy: MinimalHsmPolicy,
        done: Vec<Option<PartialSig>>,
        outcome: Result<(), PsetError>,
    ) -> (next: Step<SignPset, (Pset, Result<usize, PsetError>)>)
        requires
            done@.len() <= pset@.inputs.len(),
        ensures
            program::runs_as(
                next,
                pset_finishing(
                    label@,
                    policy@.max_signatures_per_hour,
                    pset@,
                    pset_signatures(done@),
                    pset_outcome(outcome),
                ),
            ),
    {
        if SignPset::count(&done) > 0 {
            let ghost prog = policy::rate_recording(label@, policy@.max_signatures_per_hour);
            let step = policy::check_and_record_sigrate(label.as_str(), &policy);
            SignPset::recording(label, fingerprint, pset, done, outcome, step, Ghost(prog))
        } else {
            match outcome {
                Ok(_) => Step::Done((pset, Ok(0))),
                Err(e) => Step::Done((pset, Err(e))),
            }
        }
    }

    #[verifier::loop_isolation(false)]
    fn inputs(
        label: String,
        fingerprint: Fingerprint,
        pset: Pset,
        policy: MinimalHsmPolicy,
        done: Vec<Option<PartialSig>>,
    ) -> (next: Step<SignPset, (Pset, Result<usize, PsetError>)>)
        requires
            pset@.unsigned_tx is Ok,
            pset@.well_formed(),
            done@.len() <= pset@.inputs.len(),
        ensures
            program::runs_as(
                next,
                pset_inputs_signing(
                    label@,
                    fingerprint@,
                    policy@.max_signatures_per_hour,
                    pset@.unsigned_tx->Ok_0,
                    pset@,
                    pset_signatures(done@),
                ),
            ),
    {
        let n: usize = pset.inputs.len();
        let mut done = done;
        let ghost max = policy@.max_signatures_per_hour;
        let ghost tx = pset@.unsigned_tx->Ok_0;
        let ghost whole = pset_inputs_signing(
            label@,
            fingerprint@,
            max,
            tx,
            pset@,
            pset_signatures(done@),
        );
        while done.len() < n
            invariant
                n == pset@.inputs.len(),
                n == pset.inputs@.len(),
                done@.len() <= n,
                pset@.unsigned_tx is Ok,
                pset@.well_formed(),
                tx == pset@.unsigned_tx->Ok_0,
                max == policy@.max_signatures_per_hour,
                whole == pset_inputs_signing(
                    label@,
                    fingerprint@,
                    max,
                    tx,
                    pset@,
                    pset_signatures(done@),
                ),
            decreases n - done.len(),
        {
            let i: usize = done.len();
            let plan = match &pset.unsigned_tx {
                Ok(tx) => plan_pset_input(tx, &pset.inputs[i], i, &fingerprint),
                Err(_) => vstd::pervasive::unreached(),
            };
            match plan {
                PsetPlan::Skip => {
                    let ghost before = pset_signatures(done@);
                    done.push(None);
                    assert(pset_signatures(done@) =~= before.push(None));
                },
                PsetPlan::Stop(e) => {
                    return SignPset::finish(label, fingerprint, pset, policy, done, Err(e));
                },
                PsetPlan::Sign { key, path, digest, sighash_type } => {
                    return Step::Ask(
                        Request::StrategySign(path.clone(), digest),
                        SignPset {
                            label,
                            fingerprint,
                            pset,
                            state: SignPsetState::Signing {
                                policy,
                                done,
                                key,
                                path,
                                digest,
                                sighash_type,
                            },
                        },
                    );
                },
            }
        }
        SignPset::finish(label, fingerprint, pset, policy, done, Ok(()))
    }

    fn count(done: &Vec<Option<PartialSig>>) -> (signed: usize)
        ensures
            signed == signed_count(pset_signatures(done@)),
    {
        let n: usize = done.len();
        let mut i: usize = 0;
        let mut signed: usize = 0;
        let ghost all = pset_signatures(done@);
        while i < n
            invariant
                i <= n,
                n == done@.len(),
                signed <= i,
                all == pset_signatures(done@),
                signed == signed_count(all.take(i as int)),
            decreases n - i,
        {
            assert(all.take(i + 1).drop_last() =~= all.take(i as int));
            if done[i].is_some() {
                signed = signed + 1;
            }
            i = i + 1;
        }
        assert(all.take(n as int) =~= all);
        signed
    }

    fn put_all(pset: Pset, done: Vec<Option<PartialSig>>) -> (filled: Pset)
        requires
            done@.len() <= pset@.inputs.len(),
        ensures
            filled@ == with_pset_sigs(pset@, pset_signatures(done@)),
    {
        let mut pset = pset;
        let mut done = done;
        let ghost start = pset@;
        let ghost all = pset_signatures(done@);
        while done.len() > 0
            invariant
                done@.len() <= all.len() <= start.inputs.len(),
                pset@.inputs.len() == start.inputs.len(),
                pset@.unsigned_tx == start.unsigned_tx,
                forall|i: int|
                    0 <= i < done@.len() ==> #[trigger] pset_signatures(done@)[i] == all[i],
                forall|i: int|
                    0 <= i < start.inputs.len() ==> #[trigger] pset@.inputs[i] == (if done@.len()
                        <= i < all.len() {
                        with_pset_sig(start.inputs[i], all[i])
                    } else {
                        start.inputs[i]
                    }),
            decreases done@.len(),
        {
            let index: usize = done.len() - 1;
            assert(pset_signatures(done@)[index as int] == all[index as int]);
            assert(pset@.inputs[index as int] == start.inputs[index as int]);
            let ghost before = pset@;
            let ghost held = pset_signatures(done@);
            let last = done.pop();
            assert(pset_signatures(done@) =~= held.drop_last());
            match last {
                Some(Some(sig)) => {
                    let ghost new = sig@;
                    psbt::insert_sig(&mut pset.inputs[index].partial_sigs, sig);
                    assert(pset@.inputs =~= before.inputs.update(
                        index as int,
                        with_pset_sig(before.inputs[index as int], Some(new)),
                    ));
                },
                _ => {},
            }
        }
        assert(pset@.inputs =~= with_pset_sigs(start, all).inputs);
        pset
    }

    fn signature(key: Vec<u8>, compact: [u8; 64], sighash_type: u32) -> (sig: PartialSig)
        requires
            ecdsa::valid_compact(compact@),
            sighash_type < 256,
        ensures
            sig@ == pset_sig(key@, compact@, sighash_type),
    {
        let low = outside::normalize_s(&compact);
        proof {
            ecdsa::law_low_s(compact@);
        }
        let mut signature = outside::serialize_der(&low);
        signature.push(sighash_type as u8);
        PartialSig { key, signature, sighash_type }
    }
}

impl Machine for SignPset {
    fn resume(self, reply: Reply) -> (step: Step<SignPset, (Pset, Result<usize, PsetError>)>) {
        let label = self.label;
        let fingerprint = self.fingerprint;
        let pset = self.pset;
        match self.state {
            SignPsetState::Loading(m) => {
                let ghost prog = (m.prog()->Ask_1)(reply@);
                assert(prog.bind(then_sign_pset(label@, fingerprint@, pset@)) !is Stuck);
                let step = m.resume(reply);
                SignPset::loading(label, fingerprint, pset, step, Ghost(prog))
            },
            SignPsetState::Checking(policy, inner) => {
                let ghost prog = (inner.prog()->Ask_1)(reply@);
                let ghost then = then_sign_inputs(
                    label@,
                    fingerprint@,
                    policy@.max_signatures_per_hour,
                    pset@.unsigned_tx->Ok_0,
                    pset@,
                );
                assert(prog.bind(then) !is Stuck);
                let step = inner.resume(reply);
                SignPset::checking(label, fingerprint, pset, policy, step, Ghost(prog))
            },
            SignPsetState::Signing { policy, done, key, sighash_type, .. } => match reply {
                Reply::StrategySignature(Ok(compact)) => {
                    let mut done = done;
                    let ghost before = pset_signatures(done@);
                    let sig = SignPset::signature(key, compact, sighash_type);
                    let ghost new = sig@;
                    done.push(Some(sig));
                    assert(pset_signatures(done@) =~= before.push(Some(new)));
                    SignPset::inputs(label, fingerprint, pset, policy, done)
                },
                Reply::StrategySignature(Err(e)) => {
                    let t = e.to_string();
                    let outcome = Err(PsetError::SignerBackend(t));
                    SignPset::finish(label, fingerprint, pset, policy, done, outcome)
                },
                _ => vstd::pervasive::unreached(),
            },
            SignPsetState::Recording(done, outcome, inner) => {
                let ghost prog = (inner.prog()->Ask_1)(reply@);
                let ghost then = then_hand_back_pset(
                    pset@,
                    pset_signatures(done@),
                    pset_outcome(outcome),
                );
                assert(prog.bind(then) !is Stuck);
                let step = inner.resume(reply);
                SignPset::recording(label, fingerprint, pset, done, outcome, step, Ghost(prog))
            },
        }
    }
}

/// Signs the inputs of a transaction that descend from the master key with this
/// fingerprint. The result tells how many they are.
pub fn sign_pset(label: &str, fingerprint: Fingerprint, pset: Pset) -> (step: Step<
    SignPset,
    (Pset, Result<usize, PsetError>),
>)
    requires
        pset@.well_formed(),
    ensures
        program::runs_as(step, pset_signing(label@, fingerprint@, pset@)),
{
    let ghost prog = policy::policy_loading(label@);
    let step = policy::load_policy(label);
    SignPset::loading(label.to_owned(), fingerprint, pset, step, Ghost(prog))
}

} // verus!
