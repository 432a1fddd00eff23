//! Every operation comes to an end.
use crate::backend;
use crate::backend::VendorIds;
use crate::bip32::{ChildNumber, XpubView};
use crate::config::SlotView;
use crate::ecdsa;
use crate::elements;
use crate::elements::{ElementsTxView, PsetErrorView, PsetPlanView, PsetView, SignedPset};
use crate::error::{HsmBackendErrorView, Pkcs11ErrorView};
use crate::fleet;
use crate::fleet::{KeyInitView, MemberView};
use crate::key_ops;
use crate::key_ops::LoadedKey;
use crate::policy;
use crate::policy::PolicyView;
use crate::program::{MasterKeyView, Prog, ReplyView, RequestView};
use crate::psbt::{PartialSigView, PsbtView, TapScriptSigView};
use crate::session;
use crate::signer;
use crate::signer::{ProfileView, SignerOptions, SignerView};
use crate::signing;
use crate::signing::{EcdsaPlanView, InputPlanView, InputSigsView, SigningKeyView, TaprootPlanView};
use crate::store;
use crate::token::{ObjectHandle, TokenErrorView};
use crate::transaction;
use vstd::prelude::*;

verus! {

/// Whether a reply is one to the request. A strategy signs with two numbers below
/// the group order.
pub open spec fn fits(q: RequestView, r: ReplyView) -> bool {
    match q {
        RequestView::LoadLibrary(_) => r is Unit,
        RequestView::Initialize => r is Unit,
        RequestView::SlotsWithToken => r is Slots,
        RequestView::SlotLabel(_) => r is Label,
        RequestView::OpenSession(_) => r is Unit,
        RequestView::Login(_) => r is Unit,
        RequestView::TokenLabel => r is Label,
        RequestView::MechanismList => r is Mechanisms,
        RequestView::FindObjects(_) => r is Handles,
        RequestView::GetAttributes(_, _) => r is Attributes,
        RequestView::CreateObject(_) => r is Handle,
        RequestView::DestroyObject(_) => r is Unit,
        RequestView::DeriveKey { .. } => r is Handle,
        RequestView::SignEcdsa(_, _) => r is Signature,
        RequestView::DeriveChild(_, _) => r is Derived,
        RequestView::DeriveMasterKey(_, _) => r is Master,
        RequestView::DerivePath(_, _) => r is Derived,
        RequestView::ReadXpub(_) => r is Xpub,
        RequestView::MasterFingerprint(_) => r is MasterFingerprint,
        RequestView::SignSchnorr { .. } => r is Schnorr,
        RequestView::StrategySign(_, _) => match r {
            ReplyView::StrategySignature(Ok(compact)) => ecdsa::valid_compact(compact),
            ReplyView::StrategySignature(Err(_)) => true,
            _ => false,
        },
        RequestView::DecodePolicy(_) => r is Policy,
        RequestView::DecodeSigRate(_) => r is SigRate,
        RequestView::EncodePolicy(_) => r is Encoded,
        RequestView::EncodeSigRate(_) => r is Encoded,
        RequestView::Now => r is Time,
        RequestView::BuildMember(_) => r is Built,
    }
}

/// Whether the program, as long as the replies fit, never gets stuck, and comes
/// to something `good`.
pub open spec fn comes_to<A>(prog: Prog<A>, good: spec_fn(A) -> bool) -> bool
    decreases prog,
{
    match prog {
        Prog::Done(a) => good(a),
        Prog::Ask(q, next) => forall|r: ReplyView|
            fits(q, r) ==> comes_to(#[trigger] next(r), good),
        Prog::Stuck => false,
    }
}

/// Whether the program comes to an end as long as the replies fit.
pub open spec fn ends<A>(prog: Prog<A>) -> bool {
    comes_to(prog, |a: A| true)
}

proof fn lemma_bind<A, B>(
    prog: Prog<A>,
    next: spec_fn(A) -> Prog<B>,
    middle: spec_fn(A) -> bool,
    good: spec_fn(B) -> bool,
)
    requires
        comes_to(prog, middle),
        forall|a: A| middle(a) ==> comes_to(#[trigger] next(a), good),
    ensures
        comes_to(prog.bind(next), good),
    decreases prog,
{
    match prog {
        Prog::Ask(q, k) => {
            let rest = prog.bind(next)->Ask_1;
            assert(forall|r: ReplyView| #[trigger] rest(r) == k(r).bind(next));
            assert forall|r: ReplyView| fits(q, r) implies comes_to(#[trigger] rest(r), good) by {
                lemma_bind(k(r), next, middle, good);
            }
        },
        _ => {},
    }
}

proof fn lemma_ends_bind<A, B>(prog: Prog<A>, next: spec_fn(A) -> Prog<B>)
    requires
        ends(prog),
        forall|a: A| ends(#[trigger] next(a)),
    ensures
        ends(prog.bind(next)),
{
    lemma_bind(prog, next, |a: A| true, |b: B| true);
}

// ---------------------------------------------------------------------------
// Data objects
// ---------------------------------------------------------------------------

proof fn lemma_destroy_all(handles: Seq<ObjectHandle>)
    ensures
        ends(store::destroy_all(handles)),
    decreases handles.len(),
{
    reveal_with_fuel(comes_to, 2);
    if handles.len() != 0 {
        lemma_destroy_all(handles.drop_first());
    }
}

proof fn lemma_read_data(label: Seq<char>)
    ensures
        ends(store::read_data(label)),
{
    reveal_with_fuel(comes_to, 3);
}

proof fn lemma_clear(handles: Seq<ObjectHandle>)
    ensures
        forall|d: Result<ObjectHandle, Pkcs11ErrorView>|
            ends(#[trigger] (store::then_clear(handles))(d)),
{
    reveal_with_fuel(comes_to, 2);
    let next = store::then_clear(handles);
    lemma_destroy_all(handles);
    assert forall|d: Result<ObjectHandle, Pkcs11ErrorView>| ends(#[trigger] next(d)) by {
        if let Ok(new) = d {
            assert forall|e: Pkcs11ErrorView| ends(#[trigger] store::take_back(new, e)) by {}
            lemma_ends_bind(store::destroy_all(handles), store::then_settle(new));
        }
    }
}

proof fn lemma_replace_data(label: Seq<char>, encode: RequestView)
    requires
        encode is EncodePolicy || encode is EncodeSigRate,
    ensures
        ends(store::replace_data(label, encode)),
{
    reveal_with_fuel(comes_to, 3);
    let good = |a: Result<ObjectHandle, Pkcs11ErrorView>| true;
    let prog = store::replace_data(label, encode);
    assert(ends(store::encode_and_create(label, encode)));
    assert forall|r: ReplyView| fits(prog->Ask_0, r) implies comes_to(
        #[trigger] (prog->Ask_1)(r),
        good,
    ) by {
        if let ReplyView::Handles(Ok(handles)) = r {
            lemma_clear(handles);
            lemma_ends_bind(store::encode_and_create(label, encode), store::then_clear(handles));
        }
    }
}

/// Loading and saving a policy comes to an end.
pub proof fn law_policies_end(label: Seq<char>, p: PolicyView)
    ensures
        ends(policy::policy_loading(label)),
        ends(policy::policy_saving(label, p)),
{
    reveal_with_fuel(comes_to, 2);
    lemma_read_data(key_ops::namespaced(label, "policy"@));
    lemma_ends_bind(
        store::read_data(key_ops::namespaced(label, "policy"@)),
        policy::then_decode_policy(),
    );
    lemma_replace_data(key_ops::namespaced(label, "policy"@), RequestView::EncodePolicy(p));
}

/// Loading and saving a counter, holding it against a ceiling, and counting a
/// signature, comes to an end.
pub proof fn law_counters_end(label: Seq<char>, times: Seq<u64>, max: Option<u32>)
    ensures
        ends(policy::sigrate_loading(label)),
        ends(policy::sigrate_saving(label, times)),
        ends(policy::rate_checking(label, max)),
        ends(policy::rate_recording(label, max)),
{
    reveal_with_fuel(comes_to, 2);
    let name = key_ops::namespaced(label, "sigrate"@);
    lemma_read_data(name);
    lemma_ends_bind(store::read_data(name), policy::then_decode_sigrate());
    lemma_sigrate_saving(label, times);
    if let Some(max) = max {
        lemma_ends_bind(policy::sigrate_loading(label), policy::then_check_now(max));
        let good = |d: Result<(), Pkcs11ErrorView>| true;
        let next = policy::then_count_one(label, max);
        assert forall|d: Result<Seq<u64>, Pkcs11ErrorView>| ends(#[trigger] next(d)) by {
            if let Ok(held) = d {
                let prog = policy::count_one(label, held, max);
                assert forall|r: ReplyView| fits(prog->Ask_0, r) implies comes_to(
                    #[trigger] (prog->Ask_1)(r),
                    good,
                ) by {
                    let now = r->Time_0;
                    lemma_sigrate_saving(label, policy::recent(held, now).push(now));
                }
            }
        }
        lemma_ends_bind(policy::sigrate_loading(label), next);
    }
}

proof fn lemma_sigrate_saving(label: Seq<char>, times: Seq<u64>)
    ensures
        ends(policy::sigrate_saving(label, times)),
{
    let name = key_ops::namespaced(label, "sigrate"@);
    lemma_replace_data(name, RequestView::EncodeSigRate(times));
    lemma_ends_bind(
        store::replace_data(name, RequestView::EncodeSigRate(times)),
        store::then_forget(),
    );
}

// ---------------------------------------------------------------------------
// Keys and sessions
// ---------------------------------------------------------------------------

/// Finding and deleting a key comes to an end.
pub proof fn law_key_operations_end(label: Seq<char>)
    ensures
        ends(key_ops::find_key(label)),
        ends(key_ops::delete_both(label)),
{
    reveal_with_fuel(comes_to, 2);
    let good = |d: Result<(), Pkcs11ErrorView>| true;
    let last = key_ops::delete_public(label);
    assert(ends(last)) by {
        assert forall|r: ReplyView| fits(last->Ask_0, r) implies comes_to(
            #[trigger] (last->Ask_1)(r),
            good,
        ) by {
            if let ReplyView::Handles(Ok(handles)) = r {
                lemma_destroy_all(handles);
            }
        }
    }
    let prog = key_ops::delete_both(label);
    assert forall|r: ReplyView| fits(prog->Ask_0, r) implies comes_to(
        #[trigger] (prog->Ask_1)(r),
        good,
    ) by {
        if let ReplyView::Handles(Ok(handles)) = r {
            lemma_destroy_all(handles);
            lemma_ends_bind(store::destroy_all(handles), key_ops::then_delete_public(label));
        }
    }
}

proof fn lemma_reading(ids: VendorIds, key: ObjectHandle)
    ensures
        ends(backend::xpub_reading(ids, key)),
        ends(backend::fingerprint_reading(key)),
{
    reveal_with_fuel(comes_to, 2);
}

/// The derivations of a backend come to an end.
pub proof fn law_derivations_end(
    ids: VendorIds,
    key: ObjectHandle,
    child: ChildNumber,
    path: Seq<ChildNumber>,
    seed: Seq<u8>,
    label: Seq<char>,
)
    ensures
        ends(backend::xpub_reading(ids, key)),
        ends(backend::fingerprint_reading(key)),
        ends(backend::child_derivation(ids, key, child)),
        ends(backend::path_derivation(key, path)),
        ends(backend::master_derivation(ids, seed, label)),
{
    reveal_with_fuel(comes_to, 2);
    lemma_reading(ids, key);
    lemma_path_derivation(key, path);
    let prog = backend::master_derivation(ids, seed, label);
    let good = |d: Result<MasterKeyView, HsmBackendErrorView>| true;
    if prog is Ask {
        assert forall|r: ReplyView| fits(prog->Ask_0, r) implies comes_to(
            #[trigger] (prog->Ask_1)(r),
            good,
        ) by {
            if let ReplyView::Handle(Ok(base)) = r {
                lemma_from_base(ids, backend::seed_block(seed), label, base);
            }
        }
    }
}

proof fn lemma_path_derivation(key: ObjectHandle, path: Seq<ChildNumber>)
    ensures
        ends(backend::path_derivation(key, path)),
    decreases path.len(),
{
    if path.len() != 0 {
        let prog = backend::path_derivation(key, path);
        let good = |d: Result<ObjectHandle, HsmBackendErrorView>| true;
        assert forall|r: ReplyView| fits(prog->Ask_0, r) implies comes_to(
            #[trigger] (prog->Ask_1)(r),
            good,
        ) by {
            if let ReplyView::Derived(Ok(h)) = r {
                lemma_path_derivation(h, path.drop_first());
            }
        }
    }
}

proof fn lemma_from_base(ids: VendorIds, block: Seq<u8>, label: Seq<char>, base: ObjectHandle)
    ensures
        ends(backend::derive_from_base(ids, block, label, base)),
{
    let good = |d: Result<MasterKeyView, HsmBackendErrorView>| true;
    let prog = backend::derive_from_base(ids, block, label, base);
    assert forall|r: ReplyView| fits(prog->Ask_0, r) implies comes_to(
        #[trigger] (prog->Ask_1)(r),
        good,
    ) by {
        lemma_drop_base(ids, base, r->Handle_0);
    }
}

proof fn lemma_drop_base(
    ids: VendorIds,
    base: ObjectHandle,
    made: Result<ObjectHandle, TokenErrorView>,
)
    ensures
        ends(backend::drop_base(ids, base, made)),
{
    let good = |d: Result<MasterKeyView, HsmBackendErrorView>| true;
    let prog = backend::drop_base(ids, base, made);
    if let Ok(key) = made {
        lemma_reading(ids, key);
        let next = backend::then_fingerprint(key);
        assert forall|d: Result<XpubView, HsmBackendErrorView>| ends(#[trigger] next(d)) by {
            if let Ok(xpub) = d {
                lemma_ends_bind(
                    backend::fingerprint_reading(key),
                    backend::then_master(key, xpub),
                );
            }
        }
        lemma_ends_bind(backend::xpub_reading(ids, key), next);
    }
    assert forall|r: ReplyView| fits(prog->Ask_0, r) implies comes_to(
        #[trigger] (prog->Ask_1)(r),
        good,
    ) by {}
}

proof fn lemma_label_search(label: Seq<char>, slots: Seq<u64>)
    ensures
        ends(session::label_search(label, slots)),
    decreases slots.len(),
{
    reveal_with_fuel(comes_to, 2);
    if slots.len() != 0 {
        lemma_label_search(label, slots.drop_first());
    }
}

/// Opening a session, and reading a token's label, comes to an end.
pub proof fn law_sessions_end(library: Seq<char>, wanted: SlotView, pin: Seq<char>)
    ensures
        ends(session::session_opening(library, wanted, pin)),
        ends(session::token_label_reading()),
        ends(signer::health_checking()),
{
    reveal_with_fuel(comes_to, 2);
    let good = |d: Result<u64, Pkcs11ErrorView>| true;
    let resolving = session::slot_resolution(wanted);
    assert(ends(resolving)) by {
        assert forall|r: ReplyView| fits(resolving->Ask_0, r) implies comes_to(
            #[trigger] (resolving->Ask_1)(r),
            good,
        ) by {
            if let ReplyView::Slots(Ok(slots)) = r {
                if let SlotView::Label(label) = wanted {
                    lemma_label_search(label, slots);
                }
            }
        }
    }
    let next = session::then_open_slot(pin);
    assert forall|d: Result<u64, Pkcs11ErrorView>| ends(#[trigger] next(d)) by {
        if let Ok(slot) = d {
            assert(ends(session::login(slot, pin)));
            assert(ends(session::open_slot(slot, pin)));
        }
    }
    lemma_ends_bind(resolving, next);
    assert(ends(session::initialize(wanted, pin)));
    lemma_ends_bind(session::token_label_reading(), signer::then_health());
}

// ---------------------------------------------------------------------------
// Signers
// ---------------------------------------------------------------------------

/// Deriving and loading a signer comes to an end.
pub proof fn law_signers_end(profile: ProfileView, seed: Seq<u8>)
    ensures
        ends(signer::signer_derivation(profile, seed)),
        ends(signer::signer_loading(profile)),
{
    reveal_with_fuel(comes_to, 4);
    law_key_operations_end(profile.label);
    let next = signer::then_read_loaded(profile);
    assert forall|d: Result<Option<LoadedKey>, Pkcs11ErrorView>| ends(#[trigger] next(d)) by {}
    lemma_ends_bind(key_ops::find_key(profile.label), next);
}

/// Making a member's signer, and those of a fleet, comes to an end.
pub proof fn law_fleets_end(
    member: MemberView,
    options: SignerOptions,
    count: nat,
    made: Seq<SignerView>,
)
    ensures
        ends(fleet::member_building(member, options)),
        ends(fleet::fleet_building(count, made)),
    decreases count - made.len(),
{
    let profile = fleet::profile_of(member, options);
    law_sessions_end(member.library_path, member.slot, member.pin);
    let next = fleet::then_key(member, options);
    assert forall|d: Result<u64, Pkcs11ErrorView>| ends(#[trigger] next(d)) by {
        match member.key_init {
            KeyInitView::DeriveFromSeed(seed) => {
                law_signers_end(profile, seed);
            },
            KeyInitView::Load => {
                law_signers_end(profile, Seq::empty());
            },
        }
    }
    lemma_ends_bind(
        session::session_opening(member.library_path, member.slot, member.pin),
        next,
    );
    if made.len() < count {
        let prog = fleet::fleet_building(count, made);
        let good = |d: Result<Seq<SignerView>, Pkcs11ErrorView>| true;
        assert forall|r: ReplyView| fits(prog->Ask_0, r) implies comes_to(
            #[trigger] (prog->Ask_1)(r),
            good,
        ) by {
            if let ReplyView::Built(Ok(s)) = r {
                law_fleets_end(member, options, count, made.push(s));
            }
        }
    }
}

// ---------------------------------------------------------------------------
// Signing
// ---------------------------------------------------------------------------

proof fn lemma_drop_child(
    federation: ObjectHandle,
    used: ObjectHandle,
    out: Result<InputSigsView, Seq<char>>,
)
    ensures
        ends(signing::drop_child(federation, used, out)),
{
    reveal_with_fuel(comes_to, 2);
}

proof fn lemma_ecdsa_with(federation: ObjectHandle, plan: EcdsaPlanView, used: ObjectHandle)
    ensures
        ends(signing::ecdsa_with(federation, plan, used)),
{
    reveal_with_fuel(comes_to, 2);
    let next = signing::then_drop_child(federation, plan, used);
    assert forall|d: Result<Seq<u8>, Pkcs11ErrorView>| ends(#[trigger] next(d)) by {
        lemma_drop_child(federation, used, signing::ecdsa_outcome(plan, d));
    }
    lemma_ends_bind(ecdsa::low_s_signing(used, plan.digest), next);
}

proof fn lemma_leaf_signing(
    label: Seq<char>,
    federation: ObjectHandle,
    plan: TaprootPlanView,
    used: ObjectHandle,
    done: Seq<TapScriptSigView>,
)
    ensures
        ends(signing::leaf_signing(label, federation, plan, used, done)),
    decreases plan.leaves.len() - done.len(),
{
    let prog = signing::leaf_signing(label, federation, plan, used, done);
    if done.len() >= plan.leaves.len() {
        lemma_drop_child(federation, used, Ok(InputSigsView::Taproot(done)));
    } else {
        let good = |d: Result<InputSigsView, Seq<char>>| true;
        assert forall|r: ReplyView| fits(prog->Ask_0, r) implies comes_to(
            #[trigger] (prog->Ask_1)(r),
            good,
        ) by {
            match r {
                ReplyView::Schnorr(Ok(signature)) => {
                    let leaf = plan.leaves[done.len() as int];
                    let more = done.push(
                        TapScriptSigView {
                            key: plan.key,
                            leaf_hash: leaf.leaf_hash,
                            signature,
                            sighash_type: plan.sighash_type,
                        },
                    );
                    lemma_leaf_signing(label, federation, plan, used, more);
                },
                ReplyView::Schnorr(Err(e)) => {
                    lemma_drop_child(federation, used, Err(e.text()));
                },
                _ => {},
            }
        }
    }
}

/// Carrying out the plan for an input comes to an end.
pub proof fn law_plans_end(label: Seq<char>, federation: ObjectHandle, plan: InputPlanView)
    ensures
        ends(signing::plan_signing(label, federation, plan)),
{
    let good = |d: Result<InputSigsView, Seq<char>>| true;
    let prog = signing::plan_signing(label, federation, plan);
    match plan {
        InputPlanView::Ecdsa(p) => {
            lemma_ecdsa_with(federation, p, federation);
            if p.relative.len() != 0 {
                assert forall|r: ReplyView| fits(prog->Ask_0, r) implies comes_to(
                    #[trigger] (prog->Ask_1)(r),
                    good,
                ) by {
                    if let ReplyView::Derived(Ok(used)) = r {
                        lemma_ecdsa_with(federation, p, used);
                    }
                }
            }
        },
        InputPlanView::Taproot(p) => {
            lemma_leaf_signing(label, federation, p, federation, Seq::empty());
            if p.leaves.len() != 0 && p.relative.len() != 0 {
                assert forall|r: ReplyView| fits(prog->Ask_0, r) implies comes_to(
                    #[trigger] (prog->Ask_1)(r),
                    good,
                ) by {
                    if let ReplyView::Derived(Ok(used)) = r {
                        lemma_leaf_signing(label, federation, p, used, Seq::empty());
                    }
                }
            }
        },
        _ => {},
    }
}

proof fn lemma_finishing_ends(
    label: Seq<char>,
    max: Option<u32>,
    psbt: PsbtView,
    done: Seq<InputSigsView>,
    outcome: Result<(), Seq<char>>,
)
    ensures
        ends(transaction::finishing(label, max, psbt, done, outcome)),
{
    law_counters_end(label, Seq::empty(), max);
    lemma_ends_bind(
        policy::rate_recording(label, max),
        transaction::then_hand_back(psbt, done, outcome),
    );
}

proof fn lemma_inputs_end(
    key: SigningKeyView,
    max: Option<u32>,
    psbt: PsbtView,
    done: Seq<InputSigsView>,
)
    ensures
        ends(transaction::inputs_signing(key, max, psbt, done)),
    decreases psbt.inputs.len() - done.len(),
{
    if done.len() >= psbt.inputs.len() {
        lemma_finishing_ends(key.label, max, psbt, done, Ok(()));
    } else {
        let plan = signing::input_plan(key, psbt, done.len());
        let next = transaction::then_next_input(key, max, psbt, done);
        law_plans_end(key.label, key.handle, plan);
        assert forall|d: Result<InputSigsView, Seq<char>>| ends(#[trigger] next(d)) by {
            match d {
                Ok(sigs) => {
                    lemma_inputs_end(key, max, psbt, done.push(sigs));
                },
                Err(t) => {
                    lemma_finishing_ends(key.label, max, psbt, done, Err(t));
                },
            }
        }
        lemma_ends_bind(signing::plan_signing(key.label, key.handle, plan), next);
    }
}

/// Signing a transaction comes to an end.
pub proof fn law_transactions_end(key: SigningKeyView, psbt: PsbtView)
    ensures
        ends(transaction::transaction_signing(key, psbt)),
{
    law_policies_end(key.label, PolicyView::permissive());
    let next = transaction::then_check(key, psbt);
    assert forall|d: Result<PolicyView, Pkcs11ErrorView>| ends(#[trigger] next(d)) by {
        if let Ok(p) = d {
            let max = p.max_signatures_per_hour;
            let sign = transaction::then_sign(key, max, psbt);
            law_counters_end(key.label, Seq::empty(), max);
            assert forall|c: Result<(), Pkcs11ErrorView>| ends(#[trigger] sign(c)) by {
                lemma_inputs_end(key, max, psbt, Seq::empty());
            }
            lemma_ends_bind(policy::rate_checking(key.label, max), sign);
        }
    }
    lemma_ends_bind(policy::policy_loading(key.label), next);
}

proof fn lemma_pset_finishing_ends(
    label: Seq<char>,
    max: Option<u32>,
    pset: PsetView,
    done: Seq<Option<PartialSigView>>,
    outcome: Result<(), PsetErrorView>,
)
    ensures
        ends(elements::pset_finishing(label, max, pset, done, outcome)),
{
    law_counters_end(label, Seq::empty(), max);
    lemma_ends_bind(
        policy::rate_recording(label, max),
        elements::then_hand_back_pset(pset, done, outcome),
    );
}

proof fn lemma_pset_inputs_end(
    label: Seq<char>,
    fingerprint: Seq<u8>,
    max: Option<u32>,
    tx: ElementsTxView,
    pset: PsetView,
    done: Seq<Option<PartialSigView>>,
)
    ensures
        ends(elements::pset_inputs_signing(label, fingerprint, max, tx, pset, done)),
    decreases pset.inputs.len() - done.len(),
{
    let prog = elements::pset_inputs_signing(label, fingerprint, max, tx, pset, done);
    if done.len() >= pset.inputs.len() {
        lemma_pset_finishing_ends(label, max, pset, done, Ok(()));
    } else {
        match elements::pset_plan(tx, pset.inputs[done.len() as int], done.len(), fingerprint) {
            PsetPlanView::Skip => {
                lemma_pset_inputs_end(label, fingerprint, max, tx, pset, done.push(None));
            },
            PsetPlanView::Stop(e) => {
                lemma_pset_finishing_ends(label, max, pset, done, Err(e));
            },
            PsetPlanView::Sign { key, path: _, digest: _, sighash_type } => {
                let good = |d: SignedPset| true;
                assert forall|r: ReplyView| fits(prog->Ask_0, r) implies comes_to(
                    #[trigger] (prog->Ask_1)(r),
                    good,
                ) by {
                    match r {
                        ReplyView::StrategySignature(Ok(compact)) => {
                            let sig = elements::pset_sig(key, compact, sighash_type);
                            lemma_pset_inputs_end(
                                label,
                                fingerprint,
                                max,
                                tx,
                                pset,
                                done.push(Some(sig)),
                            );
                        },
                        ReplyView::StrategySignature(Err(e)) => {
                            lemma_pset_finishing_ends(
                                label,
                                max,
                                pset,
                                done,
                                Err(PsetErrorView::SignerBackend(e.text())),
                            );
                        },
                        _ => {},
                    }
                }
            },
        }
    }
}

/// Signing an Elements transaction comes to an end.
pub proof fn law_psets_end(label: Seq<char>, fingerprint: Seq<u8>, pset: PsetView)
    ensures
        ends(elements::pset_signing(label, fingerprint, pset)),
{
    law_policies_end(label, PolicyView::permissive());
    let next = elements::then_sign_pset(label, fingerprint, pset);
    assert forall|d: Result<PolicyView, Pkcs11ErrorView>| ends(#[trigger] next(d)) by {
        if let Ok(p) = d {
            if let Ok(tx) = pset.unsigned_tx {
                let max = p.max_signatures_per_hour;
                let sign = elements::then_sign_inputs(label, fingerprint, max, tx, pset);
                law_counters_end(label, Seq::empty(), max);
                assert forall|c: Result<(), Pkcs11ErrorView>| ends(#[trigger] sign(c)) by {
                    lemma_pset_inputs_end(label, fingerprint, max, tx, pset, Seq::empty());
                }
                lemma_ends_bind(policy::rate_checking(label, max), sign);
            }
        }
    }
    lemma_ends_bind(policy::policy_loading(label), next);
}

} // verus!
