//! What is told when something goes wrong.
use crate::backend;
use crate::backend::VendorIds;
use crate::bip32::XpubView;
use crate::config::SlotView;
use crate::elements;
use crate::elements::{ElementsTxView, PsetErrorView, PsetView, SignedPset};
use crate::error::{HsmBackendErrorView, Pkcs11ErrorView};
use crate::fleet;
use crate::key_ops;
use crate::key_ops::LoadedKey;
use crate::laws::covered;
use crate::laws::psets;
use crate::policy;
use crate::policy::PolicyView;
use crate::program::{MasterKeyView, Prog, ReplyView, RequestView};
use crate::psbt::{PartialSigView, PsbtView};
use crate::run;
use crate::session;
use crate::signing::{InputSigsView, SigningKeyView};
use crate::store;
use crate::text;
use crate::token::{AttributeView, MechanismType, ObjectHandle, TokenErrorView};
use crate::transaction;
use crate::transaction::Signed;
use vstd::prelude::*;
use vstd::string::*;

verus! {

// ---------------------------------------------------------------------------
// Objects
// ---------------------------------------------------------------------------

/// What the token refuses while a data object is read or written is told as the
/// token's refusal; what cannot be encoded or decoded as that; and an object without a
/// value as one that is not there, by its label.
pub proof fn law_store_tells_what_failed(
    label: Seq<char>,
    encode: RequestView,
    value: Seq<u8>,
    handles: Seq<ObjectHandle>,
    list: Seq<AttributeView>,
    e: TokenErrorView,
    t: Seq<char>,
)
    requires
        handles.len() > 0,
        forall|i: int| 0 <= i < list.len() ==> #[trigger] list[i] !is Value,
    ensures
        ({
            let refused = Pkcs11ErrorView::Pkcs11(e);
            let unread = Pkcs11ErrorView::Serialization(t);
            &&& (store::read_data(label)->Ask_1)(ReplyView::Handles(Err(e))) == Prog::<
                Result<Option<Seq<u8>>, Pkcs11ErrorView>,
            >::Done(Err(refused))
            &&& (store::read_found(label, handles)->Ask_1)(ReplyView::Attributes(Err(e)))
                == Prog::<Result<Option<Seq<u8>>, Pkcs11ErrorView>>::Done(Err(refused))
            &&& (store::read_found(label, handles)->Ask_1)(ReplyView::Attributes(Ok(list)))
                == Prog::<Result<Option<Seq<u8>>, Pkcs11ErrorView>>::Done(
                Err(Pkcs11ErrorView::ObjectNotFound(label)),
            )
            &&& (store::replace_data(label, encode)->Ask_1)(ReplyView::Handles(Err(e)))
                == Prog::<Result<ObjectHandle, Pkcs11ErrorView>>::Done(Err(refused))
            &&& (store::encode_and_create(label, encode)->Ask_1)(ReplyView::Encoded(Err(t)))
                == Prog::<Result<ObjectHandle, Pkcs11ErrorView>>::Done(Err(unread))
            &&& (store::create_data(label, value)->Ask_1)(ReplyView::Handle(Err(e))) == Prog::<
                Result<ObjectHandle, Pkcs11ErrorView>,
            >::Done(Err(refused))
            &&& (store::destroy_all(handles)->Ask_1)(ReplyView::Unit(Err(e))) == Prog::<
                Result<(), Pkcs11ErrorView>,
            >::Done(Err(refused))
            &&& (policy::decode_policy(value)->Ask_1)(ReplyView::Policy(Err(t))) == Prog::<
                Result<PolicyView, Pkcs11ErrorView>,
            >::Done(Err(unread))
            &&& (policy::decode_sigrate(value)->Ask_1)(ReplyView::SigRate(Err(t))) == Prog::<
                Result<Seq<u64>, Pkcs11ErrorView>,
            >::Done(Err(unread))
            &&& (key_ops::find_key(label)->Ask_1)(ReplyView::Handles(Err(e))) == Prog::<
                Result<Option<LoadedKey>, Pkcs11ErrorView>,
            >::Done(Err(refused))
            &&& (key_ops::delete_both(label)->Ask_1)(ReplyView::Handles(Err(e))) == Prog::<
                Result<(), Pkcs11ErrorView>,
            >::Done(Err(refused))
            &&& (key_ops::delete_public(label)->Ask_1)(ReplyView::Handles(Err(e))) == Prog::<
                Result<(), Pkcs11ErrorView>,
            >::Done(Err(refused))
        }),
{
    lemma_no_value(list);
}

proof fn lemma_no_value(list: Seq<AttributeView>)
    requires
        forall|i: int| 0 <= i < list.len() ==> #[trigger] list[i] !is Value,
    ensures
        store::first_value(list) is None,
    decreases list.len(),
{
    if list.len() != 0 {
        let rest = list.drop_first();
        assert(list[0] !is Value);
        assert forall|i: int| 0 <= i < rest.len() implies #[trigger] rest[i] !is Value by {
            assert(list[i + 1] == rest[i]);
        }
        lemma_no_value(rest);
    }
}

/// What the token refuses to a backend is told as the token's refusal.
pub proof fn law_backend_tells_what_failed(
    ids: VendorIds,
    key: ObjectHandle,
    seed: Seq<u8>,
    label: Seq<char>,
    e: TokenErrorView,
)
    ensures
        ({
            let refused = HsmBackendErrorView::Pkcs11(e);
            &&& (backend::xpub_reading(ids, key)->Ask_1)(ReplyView::Attributes(Err(e)))
                == Prog::<Result<XpubView, HsmBackendErrorView>>::Done(Err(refused))
            &&& (backend::fingerprint_reading(key)->Ask_1)(ReplyView::Attributes(Err(e)))
                == Prog::<Result<Seq<u8>, HsmBackendErrorView>>::Done(Err(refused))
            &&& seed.len() == 0 || seed.len() == 64 ==> (backend::master_derivation(
                ids,
                seed,
                label,
            )->Ask_1)(ReplyView::Handle(Err(e))) == Prog::<
                Result<MasterKeyView, HsmBackendErrorView>,
            >::Done(Err(refused))
            &&& seed.len() != 0 && seed.len() != 64 ==> backend::master_derivation(
                ids,
                seed,
                label,
            ) == Prog::<Result<MasterKeyView, HsmBackendErrorView>>::Done(
                Err(
                    HsmBackendErrorView::Derivation(
                        "BIP-32 master seed must be 64 bytes (or empty for backend-resolved seeds), got "@
                            + text::decimal(seed.len()),
                    ),
                ),
            )
        }),
{
}

/// The bytes of a key's metadata are told apart when one of them is wrong: the first
/// that is, in the order of chain code, depth, parent and index.
pub proof fn law_metadata_tells_what_is_wrong(
    point: Seq<u8>,
    key: Seq<u8>,
    chain_code: Seq<u8>,
    depth: Seq<u8>,
    parent: Seq<u8>,
    index: Seq<u8>,
)
    requires
        backend::public_key_of(point) == Ok::<Seq<u8>, HsmBackendErrorView>(key),
    ensures
        ({
            let out = backend::xpub_from(point, chain_code, depth, parent, index);
            &&& chain_code.len() != 32 ==> out == Err::<XpubView, HsmBackendErrorView>(
                HsmBackendErrorView::MetadataError("chain code != 32 bytes"@),
            )
            &&& chain_code.len() == 32 && depth.len() == 0 ==> out == Err::<
                XpubView,
                HsmBackendErrorView,
            >(HsmBackendErrorView::MetadataError("empty depth"@))
            &&& chain_code.len() == 32 && depth.len() > 0 && parent.len() != 4 ==> out == Err::<
                XpubView,
                HsmBackendErrorView,
            >(HsmBackendErrorView::MetadataError("parent fingerprint != 4 bytes"@))
            &&& chain_code.len() == 32 && depth.len() > 0 && parent.len() == 4 && index.len() != 4
                ==> out == Err::<XpubView, HsmBackendErrorView>(
                HsmBackendErrorView::MetadataError("child index != 4 bytes"@),
            )
        }),
{
}

// ---------------------------------------------------------------------------
// Signing
// ---------------------------------------------------------------------------

/// Where the policy cannot be read, a transaction comes back as it was, with the
/// failure in words. So does one whose count cannot be held against the ceiling.
pub proof fn law_unread_policy_ends_it(
    key: SigningKeyView,
    psbt: PsbtView,
    pset: PsetView,
    max: Option<u32>,
    tx: ElementsTxView,
    read: Seq<ReplyView>,
    e: Pkcs11ErrorView,
)
    ensures
        run::behind(policy::policy_loading(key.label), read) == Prog::<
            Result<PolicyView, Pkcs11ErrorView>,
        >::Done(Err(e)) ==> {
            &&& run::behind(transaction::transaction_signing(key, psbt), read) == Prog::<
                Signed,
            >::Done((psbt, Err(e.text())))
            &&& run::behind(elements::pset_signing(key.label, key.fingerprint, pset), read)
                == Prog::<SignedPset>::Done((pset, Err(PsetErrorView::SignerBackend(e.text()))))
        },
        (transaction::then_sign(key, max, psbt))(Err(e)) == Prog::<Signed>::Done(
            (psbt, Err(e.text())),
        ),
        (elements::then_sign_inputs(key.label, key.fingerprint, max, tx, pset))(Err(e)) == Prog::<
            SignedPset,
        >::Done((pset, Err(PsetErrorView::SignerBackend(e.text())))),
{
    let loading = policy::policy_loading(key.label);
    if run::behind(loading, read) is Done {
        run::lemma_behind_bind(loading, transaction::then_check(key, psbt), read);
        run::lemma_behind_bind(
            loading,
            elements::then_sign_pset(key.label, key.fingerprint, pset),
            read,
        );
    }
}

/// An Elements transaction that cannot be put together is told as that, once the
/// policy is read; nothing is signed.
pub proof fn law_broken_pset_ends_it(
    label: Seq<char>,
    fingerprint: Seq<u8>,
    pset: PsetView,
    p: PolicyView,
    t: Seq<char>,
    read: Seq<ReplyView>,
)
    requires
        run::behind(policy::policy_loading(label), read) == Prog::<
            Result<PolicyView, Pkcs11ErrorView>,
        >::Done(Ok(p)),
        pset.unsigned_tx == Err::<ElementsTxView, Seq<char>>(t),
    ensures
        run::behind(elements::pset_signing(label, fingerprint, pset), read) == Prog::<
            SignedPset,
        >::Done((pset, Err(PsetErrorView::Elements(t)))),
{
    run::lemma_behind_bind(
        policy::policy_loading(label),
        elements::then_sign_pset(label, fingerprint, pset),
        read,
    );
}

/// Where the key for an input cannot be derived, or the token refuses to sign for it,
/// the signing ends with that failure in words, whatever the replies are then.
pub proof fn law_refused_signature_ends_it(
    key: SigningKeyView,
    max: Option<u32>,
    psbt: PsbtView,
    done: Seq<InputSigsView>,
    n: int,
    digest: Seq<u8>,
    used: ObjectHandle,
    e: HsmBackendErrorView,
    no: TokenErrorView,
)
    requires
        done.len() < psbt.inputs.len(),
        covered::first_own(psbt.inputs[done.len() as int].bip32_derivation, key.fingerprint, n),
        psbt.inputs[done.len() as int].bip32_derivation[n].path.len() >= key.path.len(),
        covered::is_input_digest(psbt, done.len() as int, digest),
    ensures
        ({
            let prog = transaction::inputs_signing(key, max, psbt, done);
            let rest = covered::tail(key, psbt.inputs[done.len() as int].bip32_derivation[n].path);
            let refused = Pkcs11ErrorView::Pkcs11(no).text();
            &&& rest.len() != 0 ==> run::always(
                (prog->Ask_1)(ReplyView::Derived(Err(e))),
                covered::fails_with(e.text()),
            )
            &&& rest.len() != 0 ==> run::always(
                ((prog->Ask_1)(ReplyView::Derived(Ok(used)))->Ask_1)(
                    ReplyView::Signature(Err(no)),
                ),
                covered::fails_with(refused),
            )
            &&& rest.len() == 0 ==> run::always(
                (prog->Ask_1)(ReplyView::Signature(Err(no))),
                covered::fails_with(refused),
            )
        }),
{
    covered::lemma_refused(key, max, psbt, done, n, digest, used, e, no);
}

/// Where the strategy cannot sign for an input, the signing ends with that failure in
/// words, whatever the replies are then.
pub proof fn law_refused_pset_signature_ends_it(
    label: Seq<char>,
    fingerprint: Seq<u8>,
    max: Option<u32>,
    tx: ElementsTxView,
    pset: PsetView,
    done: Seq<Option<PartialSigView>>,
    n: int,
    digest: Seq<u8>,
    e: Pkcs11ErrorView,
)
    requires
        done.len() < pset.inputs.len(),
        psets::first_own(pset.inputs[done.len() as int].bip32_derivation, fingerprint, n),
        psets::is_pset_digest(tx, pset, done.len() as int, digest),
    ensures
        run::always(
            (elements::pset_inputs_signing(label, fingerprint, max, tx, pset, done)->Ask_1)(
                ReplyView::StrategySignature(Err(e)),
            ),
            psets::fails_with(PsetErrorView::SignerBackend(e.text())),
        ),
{
    let why = PsetErrorView::SignerBackend(e.text());
    let good = psets::fails_with(why);
    let anything = |d: Result<(), Pkcs11ErrorView>| true;
    let next = elements::then_hand_back_pset(pset, done, Err(why));
    let prog = elements::pset_inputs_signing(label, fingerprint, max, tx, pset, done);
    let r = ReplyView::StrategySignature(Err::<Seq<u8>, Pkcs11ErrorView>(e));
    let input = pset.inputs[done.len() as int];
    psets::law_own_pset_key_is_the_first(input.bip32_derivation, fingerprint);
    assert(input.bip32_derivation[n].fingerprint == fingerprint);
    assert(elements::pset_plan(tx, input, done.len(), fingerprint) is Sign);
    assert((prog->Ask_1)(r) == elements::pset_finishing(label, max, pset, done, Err(why)));
    run::lemma_always_all(policy::rate_recording(label, max), anything);
    run::lemma_always_bind(policy::rate_recording(label, max), next, anything, good);
    assert(run::always(elements::pset_finishing(label, max, pset, done, Err(why)), good));
}

// ---------------------------------------------------------------------------
// Words
// ---------------------------------------------------------------------------

/// What is looked for and not found is named: a slot by its label or its number.
pub proof fn law_missing_slot_is_named(
    label: Seq<char>,
    id: u64,
    slots: Seq<u64>,
    wanted: SlotView,
)
    ensures
        SlotView::Label(label).text() == "label="@ + label,
        SlotView::SlotId(id).text() == "slot_id="@ + text::decimal(id as nat),
        session::slot_search(wanted, Seq::empty()) == Prog::<Result<u64, Pkcs11ErrorView>>::Done(
            Err(
                Pkcs11ErrorView::SlotNotFound(
                    "no slots with tokens (looked for "@ + wanted.text() + ")"@,
                ),
            ),
        ),
        slots.len() > 0 && !slots.contains(id) ==> session::slot_search(
            SlotView::SlotId(id),
            slots,
        ) == Prog::<Result<u64, Pkcs11ErrorView>>::Done(
            Err(Pkcs11ErrorView::SlotNotFound("slot_id="@ + text::decimal(id as nat))),
        ),
        session::label_search(label, Seq::empty()) == Prog::<Result<u64, Pkcs11ErrorView>>::Done(
            Err(Pkcs11ErrorView::SlotNotFound("label="@ + label)),
        ),
{
}

/// A fleet with two cosigners of one key is told which two, the earlier one first. A
/// mechanism is told by its number.
pub proof fn law_words_name_the_numbers(i: nat, j: nat, mechanism: MechanismType)
    ensures
        fleet::degenerate(i, j) == Pkcs11ErrorView::InvalidConfig(
            "degenerate fleet: cosigners "@ + text::decimal(i) + " and "@ + text::decimal(j)
                + " resolve to the same key"@,
        ),
        mechanism.debug_view() == "MechanismType { val: "@ + text::decimal(mechanism.value as nat)
            + " }"@,
{
}

} // verus!
