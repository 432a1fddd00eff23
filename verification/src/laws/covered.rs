//! What the signatures cover, and which key they are by.
use crate::bip32;
use crate::bip32::ChildNumber;
use crate::ecdsa;
use crate::error::{HsmBackendErrorView, Pkcs11ErrorView};
use crate::key_ops;
use crate::outside;
use crate::policy;
use crate::policy::PolicyView;
use crate::program::{Prog, ReplyView, RequestView};
use crate::psbt;
use crate::psbt::{
    KeyOriginView, PartialSigView, PsbtInputView, PsbtView, TapKeyOriginView, TapScriptSigView,
    TxOutView,
};
use crate::run;
use crate::signing;
use crate::signing::{
    EcdsaPlanView, InputPlanView, InputSigsView, SigningKeyView, TaprootPlanView,
};
use crate::store;
use crate::text;
use crate::token::{ObjectHandle, TokenErrorView};
use crate::transaction;
use crate::transaction::Signed;
use vstd::prelude::*;
use vstd::string::*;

verus! {

// ---------------------------------------------------------------------------
// The signer's keys
// ---------------------------------------------------------------------------

/// Whether the key at `n` is the first that descends from this master key.
pub open spec fn first_own(list: Seq<KeyOriginView>, fingerprint: Seq<u8>, n: int) -> bool {
    &&& 0 <= n < list.len()
    &&& list[n].fingerprint == fingerprint
    &&& forall|m: int| 0 <= m < n ==> (#[trigger] list[m]).fingerprint != fingerprint
}

/// Whether no key descends from this master key.
pub open spec fn none_own(list: Seq<KeyOriginView>, fingerprint: Seq<u8>) -> bool {
    forall|m: int| 0 <= m < list.len() ==> (#[trigger] list[m]).fingerprint != fingerprint
}

/// Whether the Taproot key at `n` is the first that descends from this master key.
pub open spec fn first_own_tap(list: Seq<TapKeyOriginView>, fingerprint: Seq<u8>, n: int) -> bool {
    &&& 0 <= n < list.len()
    &&& list[n].fingerprint == fingerprint
    &&& forall|m: int| 0 <= m < n ==> (#[trigger] list[m]).fingerprint != fingerprint
}

/// Whether no Taproot key descends from this master key.
pub open spec fn none_own_tap(list: Seq<TapKeyOriginView>, fingerprint: Seq<u8>) -> bool {
    forall|m: int| 0 <= m < list.len() ==> (#[trigger] list[m]).fingerprint != fingerprint
}

/// Of the keys of an input the signer takes the first that descends from its master
/// key, and none where none does.
pub proof fn law_own_key_is_the_first(
    list: Seq<KeyOriginView>,
    taps: Seq<TapKeyOriginView>,
    fingerprint: Seq<u8>,
)
    ensures
        match signing::own_origin(list, fingerprint) {
            Some(own) => exists|n: int| #[trigger]
                first_own(list, fingerprint, n) && list[n] == own,
            None => none_own(list, fingerprint),
        },
        match signing::own_tap_origin(taps, fingerprint) {
            Some(own) => exists|n: int| #[trigger]
                first_own_tap(taps, fingerprint, n) && taps[n] == own,
            None => none_own_tap(taps, fingerprint),
        },
{
    lemma_own_origin(list, fingerprint);
    lemma_own_tap_origin(taps, fingerprint);
}

proof fn lemma_own_origin(list: Seq<KeyOriginView>, fingerprint: Seq<u8>)
    ensures
        match signing::own_origin(list, fingerprint) {
            Some(own) => exists|n: int| #[trigger]
                first_own(list, fingerprint, n) && list[n] == own,
            None => none_own(list, fingerprint),
        },
    decreases list.len(),
{
    if list.len() != 0 {
        if list[0].fingerprint == fingerprint {
            assert(first_own(list, fingerprint, 0));
        } else {
            let rest = list.drop_first();
            lemma_own_origin(rest, fingerprint);
            match signing::own_origin(rest, fingerprint) {
                Some(own) => {
                    let n = choose|n: int| #[trigger]
                        first_own(rest, fingerprint, n) && rest[n] == own;
                    assert forall|m: int| 0 <= m < n + 1 implies (#[trigger] list[m]).fingerprint
                        != fingerprint by {
                        if m > 0 {
                            assert(rest[m - 1] == list[m]);
                        }
                    }
                    assert(first_own(list, fingerprint, n + 1) && list[n + 1] == own);
                },
                None => {
                    assert forall|m: int| 0 <= m < list.len() implies (
                    #[trigger] list[m]).fingerprint != fingerprint by {
                        if m > 0 {
                            assert(rest[m - 1] == list[m]);
                        }
                    }
                },
            }
        }
    }
}

proof fn lemma_own_tap_origin(list: Seq<TapKeyOriginView>, fingerprint: Seq<u8>)
    ensures
        match signing::own_tap_origin(list, fingerprint) {
            Some(own) => exists|n: int| #[trigger]
                first_own_tap(list, fingerprint, n) && list[n] == own,
            None => none_own_tap(list, fingerprint),
        },
    decreases list.len(),
{
    if list.len() != 0 {
        if list[0].fingerprint == fingerprint {
            assert(first_own_tap(list, fingerprint, 0));
        } else {
            let rest = list.drop_first();
            lemma_own_tap_origin(rest, fingerprint);
            match signing::own_tap_origin(rest, fingerprint) {
                Some(own) => {
                    let n = choose|n: int| #[trigger]
                        first_own_tap(rest, fingerprint, n) && rest[n] == own;
                    assert forall|m: int| 0 <= m < n + 1 implies (#[trigger] list[m]).fingerprint
                        != fingerprint by {
                        if m > 0 {
                            assert(rest[m - 1] == list[m]);
                        }
                    }
                    assert(first_own_tap(list, fingerprint, n + 1) && list[n + 1] == own);
                },
                None => {
                    assert forall|m: int| 0 <= m < list.len() implies (
                    #[trigger] list[m]).fingerprint != fingerprint by {
                        if m > 0 {
                            assert(rest[m - 1] == list[m]);
                        }
                    }
                },
            }
        }
    }
}

// ---------------------------------------------------------------------------
// What a signature is
// ---------------------------------------------------------------------------

/// The number that tells what an input has covered: the one that it asks for, or
/// this one.
pub open spec fn asked_or(asked: Option<u32>, default: u32) -> u32 {
    match asked {
        Some(n) => n,
        None => default,
    }
}

/// Whether the number is one of the six that nodes relay.
pub open spec fn relayed(n: u32) -> bool {
    n == 1 || n == 2 || n == 3 || n == 129 || n == 130 || n == 131
}

/// What a path has behind the federation path.
pub open spec fn tail(key: SigningKeyView, path: Seq<ChildNumber>) -> Seq<ChildNumber> {
    path.subrange(key.path.len() as int, path.len() as int)
}

/// Whether `used` is the key at the end of the path from the federation key: the
/// federation key itself where there is no path, and else what the token derived.
pub open spec fn is_key_at(
    had: spec_fn(RequestView, ReplyView) -> bool,
    federation: ObjectHandle,
    path: Seq<ChildNumber>,
    used: ObjectHandle,
) -> bool {
    if path.len() == 0 {
        used == federation
    } else {
        had(RequestView::DerivePath(federation, path), ReplyView::Derived(Ok(used)))
    }
}

/// Whether `sig` is the form of the signature `raw` that nodes accept: the first
/// number is the same, and the second is the one that came or its negative,
/// whichever is in the lower half.
pub open spec fn is_low_form(raw: Seq<u8>, sig: Seq<u8>) -> bool {
    &&& raw.len() == 64
    &&& sig.len() == 64
    &&& sig.take(32) == raw.take(32)
    &&& ecdsa::be_value(sig.skip(32)) <= ecdsa::group_order() / 2
    &&& ecdsa::be_value(sig.skip(32)) == ecdsa::be_value(raw.skip(32)) || ecdsa::be_value(
        sig.skip(32),
    ) + ecdsa::be_value(raw.skip(32)) == ecdsa::group_order()
}

/// Whether an ECDSA signature of the input at `i` covers this digest: by the
/// transaction, this very input, the script and the amount that it spends, and the
/// number that it asks for.
pub open spec fn is_input_digest(psbt: PsbtView, i: int, digest: Seq<u8>) -> bool {
    let input = psbt.inputs[i];
    &&& input.witness_script is Some
    &&& input.witness_utxo is Some
    &&& relayed(asked_or(input.sighash_type, 1))
    &&& outside::p2wsh_digest(
        outside::encoded_tx(psbt.unsigned_tx),
        i as nat,
        input.witness_script->Some_0,
        input.witness_utxo->Some_0.value,
        asked_or(input.sighash_type, 1),
    ) == Ok::<Seq<u8>, Seq<char>>(digest)
}

/// Whether a Taproot signature of the input at `i` covers this digest: by the
/// transaction, this very input, what all the inputs spend, the leaf, and the number
/// that the input asks for.
pub open spec fn is_leaf_digest(psbt: PsbtView, i: int, leaf: Seq<u8>, digest: Seq<u8>) -> bool {
    let number = asked_or(psbt.inputs[i].sighash_type, 0);
    &&& number == 0 || relayed(number)
    &&& forall|k: int|
        0 <= k < psbt.inputs.len() ==> (#[trigger] psbt.inputs[k]).witness_utxo is Some
    &&& outside::tapscript_digest(
        outside::encoded_tx(psbt.unsigned_tx),
        i as nat,
        psbt.inputs.map_values(|input: PsbtInputView| input.witness_utxo->Some_0),
        leaf,
        number as u8,
    ) == Ok::<Seq<u8>, Seq<char>>(digest)
}

/// Whether the signature is what the token gave for the input at `i` by the key at
/// `n`: for the input's digest, by the key at the end of what the path has behind the
/// federation path, in the form that nodes accept.
pub open spec fn ecdsa_from(
    had: spec_fn(RequestView, ReplyView) -> bool,
    key: SigningKeyView,
    psbt: PsbtView,
    i: int,
    s: PartialSigView,
    n: int,
    used: ObjectHandle,
    digest: Seq<u8>,
    raw: Seq<u8>,
) -> bool {
    let input = psbt.inputs[i];
    let own = input.bip32_derivation[n];
    &&& first_own(input.bip32_derivation, key.fingerprint, n)
    &&& own.path.len() >= key.path.len()
    &&& is_key_at(
        had,
        key.handle,
        tail(key, own.path),
        used,
    )
    &&& is_input_digest(psbt, i, digest)
    &&& had(RequestView::SignEcdsa(used, digest), ReplyView::Signature(Ok(raw)))
    &&& is_low_form(raw, s.signature)
    &&& s.key == own.key
    &&& s.sighash_type == asked_or(input.sighash_type, 1)
}

/// Whether the signature is what the token gave for the input at `i`.
pub open spec fn is_ecdsa_sig(
    had: spec_fn(RequestView, ReplyView) -> bool,
    key: SigningKeyView,
    psbt: PsbtView,
    i: int,
    s: PartialSigView,
) -> bool {
    exists|n: int, used: ObjectHandle, digest: Seq<u8>, raw: Seq<u8>| #[trigger]
        ecdsa_from(had, key, psbt, i, s, n, used, digest, raw)
}

/// Whether the signature is what the backend gave for a leaf of the input at `i` by
/// the Taproot key at `n`.
pub open spec fn leaf_from(
    had: spec_fn(RequestView, ReplyView) -> bool,
    key: SigningKeyView,
    psbt: PsbtView,
    i: int,
    s: TapScriptSigView,
    n: int,
    used: ObjectHandle,
    digest: Seq<u8>,
) -> bool {
    let input = psbt.inputs[i];
    let own = input.tap_key_origins[n];
    &&& key.taproot
    &&& none_own(input.bip32_derivation, key.fingerprint)
    &&& first_own_tap(input.tap_key_origins, key.fingerprint, n)
    &&& own.leaf_hashes.contains(s.leaf_hash)
    &&& own.path.len() >= key.path.len()
    &&& is_key_at(
        had,
        key.handle,
        tail(key, own.path),
        used,
    )
    &&& is_leaf_digest(psbt, i, s.leaf_hash, digest)
    &&& had(
        RequestView::SignSchnorr { key: used, label: key.label, path: own.path, digest },
        ReplyView::Schnorr(Ok(s.signature)),
    )
    &&& s.key == own.key
    &&& s.sighash_type == asked_or(input.sighash_type, 0) as u8
}

/// Whether the signature is what the backend gave for a leaf of the input at `i`.
pub open spec fn is_leaf_sig(
    had: spec_fn(RequestView, ReplyView) -> bool,
    key: SigningKeyView,
    psbt: PsbtView,
    i: int,
    s: TapScriptSigView,
) -> bool {
    exists|n: int, used: ObjectHandle, digest: Seq<u8>| #[trigger]
        leaf_from(had, key, psbt, i, s, n, used, digest)
}

// ---------------------------------------------------------------------------
// One input
// ---------------------------------------------------------------------------

/// Whether the signatures are what the signer owes the input at `i`.
spec fn owed(
    had: spec_fn(RequestView, ReplyView) -> bool,
    key: SigningKeyView,
    psbt: PsbtView,
    i: int,
    sigs: InputSigsView,
) -> bool {
    let input = psbt.inputs[i];
    match sigs {
        InputSigsView::Nothing => {
            &&& none_own(input.bip32_derivation, key.fingerprint)
            &&& forall|n: int| #[trigger]
                first_own_tap(input.tap_key_origins, key.fingerprint, n)
                    ==> input.tap_key_origins[n].leaf_hashes.len() == 0
        },
        InputSigsView::Ecdsa(s) => is_ecdsa_sig(had, key, psbt, i, s),
        InputSigsView::Taproot(l) => {
            &&& none_own(input.bip32_derivation, key.fingerprint)
            &&& exists|n: int| #[trigger]
                first_own_tap(input.tap_key_origins, key.fingerprint, n) && l.len()
                    == input.tap_key_origins[n].leaf_hashes.len() && leaves_done(
                    had,
                    key,
                    psbt,
                    i,
                    n,
                    l,
                )
        },
    }
}

/// Whether the signatures are for the first leaves of the Taproot key at `n`, one for
/// each.
spec fn leaves_done(
    had: spec_fn(RequestView, ReplyView) -> bool,
    key: SigningKeyView,
    psbt: PsbtView,
    i: int,
    n: int,
    l: Seq<TapScriptSigView>,
) -> bool {
    let own = psbt.inputs[i].tap_key_origins[n];
    &&& l.len() <= own.leaf_hashes.len()
    &&& forall|j: int|
        0 <= j < l.len() ==> is_leaf_sig(had, key, psbt, i, #[trigger] l[j]) && l[j].leaf_hash
            == own.leaf_hashes[j]
}

spec fn owed_if_ok(
    had: spec_fn(RequestView, ReplyView) -> bool,
    key: SigningKeyView,
    psbt: PsbtView,
    i: int,
) -> spec_fn(Result<InputSigsView, Seq<char>>) -> bool {
    |d: Result<InputSigsView, Seq<char>>| d matches Ok(sigs) ==> owed(had, key, psbt, i, sigs)
}

proof fn lemma_ecdsa_owed(
    had: spec_fn(RequestView, ReplyView) -> bool,
    key: SigningKeyView,
    psbt: PsbtView,
    i: int,
    plan: EcdsaPlanView,
    n: int,
    used: ObjectHandle,
)
    requires
        0 <= i < psbt.inputs.len(),
        first_own(psbt.inputs[i].bip32_derivation, key.fingerprint, n),
        signing::own_origin(psbt.inputs[i].bip32_derivation, key.fingerprint) == Some(
            psbt.inputs[i].bip32_derivation[n],
        ),
        signing::input_plan(key, psbt, i as nat) == InputPlanView::Ecdsa(plan),
        is_key_at(had, key.handle, plan.relative, used),
    ensures
        run::given(
            signing::ecdsa_with(key.handle, plan, used),
            had,
            owed_if_ok(had, key, psbt, i),
        ),
{
    let good = owed_if_ok(had, key, psbt, i);
    let own = psbt.inputs[i].bip32_derivation[n];
    assert(plan.relative =~= tail(key, own.path));
    assert(is_input_digest(psbt, i, plan.digest));
    let first = ecdsa::low_s_signing(used, plan.digest);
    let next = signing::then_drop_child(key.handle, plan, used);
    let middle = |d: Result<Seq<u8>, Pkcs11ErrorView>|
        d matches Ok(sig) ==> is_low_answer(had, used, plan.digest, sig);
    lemma_low_answer(had, used, plan.digest);
    assert forall|d: Result<Seq<u8>, Pkcs11ErrorView>| middle(d) implies run::given(
        #[trigger] next(d),
        had,
        good,
    ) by {
        reveal_with_fuel(run::given, 2);
        let out = signing::ecdsa_outcome(plan, d);
        if let Ok(sig) = d {
            let s = out->Ok_0->Ecdsa_0;
            let raw = choose|raw: Seq<u8>| #[trigger]
                had(RequestView::SignEcdsa(used, plan.digest), ReplyView::Signature(Ok(raw)))
                    && is_low_form(raw, sig);
            assert(ecdsa_from(had, key, psbt, i, s, n, used, plan.digest, raw));
        }
        assert(good(out));
    }
    run::lemma_given_bind(first, next, had, middle, good);
}

/// Whether the signature is the lower form of one that the token gave for the
/// digest.
spec fn is_low_answer(
    had: spec_fn(RequestView, ReplyView) -> bool,
    used: ObjectHandle,
    digest: Seq<u8>,
    sig: Seq<u8>,
) -> bool {
    exists|raw: Seq<u8>| #[trigger]
        had(RequestView::SignEcdsa(used, digest), ReplyView::Signature(Ok(raw))) && is_low_form(
            raw,
            sig,
        )
}

proof fn lemma_low_answer(
    had: spec_fn(RequestView, ReplyView) -> bool,
    used: ObjectHandle,
    digest: Seq<u8>,
)
    ensures
        run::given(
            ecdsa::low_s_signing(used, digest),
            had,
            |d: Result<Seq<u8>, Pkcs11ErrorView>|
                d matches Ok(sig) ==> is_low_answer(had, used, digest, sig),
        ),
{
    let prog = ecdsa::low_s_signing(used, digest);
    let q = RequestView::SignEcdsa(used, digest);
    assert forall|r: ReplyView| had(q, r) implies run::given(
        #[trigger] (prog->Ask_1)(r),
        had,
        |d: Result<Seq<u8>, Pkcs11ErrorView>|
            d matches Ok(sig) ==> is_low_answer(had, used, digest, sig),
    ) by {
        if let ReplyView::Signature(Ok(raw)) = r {
            if ecdsa::valid_compact(raw) {
                ecdsa::law_low_s(raw);
                assert(is_low_form(raw, ecdsa::low_s(raw)));
                assert(had(q, ReplyView::Signature(Ok(raw))));
            }
        }
    }
}

proof fn lemma_prevouts(inputs: Seq<PsbtInputView>)
    ensures
        signing::prevouts(inputs) matches Ok(spent) ==> {
            &&& forall|k: int|
                0 <= k < inputs.len() ==> (#[trigger] inputs[k]).witness_utxo is Some
            &&& spent == inputs.map_values(|input: PsbtInputView| input.witness_utxo->Some_0)
        },
        (forall|k: int| 0 <= k < inputs.len() ==> (#[trigger] inputs[k]).witness_utxo is Some)
            ==> signing::prevouts(inputs) is Ok,
    decreases inputs.len(),
{
    if inputs.len() != 0 {
        let rest = inputs.drop_last();
        lemma_prevouts(rest);
        let f = |input: PsbtInputView| input.witness_utxo->Some_0;
        if let Ok(spent) = signing::prevouts(inputs) {
            assert forall|k: int| 0 <= k < inputs.len() implies (
            #[trigger] inputs[k]).witness_utxo is Some by {
                if k < rest.len() {
                    assert(rest[k] == inputs[k]);
                }
            }
            assert(spent =~= inputs.map_values(f));
        }
        if forall|k: int| 0 <= k < inputs.len() ==> (#[trigger] inputs[k]).witness_utxo is Some {
            assert forall|k: int| 0 <= k < rest.len() implies (
            #[trigger] rest[k]).witness_utxo is Some by {
                assert(rest[k] == inputs[k]);
            }
            assert(inputs.last() == inputs[inputs.len() - 1]);
        }
    } else {
        let f = |input: PsbtInputView| input.witness_utxo->Some_0;
        assert(inputs.map_values(f) =~= Seq::<TxOutView>::empty());
    }
}

proof fn lemma_leaf_plans(
    tx: Seq<u8>,
    index: nat,
    spent: Seq<TxOutView>,
    leaves: Seq<Seq<u8>>,
    number: u8,
)
    ensures
        signing::leaf_plans(tx, index, spent, leaves, number) matches Ok(plans) ==> {
            &&& plans.len() == leaves.len()
            &&& forall|j: int|
                0 <= j < leaves.len() ==> (#[trigger] plans[j]).leaf_hash == leaves[j]
                    && outside::tapscript_digest(tx, index, spent, leaves[j], number) == Ok::<
                    Seq<u8>,
                    Seq<char>,
                >(plans[j].digest)
        },
    decreases leaves.len(),
{
    if leaves.len() != 0 {
        lemma_leaf_plans(tx, index, spent, leaves.drop_last(), number);
    }
}

proof fn lemma_leaves_owed(
    had: spec_fn(RequestView, ReplyView) -> bool,
    key: SigningKeyView,
    psbt: PsbtView,
    i: int,
    plan: TaprootPlanView,
    n: int,
    used: ObjectHandle,
    done: Seq<TapScriptSigView>,
)
    requires
        0 <= i < psbt.inputs.len(),
        none_own(psbt.inputs[i].bip32_derivation, key.fingerprint),
        first_own_tap(psbt.inputs[i].tap_key_origins, key.fingerprint, n),
        signing::taproot_plan(key, psbt, i as nat, psbt.inputs[i].tap_key_origins[n])
            == InputPlanView::Taproot(plan),
        is_key_at(had, key.handle, plan.relative, used),
        leaves_done(had, key, psbt, i, n, done),
    ensures
        run::given(
            signing::leaf_signing(key.label, key.handle, plan, used, done),
            had,
            owed_if_ok(had, key, psbt, i),
        ),
    decreases plan.leaves.len() - done.len(),
{
    let good = owed_if_ok(had, key, psbt, i);
    let prog = signing::leaf_signing(key.label, key.handle, plan, used, done);
    let own = psbt.inputs[i].tap_key_origins[n];
    lemma_prevouts(psbt.inputs);
    lemma_leaf_plans(
        outside::encoded_tx(psbt.unsigned_tx),
        i as nat,
        signing::prevouts(psbt.inputs)->Ok_0,
        own.leaf_hashes,
        plan.sighash_type,
    );
    assert(plan.leaves.len() == own.leaf_hashes.len());
    if done.len() >= plan.leaves.len() {
        reveal_with_fuel(run::given, 3);
        let out = Ok::<InputSigsView, Seq<char>>(InputSigsView::Taproot(done));
        assert(good(out));
    } else {
        let j = done.len() as int;
        let leaf = plan.leaves[j];
        assert(plan.relative =~= tail(key, own.path));
        assert(is_leaf_digest(psbt, i, leaf.leaf_hash, leaf.digest));
        let q = RequestView::SignSchnorr {
            key: used,
            label: key.label,
            path: plan.path,
            digest: leaf.digest,
        };
        assert forall|r: ReplyView| had(q, r) implies run::given(
            #[trigger] (prog->Ask_1)(r),
            had,
            good,
        ) by {
            match r {
                ReplyView::Schnorr(Ok(signature)) => {
                    let s = TapScriptSigView {
                        key: plan.key,
                        leaf_hash: leaf.leaf_hash,
                        signature,
                        sighash_type: plan.sighash_type,
                    };
                    let more = done.push(s);
                    assert(own.leaf_hashes[j] == leaf.leaf_hash);
                    assert(leaf_from(had, key, psbt, i, s, n, used, leaf.digest));
                    assert(leaves_done(had, key, psbt, i, n, more)) by {
                        assert forall|k: int| 0 <= k < more.len() implies is_leaf_sig(
                            had,
                            key,
                            psbt,
                            i,
                            #[trigger] more[k],
                        ) && more[k].leaf_hash == own.leaf_hashes[k] by {
                            if k < done.len() {
                                assert(more[k] == done[k]);
                            }
                        }
                    }
                    lemma_leaves_owed(had, key, psbt, i, plan, n, used, more);
                },
                ReplyView::Schnorr(Err(e)) => {
                    reveal_with_fuel(run::given, 3);
                },
                _ => {},
            }
        }
    }
}

proof fn lemma_input_owed(
    had: spec_fn(RequestView, ReplyView) -> bool,
    key: SigningKeyView,
    psbt: PsbtView,
    i: int,
)
    requires
        0 <= i < psbt.inputs.len(),
    ensures
        run::given(
            signing::plan_signing(
                key.label,
                key.handle,
                signing::input_plan(key, psbt, i as nat),
            ),
            had,
            owed_if_ok(had, key, psbt, i),
        ),
{
    let input = psbt.inputs[i];
    let good = owed_if_ok(had, key, psbt, i);
    let plan = signing::input_plan(key, psbt, i as nat);
    let prog = signing::plan_signing(key.label, key.handle, plan);
    law_own_key_is_the_first(input.bip32_derivation, input.tap_key_origins, key.fingerprint);
    match plan {
        InputPlanView::Skip => {},
        InputPlanView::Stop(_) => {},
        InputPlanView::Ecdsa(p) => {
            let n = choose|n: int| #[trigger]
                first_own(input.bip32_derivation, key.fingerprint, n)
                    && input.bip32_derivation[n] == signing::own_origin(
                    input.bip32_derivation,
                    key.fingerprint,
                )->Some_0;
            if p.relative.len() == 0 {
                lemma_ecdsa_owed(had, key, psbt, i, p, n, key.handle);
            } else {
                let q = RequestView::DerivePath(key.handle, p.relative);
                assert forall|r: ReplyView| had(q, r) implies run::given(
                    #[trigger] (prog->Ask_1)(r),
                    had,
                    good,
                ) by {
                    if let ReplyView::Derived(Ok(used)) = r {
                        lemma_ecdsa_owed(had, key, psbt, i, p, n, used);
                    }
                }
            }
        },
        InputPlanView::Taproot(p) => {
            let n = choose|n: int| #[trigger]
                first_own_tap(input.tap_key_origins, key.fingerprint, n)
                    && input.tap_key_origins[n] == signing::own_tap_origin(
                    input.tap_key_origins,
                    key.fingerprint,
                )->Some_0;
            let none = Seq::<TapScriptSigView>::empty();
            lemma_leaf_plans(
                outside::encoded_tx(psbt.unsigned_tx),
                i as nat,
                signing::prevouts(psbt.inputs)->Ok_0,
                input.tap_key_origins[n].leaf_hashes,
                p.sighash_type,
            );
            assert(leaves_done(had, key, psbt, i, n, none));
            if p.leaves.len() == 0 {
                assert forall|m: int| #[trigger]
                    first_own_tap(input.tap_key_origins, key.fingerprint, m) implies m == n by {
                    if m < n {
                        assert(input.tap_key_origins[m].fingerprint != key.fingerprint);
                    }
                    if n < m {
                        assert(input.tap_key_origins[n].fingerprint != key.fingerprint);
                    }
                }
            } else if p.relative.len() == 0 {
                lemma_leaves_owed(had, key, psbt, i, p, n, key.handle, none);
            } else {
                let q = RequestView::DerivePath(key.handle, p.relative);
                assert forall|r: ReplyView| had(q, r) implies run::given(
                    #[trigger] (prog->Ask_1)(r),
                    had,
                    good,
                ) by {
                    if let ReplyView::Derived(Ok(used)) = r {
                        lemma_leaves_owed(had, key, psbt, i, p, n, used, none);
                    }
                }
            }
        },
    }
}

// ---------------------------------------------------------------------------
// The whole transaction
// ---------------------------------------------------------------------------

/// Whether an input has all the signatures that the signer owes it: one by its ECDSA
/// key, or else one for each leaf of its Taproot key.
pub open spec fn has_all_sigs(
    had: spec_fn(RequestView, ReplyView) -> bool,
    key: SigningKeyView,
    psbt: PsbtView,
    i: int,
    after: PsbtInputView,
) -> bool {
    let input = psbt.inputs[i];
    &&& forall|n: int| #[trigger]
        first_own(input.bip32_derivation, key.fingerprint, n) ==> exists|s: PartialSigView|
            #[trigger]
            after.partial_sigs.contains(s) && is_ecdsa_sig(had, key, psbt, i, s)
    &&& none_own(input.bip32_derivation, key.fingerprint) ==> forall|n: int, j: int|
        #![trigger first_own_tap(input.tap_key_origins, key.fingerprint, n), input.tap_key_origins[n].leaf_hashes[j]]
        first_own_tap(input.tap_key_origins, key.fingerprint, n) && 0 <= j
            < input.tap_key_origins[n].leaf_hashes.len() ==> exists|s: TapScriptSigView|
            #[trigger]
            after.tap_script_sigs.contains(s) && is_leaf_sig(had, key, psbt, i, s) && s.leaf_hash
                == input.tap_key_origins[n].leaf_hashes[j]
}

/// Whether what is new in each input is what the token gave for that input, and
/// whether, if all went well, nothing is missing.
pub open spec fn is_signed(
    had: spec_fn(RequestView, ReplyView) -> bool,
    key: SigningKeyView,
    psbt: PsbtView,
    out: Signed,
) -> bool {
    &&& out.0.inputs.len() == psbt.inputs.len()
    &&& forall|i: int, s: PartialSigView|
        0 <= i < psbt.inputs.len() && #[trigger] out.0.inputs[i].partial_sigs.contains(s)
            && !psbt.inputs[i].partial_sigs.contains(s) ==> is_ecdsa_sig(had, key, psbt, i, s)
    &&& forall|i: int, s: TapScriptSigView|
        0 <= i < psbt.inputs.len() && #[trigger] out.0.inputs[i].tap_script_sigs.contains(s)
            && !psbt.inputs[i].tap_script_sigs.contains(s) ==> is_leaf_sig(had, key, psbt, i, s)
    &&& out.1 is Ok ==> forall|i: int|
        #![trigger out.0.inputs[i]]
        0 <= i < psbt.inputs.len() ==> has_all_sigs(had, key, psbt, i, out.0.inputs[i])
}

spec fn signs_well(
    had: spec_fn(RequestView, ReplyView) -> bool,
    key: SigningKeyView,
    psbt: PsbtView,
) -> spec_fn(Signed) -> bool {
    |out: Signed| is_signed(had, key, psbt, out)
}

spec fn all_owed(
    had: spec_fn(RequestView, ReplyView) -> bool,
    key: SigningKeyView,
    psbt: PsbtView,
    done: Seq<InputSigsView>,
) -> bool {
    &&& done.len() <= psbt.inputs.len()
    &&& forall|i: int| 0 <= i < done.len() ==> owed(had, key, psbt, i, #[trigger] done[i])
}

pub(crate) proof fn lemma_with_sig(list: Seq<PartialSigView>, new: PartialSigView)
    ensures
        psbt::with_sig(list, new).contains(new),
        forall|s: PartialSigView| #[trigger]
            psbt::with_sig(list, new).contains(s) ==> s == new || list.contains(s),
    decreases list.len(),
{
    let after = psbt::with_sig(list, new);
    if list.len() == 0 || list[0].key == new.key {
        assert(after[0] == new);
        assert forall|s: PartialSigView| #[trigger] after.contains(s) implies s == new
            || list.contains(s) by {
            let i = after.index_of(s);
            if i > 0 {
                assert(list[i] == s);
            }
        }
    } else {
        let tail = list.drop_first();
        let rest = psbt::with_sig(tail, new);
        lemma_with_sig(tail, new);
        assert(after[rest.index_of(new) + 1] == new);
        assert forall|s: PartialSigView| #[trigger] after.contains(s) implies s == new
            || list.contains(s) by {
            let i = after.index_of(s);
            if i == 0 {
                assert(list[0] == s);
            } else {
                assert(rest[i - 1] == s);
                assert(rest.contains(s));
                if tail.contains(s) {
                    assert(list[tail.index_of(s) + 1] == s);
                }
            }
        }
    }
}

proof fn lemma_with_tap_sig(list: Seq<TapScriptSigView>, new: TapScriptSigView)
    ensures
        psbt::with_tap_sig(list, new).contains(new),
        forall|s: TapScriptSigView| #[trigger]
            psbt::with_tap_sig(list, new).contains(s) ==> s == new || list.contains(s),
        forall|s: TapScriptSigView| #[trigger]
            list.contains(s) ==> psbt::with_tap_sig(list, new).contains(s) || (s.key == new.key
                && s.leaf_hash == new.leaf_hash),
    decreases list.len(),
{
    let after = psbt::with_tap_sig(list, new);
    if list.len() == 0 || (list[0].key == new.key && list[0].leaf_hash == new.leaf_hash) {
        assert(after[0] == new);
        assert forall|s: TapScriptSigView| #[trigger] after.contains(s) implies s == new
            || list.contains(s) by {
            let i = after.index_of(s);
            if i > 0 {
                assert(list[i] == s);
            }
        }
        assert forall|s: TapScriptSigView| #[trigger] list.contains(s) implies after.contains(s)
            || (s.key == new.key && s.leaf_hash == new.leaf_hash) by {
            let i = list.index_of(s);
            if i > 0 {
                assert(after[i] == s);
            }
        }
    } else {
        let tail = list.drop_first();
        let rest = psbt::with_tap_sig(tail, new);
        lemma_with_tap_sig(tail, new);
        assert(after[rest.index_of(new) + 1] == new);
        assert forall|s: TapScriptSigView| #[trigger] after.contains(s) implies s == new
            || list.contains(s) by {
            let i = after.index_of(s);
            if i == 0 {
                assert(list[0] == s);
            } else {
                assert(rest[i - 1] == s);
                assert(rest.contains(s));
                if tail.contains(s) {
                    assert(list[tail.index_of(s) + 1] == s);
                }
            }
        }
        assert forall|s: TapScriptSigView| #[trigger] list.contains(s) implies after.contains(s)
            || (s.key == new.key && s.leaf_hash == new.leaf_hash) by {
            let i = list.index_of(s);
            if i == 0 {
                assert(after[0] == s);
            } else {
                assert(tail[i - 1] == s);
                assert(tail.contains(s));
                if rest.contains(s) {
                    assert(after[rest.index_of(s) + 1] == s);
                }
            }
        }
    }
}

/// Whether no key has two signatures for one leaf.
pub open spec fn one_for_each_leaf(list: Seq<TapScriptSigView>) -> bool {
    forall|i: int, j: int|
        #![trigger list[i], list[j]]
        0 <= i < j < list.len() ==> !(list[i].key == list[j].key && list[i].leaf_hash
            == list[j].leaf_hash)
}

/// Adding a Taproot signature puts it in place of the one by the same key for the
/// same leaf, leaves every other one as it was, and adds nothing else: signing twice
/// leaves one entry.
pub proof fn law_taproot_signature_is_put_in(list: Seq<TapScriptSigView>, new: TapScriptSigView)
    ensures
        psbt::with_tap_sig(list, new).contains(new),
        forall|s: TapScriptSigView|
            !(s.key == new.key && s.leaf_hash == new.leaf_hash) ==> (#[trigger] psbt::with_tap_sig(
                list,
                new,
            ).contains(s) == list.contains(s)),
        one_for_each_leaf(list) ==> forall|s: TapScriptSigView| #[trigger]
            psbt::with_tap_sig(list, new).contains(s) && s.key == new.key && s.leaf_hash
                == new.leaf_hash ==> s == new,
        psbt::with_tap_sig(list, new).len() <= list.len() + 1,
        (exists|i: int|
            0 <= i < list.len() && (#[trigger] list[i]).key == new.key && list[i].leaf_hash
                == new.leaf_hash) ==> psbt::with_tap_sig(list, new).len() == list.len(),
    decreases list.len(),
{
    lemma_with_tap_sig(list, new);
    let after = psbt::with_tap_sig(list, new);
    if list.len() != 0 {
        if list[0].key == new.key && list[0].leaf_hash == new.leaf_hash {
            assert forall|s: TapScriptSigView|
                one_for_each_leaf(list) && #[trigger] after.contains(s) && s.key == new.key
                    && s.leaf_hash == new.leaf_hash implies s == new by {
                let i = after.index_of(s);
                if i > 0 {
                    assert(list[i] == s);
                    assert(list[0].key == list[i].key);
                }
            }
        } else {
            let tail = list.drop_first();
            law_taproot_signature_is_put_in(tail, new);
            assert forall|i: int, j: int|
                #![trigger tail[i], tail[j]]
                one_for_each_leaf(list) && 0 <= i < j < tail.len() implies !(tail[i].key
                == tail[j].key && tail[i].leaf_hash == tail[j].leaf_hash) by {
                assert(list[i + 1] == tail[i] && list[j + 1] == tail[j]);
            }
            let rest = psbt::with_tap_sig(tail, new);
            assert forall|s: TapScriptSigView|
                one_for_each_leaf(list) && #[trigger] after.contains(s) && s.key == new.key
                    && s.leaf_hash == new.leaf_hash implies s == new by {
                let i = after.index_of(s);
                assert(i > 0);
                assert(rest[i - 1] == s);
                assert(rest.contains(s));
            }
            if exists|i: int|
                0 <= i < list.len() && (#[trigger] list[i]).key == new.key && list[i].leaf_hash
                    == new.leaf_hash {
                let i = choose|i: int|
                    0 <= i < list.len() && (#[trigger] list[i]).key == new.key && list[i].leaf_hash
                        == new.leaf_hash;
                assert(tail[i - 1] == list[i]);
            }
        }
    }
}

/// Whether the signatures hold one of `new` by this key for this leaf.
spec fn has_leaf(
    after: Seq<TapScriptSigView>,
    new: Seq<TapScriptSigView>,
    key: Seq<u8>,
    leaf: Seq<u8>,
) -> bool {
    exists|s: TapScriptSigView| #[trigger]
        after.contains(s) && new.contains(s) && s.key == key && s.leaf_hash == leaf
}

proof fn lemma_with_tap_sigs(list: Seq<TapScriptSigView>, new: Seq<TapScriptSigView>)
    ensures
        forall|s: TapScriptSigView| #[trigger]
            transaction::with_tap_sigs(list, new).contains(s) ==> new.contains(s) || list.contains(
                s,
            ),
        forall|j: int|
            0 <= j < new.len() ==> has_leaf(
                transaction::with_tap_sigs(list, new),
                new,
                (#[trigger] new[j]).key,
                new[j].leaf_hash,
            ),
    decreases new.len(),
{
    if new.len() != 0 {
        let rest = new.drop_last();
        let last = new.last();
        let mid = transaction::with_tap_sigs(list, rest);
        let after = transaction::with_tap_sigs(list, new);
        lemma_with_tap_sigs(list, rest);
        lemma_with_tap_sig(mid, last);
        assert(new[new.len() - 1] == last);
        assert(new.contains(last));
        assert forall|s: TapScriptSigView| #[trigger] rest.contains(s) implies new.contains(s) by {
            assert(new[rest.index_of(s)] == s);
        }
        assert forall|s: TapScriptSigView| #[trigger] after.contains(s) implies new.contains(s)
            || list.contains(s) by {
            if s != last {
                assert(mid.contains(s));
            }
        }
        assert forall|j: int| 0 <= j < new.len() implies has_leaf(
            after,
            new,
            (#[trigger] new[j]).key,
            new[j].leaf_hash,
        ) by {
            if j == new.len() - 1 {
                assert(after.contains(last));
            } else {
                assert(rest[j] == new[j]);
                let s = choose|s: TapScriptSigView| #[trigger]
                    mid.contains(s) && rest.contains(s) && s.key == new[j].key && s.leaf_hash
                        == new[j].leaf_hash;
                assert(rest.contains(s));
                if !after.contains(s) {
                    assert(after.contains(last));
                }
            }
        }
    }
}

proof fn lemma_put_in(
    had: spec_fn(RequestView, ReplyView) -> bool,
    key: SigningKeyView,
    psbt: PsbtView,
    i: int,
    sigs: InputSigsView,
)
    requires
        owed(had, key, psbt, i, sigs),
    ensures
        forall|s: PartialSigView| #[trigger]
            transaction::with_sigs(psbt.inputs[i], sigs).partial_sigs.contains(s)
                && !psbt.inputs[i].partial_sigs.contains(s) ==> is_ecdsa_sig(had, key, psbt, i, s),
        forall|s: TapScriptSigView| #[trigger]
            transaction::with_sigs(psbt.inputs[i], sigs).tap_script_sigs.contains(s)
                && !psbt.inputs[i].tap_script_sigs.contains(s) ==> is_leaf_sig(
                had,
                key,
                psbt,
                i,
                s,
            ),
        has_all_sigs(had, key, psbt, i, transaction::with_sigs(psbt.inputs[i], sigs)),
{
    let input = psbt.inputs[i];
    let after = transaction::with_sigs(input, sigs);
    match sigs {
        InputSigsView::Nothing => {},
        InputSigsView::Ecdsa(s) => {
            lemma_with_sig(input.partial_sigs, s);
            assert(after.partial_sigs.contains(s));
            let (n, used, digest, raw) = choose|
                n: int,
                used: ObjectHandle,
                digest: Seq<u8>,
                raw: Seq<u8>,
            | #[trigger]
                ecdsa_from(had, key, psbt, i, s, n, used, digest, raw);
            assert(input.bip32_derivation[n].fingerprint == key.fingerprint);
        },
        InputSigsView::Taproot(l) => {
            lemma_with_tap_sigs(input.tap_script_sigs, l);
            let list = after.tap_script_sigs;
            let n = choose|n: int| #[trigger]
                first_own_tap(input.tap_key_origins, key.fingerprint, n) && l.len()
                    == input.tap_key_origins[n].leaf_hashes.len() && leaves_done(
                    had,
                    key,
                    psbt,
                    i,
                    n,
                    l,
                );
            assert forall|s: TapScriptSigView| #[trigger] l.contains(s) implies is_leaf_sig(
                had,
                key,
                psbt,
                i,
                s,
            ) by {
                assert(l[l.index_of(s)] == s);
            }
            assert forall|m: int, j: int|
                #![trigger first_own_tap(input.tap_key_origins, key.fingerprint, m), input.tap_key_origins[m].leaf_hashes[j]]
                first_own_tap(input.tap_key_origins, key.fingerprint, m) && 0 <= j
                    < input.tap_key_origins[m].leaf_hashes.len() implies exists|
                s: TapScriptSigView,
            | #[trigger]
                list.contains(s) && is_leaf_sig(had, key, psbt, i, s) && s.leaf_hash
                    == input.tap_key_origins[m].leaf_hashes[j] by {
                if m < n {
                    assert(input.tap_key_origins[m].fingerprint != key.fingerprint);
                }
                if n < m {
                    assert(input.tap_key_origins[n].fingerprint != key.fingerprint);
                }
                assert(has_leaf(list, l, l[j].key, l[j].leaf_hash));
                let s = choose|s: TapScriptSigView| #[trigger]
                    list.contains(s) && l.contains(s) && s.key == l[j].key && s.leaf_hash
                        == l[j].leaf_hash;
                assert(list.contains(s));
                assert(l.contains(s));
            }
        },
    }
}

proof fn lemma_all_put_in(
    had: spec_fn(RequestView, ReplyView) -> bool,
    key: SigningKeyView,
    psbt: PsbtView,
    done: Seq<InputSigsView>,
    outcome: Result<(), Seq<char>>,
)
    requires
        all_owed(had, key, psbt, done),
        outcome is Ok ==> done.len() == psbt.inputs.len(),
    ensures
        is_signed(had, key, psbt, (transaction::with_inputs(psbt, done), outcome)),
{
    let after = transaction::with_inputs(psbt, done);
    assert forall|i: int, s: PartialSigView|
        0 <= i < psbt.inputs.len() && #[trigger] after.inputs[i].partial_sigs.contains(s)
            && !psbt.inputs[i].partial_sigs.contains(s) implies is_ecdsa_sig(
        had,
        key,
        psbt,
        i,
        s,
    ) by {
        if i < done.len() {
            lemma_put_in(had, key, psbt, i, done[i]);
        }
    }
    assert forall|i: int, s: TapScriptSigView|
        0 <= i < psbt.inputs.len() && #[trigger] after.inputs[i].tap_script_sigs.contains(s)
            && !psbt.inputs[i].tap_script_sigs.contains(s) implies is_leaf_sig(
        had,
        key,
        psbt,
        i,
        s,
    ) by {
        if i < done.len() {
            lemma_put_in(had, key, psbt, i, done[i]);
        }
    }
    if outcome is Ok {
        assert forall|i: int|
            #![trigger after.inputs[i]]
            0 <= i < psbt.inputs.len() implies has_all_sigs(
            had,
            key,
            psbt,
            i,
            after.inputs[i],
        ) by {
            lemma_put_in(had, key, psbt, i, done[i]);
        }
    }
}

proof fn lemma_nothing_put_in(
    had: spec_fn(RequestView, ReplyView) -> bool,
    key: SigningKeyView,
    psbt: PsbtView,
    t: Seq<char>,
)
    ensures
        is_signed(had, key, psbt, (psbt, Err(t))),
{
}

proof fn lemma_finishing_signed(
    had: spec_fn(RequestView, ReplyView) -> bool,
    key: SigningKeyView,
    max: Option<u32>,
    psbt: PsbtView,
    done: Seq<InputSigsView>,
    outcome: Result<(), Seq<char>>,
)
    requires
        all_owed(had, key, psbt, done),
        outcome is Ok ==> done.len() == psbt.inputs.len(),
    ensures
        run::given(
            transaction::finishing(key.label, max, psbt, done, outcome),
            had,
            signs_well(had, key, psbt),
        ),
{
    let good = signs_well(had, key, psbt);
    lemma_all_put_in(had, key, psbt, done, outcome);
    if transaction::any_signed(done) {
        let anything = |d: Result<(), Pkcs11ErrorView>| true;
        let next = transaction::then_hand_back(psbt, done, outcome);
        run::lemma_given_all(policy::rate_recording(key.label, max), had, anything);
        assert forall|d: Result<(), Pkcs11ErrorView>| anything(d) implies run::given(
            #[trigger] next(d),
            had,
            good,
        ) by {
            if let Err(e) = d {
                lemma_nothing_put_in(had, key, psbt, e.text());
                if let Err(t) = outcome {
                    lemma_nothing_put_in(had, key, psbt, t);
                }
            }
        }
        run::lemma_given_bind(
            policy::rate_recording(key.label, max),
            next,
            had,
            anything,
            good,
        );
    } else {
        let after = transaction::with_inputs(psbt, done);
        assert(after.inputs =~= psbt.inputs) by {
            assert forall|i: int| 0 <= i < psbt.inputs.len() implies #[trigger] after.inputs[i]
                == psbt.inputs[i] by {
                if i < done.len() {
                    assert(done[i] is Nothing);
                }
            }
        }
        assert(after == psbt);
    }
}

proof fn lemma_inputs_signed(
    had: spec_fn(RequestView, ReplyView) -> bool,
    key: SigningKeyView,
    max: Option<u32>,
    psbt: PsbtView,
    done: Seq<InputSigsView>,
)
    requires
        all_owed(had, key, psbt, done),
    ensures
        run::given(
            transaction::inputs_signing(key, max, psbt, done),
            had,
            signs_well(had, key, psbt),
        ),
    decreases psbt.inputs.len() - done.len(),
{
    let good = signs_well(had, key, psbt);
    if done.len() >= psbt.inputs.len() {
        lemma_finishing_signed(had, key, max, psbt, done, Ok(()));
    } else {
        let i = done.len() as int;
        let plan = signing::input_plan(key, psbt, done.len());
        let prog = signing::plan_signing(key.label, key.handle, plan);
        let next = transaction::then_next_input(key, max, psbt, done);
        let middle = owed_if_ok(had, key, psbt, i);
        lemma_input_owed(had, key, psbt, i);
        assert forall|d: Result<InputSigsView, Seq<char>>| middle(d) implies run::given(
            #[trigger] next(d),
            had,
            good,
        ) by {
            match d {
                Ok(sigs) => {
                    let more = done.push(sigs);
                    assert(all_owed(had, key, psbt, more)) by {
                        assert forall|j: int| 0 <= j < more.len() implies owed(
                            had,
                            key,
                            psbt,
                            j,
                            #[trigger] more[j],
                        ) by {
                            if j < done.len() {
                                assert(more[j] == done[j]);
                            }
                        }
                    }
                    lemma_inputs_signed(had, key, max, psbt, more);
                },
                Err(t) => {
                    lemma_finishing_signed(had, key, max, psbt, done, Err(t));
                },
            }
        }
        run::lemma_given_bind(prog, next, had, middle, good);
    }
}

proof fn lemma_transaction_signed(
    had: spec_fn(RequestView, ReplyView) -> bool,
    key: SigningKeyView,
    psbt: PsbtView,
)
    ensures
        run::given(
            transaction::transaction_signing(key, psbt),
            had,
            signs_well(had, key, psbt),
        ),
{
    let good = signs_well(had, key, psbt);
    let next = transaction::then_check(key, psbt);
    let middle = |d: Result<PolicyView, Pkcs11ErrorView>| true;
    run::lemma_given_all(policy::policy_loading(key.label), had, middle);
    assert forall|d: Result<PolicyView, Pkcs11ErrorView>| middle(d) implies run::given(
        #[trigger] next(d),
        had,
        good,
    ) by {
        match d {
            Err(e) => {
                lemma_nothing_put_in(had, key, psbt, e.text());
            },
            Ok(p) => {
                let max = p.max_signatures_per_hour;
                match p.check(psbt.unsigned_tx.output, key.network) {
                    Err(e) => {
                        lemma_nothing_put_in(had, key, psbt, e.text());
                    },
                    Ok(_) => {
                        if signing::any_ours(key.fingerprint, psbt.inputs) {
                            let sign = transaction::then_sign(key, max, psbt);
                            let anything = |c: Result<(), Pkcs11ErrorView>| true;
                            run::lemma_given_all(
                                policy::rate_checking(key.label, max),
                                had,
                                anything,
                            );
                            lemma_inputs_signed(had, key, max, psbt, Seq::empty());
                            assert forall|c: Result<(), Pkcs11ErrorView>| anything(c) implies
                                run::given(#[trigger] sign(c), had, good) by {
                                if let Err(e) = c {
                                    lemma_nothing_put_in(had, key, psbt, e.text());
                                }
                            }
                            run::lemma_given_bind(
                                policy::rate_checking(key.label, max),
                                sign,
                                had,
                                anything,
                                good,
                            );
                        } else {
                            assert forall|i: int|
                                #![trigger psbt.inputs[i]]
                                0 <= i < psbt.inputs.len() implies has_all_sigs(
                                had,
                                key,
                                psbt,
                                i,
                                psbt.inputs[i],
                            ) by {
                                let input = psbt.inputs[i];
                                assert(!signing::ours(key.fingerprint, input));
                                law_own_key_is_the_first(
                                    input.bip32_derivation,
                                    input.tap_key_origins,
                                    key.fingerprint,
                                );
                            }
                        }
                    },
                }
            },
        }
    }
    run::lemma_given_bind(policy::policy_loading(key.label), next, had, middle, good);
}

/// What a run had asked and answered.
pub open spec fn exchanges<A>(prog: Prog<A>, replies: Seq<ReplyView>) -> spec_fn(
    RequestView,
    ReplyView,
) -> bool {
    |q: RequestView, r: ReplyView| run::answered(prog, replies, q, r)
}

/// Each signature that a run of the signer puts into an input is one that the token
/// gave in that run for this very input: asked for over the digest by the
/// transaction, the input's own index, the script and the amount it spends, and the
/// number it asks for, by the key at the end of what the path of its key has behind
/// the federation path; and brought to the form that nodes accept. A Taproot
/// signature is one for a leaf of the input's Taproot key. If all went well, no
/// input of the signer's is without.
pub proof fn law_signatures_are_of_their_inputs(
    key: SigningKeyView,
    psbt: PsbtView,
    replies: Seq<ReplyView>,
    out: Signed,
)
    requires
        run::behind(transaction::transaction_signing(key, psbt), replies) == Prog::Done(out),
    ensures
        is_signed(
            exchanges(transaction::transaction_signing(key, psbt), replies),
            key,
            psbt,
            out,
        ),
{
    let prog = transaction::transaction_signing(key, psbt);
    let had = exchanges(prog, replies);
    lemma_transaction_signed(had, key, psbt);
    assert forall|j: int| 0 <= j < replies.len() implies had(
        run::asked(prog, replies)[j],
        #[trigger] replies[j],
    ) by {}
    run::lemma_given_behind(prog, had, signs_well(had, key, psbt), replies);
}

// ---------------------------------------------------------------------------
// What is asked for
// ---------------------------------------------------------------------------

/// Whether a request is one that some input of the signer's needs: to derive the key
/// for it, or to sign its digest.
pub open spec fn needed(key: SigningKeyView, psbt: PsbtView, q: RequestView) -> bool {
    match q {
        RequestView::SignEcdsa(_, digest) => exists|i: int, n: int|
            #![trigger psbt.inputs[i].bip32_derivation[n]]
            0 <= i < psbt.inputs.len() && first_own(
                psbt.inputs[i].bip32_derivation,
                key.fingerprint,
                n,
            ) && is_input_digest(psbt, i, digest),
        RequestView::SignSchnorr { key: _, label, path, digest } => label == key.label && exists|
            i: int,
            n: int,
            j: int,
        |
            #![trigger psbt.inputs[i].tap_key_origins[n].leaf_hashes[j]]
            0 <= i < psbt.inputs.len() && first_own_tap(
                psbt.inputs[i].tap_key_origins,
                key.fingerprint,
                n,
            ) && psbt.inputs[i].tap_key_origins[n].path == path && 0 <= j
                < psbt.inputs[i].tap_key_origins[n].leaf_hashes.len() && is_leaf_digest(
                psbt,
                i,
                psbt.inputs[i].tap_key_origins[n].leaf_hashes[j],
                digest,
            ),
        RequestView::DerivePath(from, path) => from == key.handle && {
            ||| exists|i: int, n: int|
                #![trigger psbt.inputs[i].bip32_derivation[n]]
                0 <= i < psbt.inputs.len() && first_own(
                    psbt.inputs[i].bip32_derivation,
                    key.fingerprint,
                    n,
                ) && path == tail(key, psbt.inputs[i].bip32_derivation[n].path)
            ||| exists|i: int, n: int|
                #![trigger psbt.inputs[i].tap_key_origins[n]]
                0 <= i < psbt.inputs.len() && first_own_tap(
                    psbt.inputs[i].tap_key_origins,
                    key.fingerprint,
                    n,
                ) && path == tail(key, psbt.inputs[i].tap_key_origins[n].path)
        },
        RequestView::StrategySign(_, _) => false,
        RequestView::DeriveKey { .. } => false,
        RequestView::DeriveChild(_, _) => false,
        RequestView::DeriveMasterKey(_, _) => false,
        _ => true,
    }
}

/// Whether a request is one that no input of the signer's needs.
pub open spec fn needless(key: SigningKeyView, psbt: PsbtView) -> spec_fn(RequestView) -> bool {
    |q: RequestView| !needed(key, psbt, q)
}

/// Whether a request uses a key: to sign, or to derive another.
pub open spec fn uses_key(q: RequestView) -> bool {
    ||| q is SignEcdsa
    ||| q is SignSchnorr
    ||| q is StrategySign
    ||| q is DeriveKey
    ||| q is DeriveChild
    ||| q is DeriveMasterKey
    ||| q is DerivePath
}

proof fn lemma_reading_uses_no_key(label: Seq<char>, bad: spec_fn(RequestView) -> bool)
    requires
        forall|q: RequestView| #[trigger] bad(q) ==> uses_key(q),
    ensures
        run::never(store::read_data(label), bad),
{
    reveal_with_fuel(run::never, 2);
    let prog = store::read_data(label);
    assert forall|r: ReplyView| run::never(#[trigger] (prog->Ask_1)(r), bad) by {
        if let ReplyView::Handles(Ok(handles)) = r {
            assert(run::never(store::read_found(label, handles), bad));
        }
    }
}

proof fn lemma_destroying_uses_no_key(
    handles: Seq<ObjectHandle>,
    bad: spec_fn(RequestView) -> bool,
)
    requires
        forall|q: RequestView| #[trigger] bad(q) ==> uses_key(q),
    ensures
        run::never(store::destroy_all(handles), bad),
    decreases handles.len(),
{
    let prog = store::destroy_all(handles);
    if handles.len() != 0 {
        assert forall|r: ReplyView| run::never(#[trigger] (prog->Ask_1)(r), bad) by {
            if let ReplyView::Unit(Ok(_)) = r {
                lemma_destroying_uses_no_key(handles.drop_first(), bad);
            }
        }
    }
}

proof fn lemma_replacing_uses_no_key(
    label: Seq<char>,
    encode: RequestView,
    bad: spec_fn(RequestView) -> bool,
)
    requires
        forall|q: RequestView| #[trigger] bad(q) ==> uses_key(q),
        !uses_key(encode),
    ensures
        run::never(store::replace_data(label, encode), bad),
{
    let prog = store::replace_data(label, encode);
    assert forall|r: ReplyView| run::never(#[trigger] (prog->Ask_1)(r), bad) by {
        if let ReplyView::Handles(Ok(handles)) = r {
            let first = store::encode_and_create(label, encode);
            let next = store::then_clear(handles);
            assert(run::never(first, bad)) by {
                reveal_with_fuel(run::never, 3);
                assert forall|c: ReplyView| run::never(#[trigger] (first->Ask_1)(c), bad) by {
                    if let ReplyView::Encoded(Ok(value)) = c {
                        assert(run::never(store::create_data(label, value), bad));
                    }
                }
            }
            assert forall|d: Result<ObjectHandle, Pkcs11ErrorView>| run::never(
                #[trigger] next(d),
                bad,
            ) by {
                if let Ok(new) = d {
                    let settle = store::then_settle(new);
                    lemma_destroying_uses_no_key(handles, bad);
                    assert forall|c: Result<(), Pkcs11ErrorView>| run::never(
                        #[trigger] settle(c),
                        bad,
                    ) by {
                        reveal_with_fuel(run::never, 2);
                    }
                    run::lemma_never_bind(store::destroy_all(handles), settle, bad);
                }
            }
            run::lemma_never_bind(first, next, bad);
        }
    }
}

/// Reading the policy, holding the counter against a ceiling and counting use no
/// key.
pub(crate) proof fn lemma_bookkeeping_uses_no_key(
    label: Seq<char>,
    max: Option<u32>,
    bad: spec_fn(RequestView) -> bool,
)
    requires
        forall|q: RequestView| #[trigger] bad(q) ==> uses_key(q),
    ensures
        run::never(policy::policy_loading(label), bad),
        run::never(policy::rate_checking(label, max), bad),
        run::never(policy::rate_recording(label, max), bad),
{
    reveal_with_fuel(run::never, 2);
    lemma_reading_uses_no_key(key_ops::namespaced(label, "policy"@), bad);
    lemma_reading_uses_no_key(key_ops::namespaced(label, "sigrate"@), bad);
    run::lemma_never_bind(
        store::read_data(key_ops::namespaced(label, "policy"@)),
        policy::then_decode_policy(),
        bad,
    );
    run::lemma_never_bind(
        store::read_data(key_ops::namespaced(label, "sigrate"@)),
        policy::then_decode_sigrate(),
        bad,
    );
    if let Some(max) = max {
        run::lemma_never_bind(policy::sigrate_loading(label), policy::then_check_now(max), bad);
        let next = policy::then_count_one(label, max);
        assert forall|d: Result<Seq<u64>, Pkcs11ErrorView>| run::never(#[trigger] next(d), bad) by {
            if let Ok(times) = d {
                let count = policy::count_one(label, times, max);
                assert forall|r: ReplyView| run::never(#[trigger] (count->Ask_1)(r), bad) by {
                    if let ReplyView::Time(now) = r {
                        if policy::check_rate(times, now, max) is Ok {
                            let new = policy::recent(times, now).push(now);
                            lemma_replacing_uses_no_key(
                                key_ops::namespaced(label, "sigrate"@),
                                RequestView::EncodeSigRate(new),
                                bad,
                            );
                            run::lemma_never_bind(
                                store::replace_data(
                                    key_ops::namespaced(label, "sigrate"@),
                                    RequestView::EncodeSigRate(new),
                                ),
                                store::then_forget(),
                                bad,
                            );
                        }
                    }
                }
            }
        }
        run::lemma_never_bind(policy::sigrate_loading(label), next, bad);
    }
}

proof fn lemma_ecdsa_needed(
    key: SigningKeyView,
    psbt: PsbtView,
    plan: EcdsaPlanView,
    used: ObjectHandle,
)
    requires
        needed(key, psbt, RequestView::SignEcdsa(used, plan.digest)),
    ensures
        run::never(signing::ecdsa_with(key.handle, plan, used), needless(key, psbt)),
{
    let bad = needless(key, psbt);
    let first = ecdsa::low_s_signing(used, plan.digest);
    let next = signing::then_drop_child(key.handle, plan, used);
    assert(run::never(first, bad)) by {
        reveal_with_fuel(run::never, 2);
    }
    assert forall|d: Result<Seq<u8>, Pkcs11ErrorView>| run::never(#[trigger] next(d), bad) by {
        reveal_with_fuel(run::never, 2);
    }
    run::lemma_never_bind(first, next, bad);
}

proof fn lemma_leaves_needed(
    key: SigningKeyView,
    psbt: PsbtView,
    i: int,
    n: int,
    plan: TaprootPlanView,
    used: ObjectHandle,
    done: Seq<TapScriptSigView>,
)
    requires
        0 <= i < psbt.inputs.len(),
        first_own_tap(psbt.inputs[i].tap_key_origins, key.fingerprint, n),
        signing::taproot_plan(key, psbt, i as nat, psbt.inputs[i].tap_key_origins[n])
            == InputPlanView::Taproot(plan),
    ensures
        run::never(
            signing::leaf_signing(key.label, key.handle, plan, used, done),
            needless(key, psbt),
        ),
    decreases plan.leaves.len() - done.len(),
{
    let bad = needless(key, psbt);
    let prog = signing::leaf_signing(key.label, key.handle, plan, used, done);
    let own = psbt.inputs[i].tap_key_origins[n];
    if done.len() >= plan.leaves.len() {
        reveal_with_fuel(run::never, 2);
    } else {
        lemma_prevouts(psbt.inputs);
        lemma_leaf_plans(
            outside::encoded_tx(psbt.unsigned_tx),
            i as nat,
            signing::prevouts(psbt.inputs)->Ok_0,
            own.leaf_hashes,
            plan.sighash_type,
        );
        let j = done.len() as int;
        let leaf = plan.leaves[j];
        assert(own.leaf_hashes[j] == leaf.leaf_hash);
        assert(is_leaf_digest(psbt, i, leaf.leaf_hash, leaf.digest));
        assert(psbt.inputs[i].tap_key_origins[n].leaf_hashes[j] == leaf.leaf_hash);
        assert(needed(key, psbt, prog->Ask_0));
        assert forall|r: ReplyView| run::never(#[trigger] (prog->Ask_1)(r), bad) by {
            match r {
                ReplyView::Schnorr(Ok(signature)) => {
                    let s = TapScriptSigView {
                        key: plan.key,
                        leaf_hash: leaf.leaf_hash,
                        signature,
                        sighash_type: plan.sighash_type,
                    };
                    lemma_leaves_needed(key, psbt, i, n, plan, used, done.push(s));
                },
                ReplyView::Schnorr(Err(e)) => {
                    reveal_with_fuel(run::never, 2);
                },
                _ => {},
            }
        }
    }
}

proof fn lemma_plan_needed(key: SigningKeyView, psbt: PsbtView, i: int)
    requires
        0 <= i < psbt.inputs.len(),
    ensures
        run::never(
            signing::plan_signing(
                key.label,
                key.handle,
                signing::input_plan(key, psbt, i as nat),
            ),
            needless(key, psbt),
        ),
{
    let bad = needless(key, psbt);
    let input = psbt.inputs[i];
    let plan = signing::input_plan(key, psbt, i as nat);
    let prog = signing::plan_signing(key.label, key.handle, plan);
    law_own_key_is_the_first(input.bip32_derivation, input.tap_key_origins, key.fingerprint);
    match plan {
        InputPlanView::Ecdsa(p) => {
            let n = choose|n: int| #[trigger]
                first_own(input.bip32_derivation, key.fingerprint, n)
                    && input.bip32_derivation[n] == signing::own_origin(
                    input.bip32_derivation,
                    key.fingerprint,
                )->Some_0;
            let own = psbt.inputs[i].bip32_derivation[n];
            assert(is_input_digest(psbt, i, p.digest));
            assert(p.relative =~= tail(key, own.path));
            lemma_ecdsa_needed(key, psbt, p, key.handle);
            if p.relative.len() != 0 {
                assert(needed(key, psbt, prog->Ask_0));
                assert forall|r: ReplyView| run::never(#[trigger] (prog->Ask_1)(r), bad) by {
                    if let ReplyView::Derived(Ok(used)) = r {
                        lemma_ecdsa_needed(key, psbt, p, used);
                    }
                }
            }
        },
        InputPlanView::Taproot(p) => {
            let n = choose|n: int| #[trigger]
                first_own_tap(input.tap_key_origins, key.fingerprint, n)
                    && input.tap_key_origins[n] == signing::own_tap_origin(
                    input.tap_key_origins,
                    key.fingerprint,
                )->Some_0;
            let own = psbt.inputs[i].tap_key_origins[n];
            let none = Seq::<TapScriptSigView>::empty();
            assert(p.relative =~= tail(key, own.path));
            lemma_leaves_needed(key, psbt, i, n, p, key.handle, none);
            if p.leaves.len() != 0 && p.relative.len() != 0 {
                assert(needed(key, psbt, prog->Ask_0));
                assert forall|r: ReplyView| run::never(#[trigger] (prog->Ask_1)(r), bad) by {
                    if let ReplyView::Derived(Ok(used)) = r {
                        lemma_leaves_needed(key, psbt, i, n, p, used, none);
                    }
                }
            }
        },
        _ => {},
    }
}

proof fn lemma_inputs_needed(
    key: SigningKeyView,
    max: Option<u32>,
    psbt: PsbtView,
    done: Seq<InputSigsView>,
)
    ensures
        run::never(transaction::inputs_signing(key, max, psbt, done), needless(key, psbt)),
    decreases psbt.inputs.len() - done.len(),
{
    let bad = needless(key, psbt);
    lemma_bookkeeping_uses_no_key(key.label, max, bad);
    assert forall|outcome: Result<(), Seq<char>>| run::never(
        #[trigger] transaction::finishing(key.label, max, psbt, done, outcome),
        bad,
    ) by {
        let back = transaction::then_hand_back(psbt, done, outcome);
        run::lemma_never_bind(policy::rate_recording(key.label, max), back, bad);
    }
    if done.len() < psbt.inputs.len() {
        let plan = signing::input_plan(key, psbt, done.len());
        let prog = signing::plan_signing(key.label, key.handle, plan);
        let next = transaction::then_next_input(key, max, psbt, done);
        lemma_plan_needed(key, psbt, done.len() as int);
        assert forall|d: Result<InputSigsView, Seq<char>>| run::never(#[trigger] next(d), bad) by {
            match d {
                Ok(sigs) => {
                    lemma_inputs_needed(key, max, psbt, done.push(sigs));
                },
                Err(t) => {
                    let end = transaction::finishing(key.label, max, psbt, done, Err(t));
                    assert(run::never(end, bad));
                },
            }
        }
        run::lemma_never_bind(prog, next, bad);
    }
}

/// The signer asks to sign a digest, and to derive a key, only where an input of its
/// own needs it: each digest is that of an input with its own index, script and
/// amount, and each derivation follows what the path of a key has behind the
/// federation path.
pub proof fn law_asks_for_own_inputs_only(key: SigningKeyView, psbt: PsbtView)
    ensures
        run::never(transaction::transaction_signing(key, psbt), needless(key, psbt)),
{
    let bad = needless(key, psbt);
    let next = transaction::then_check(key, psbt);
    lemma_bookkeeping_uses_no_key(key.label, None, bad);
    assert forall|d: Result<PolicyView, Pkcs11ErrorView>| run::never(#[trigger] next(d), bad) by {
        if let Ok(p) = d {
            let max = p.max_signatures_per_hour;
            let sign = transaction::then_sign(key, max, psbt);
            lemma_bookkeeping_uses_no_key(key.label, max, bad);
            lemma_inputs_needed(key, max, psbt, Seq::empty());
            assert forall|c: Result<(), Pkcs11ErrorView>| run::never(#[trigger] sign(c), bad) by {}
            run::lemma_never_bind(policy::rate_checking(key.label, max), sign, bad);
        }
    }
    run::lemma_never_bind(policy::policy_loading(key.label), next, bad);
}

/// For an input of the signer's with an ECDSA key, once the inputs before it are
/// done, the signer asks for the key at the end of what the path has behind the
/// federation path, unless that is the federation key, and then for a signature by it
/// over the digest of this very input.
pub proof fn law_ecdsa_input_is_asked_for(
    key: SigningKeyView,
    max: Option<u32>,
    psbt: PsbtView,
    done: Seq<InputSigsView>,
    n: int,
    digest: Seq<u8>,
)
    requires
        done.len() < psbt.inputs.len(),
        first_own(psbt.inputs[done.len() as int].bip32_derivation, key.fingerprint, n),
        psbt.inputs[done.len() as int].bip32_derivation[n].path.len() >= key.path.len(),
        is_input_digest(psbt, done.len() as int, digest),
    ensures
        ({
            let prog = transaction::inputs_signing(key, max, psbt, done);
            let rest = tail(key, psbt.inputs[done.len() as int].bip32_derivation[n].path);
            &&& prog is Ask
            &&& rest.len() == 0 ==> prog->Ask_0 == RequestView::SignEcdsa(key.handle, digest)
            &&& rest.len() != 0 ==> {
                &&& prog->Ask_0 == RequestView::DerivePath(key.handle, rest)
                &&& forall|used: ObjectHandle|
                    {
                        let then = #[trigger] (prog->Ask_1)(ReplyView::Derived(Ok(used)));
                        then is Ask && then->Ask_0 == RequestView::SignEcdsa(used, digest)
                    }
            }
        }),
{
    let i = done.len() as int;
    let input = psbt.inputs[i];
    let own = input.bip32_derivation[n];
    law_own_key_is_the_first(input.bip32_derivation, input.tap_key_origins, key.fingerprint);
    let found = signing::own_origin(input.bip32_derivation, key.fingerprint);
    assert(found == Some(own)) by {
        assert(own.fingerprint == key.fingerprint);
        let m = choose|m: int| #[trigger]
            first_own(input.bip32_derivation, key.fingerprint, m) && input.bip32_derivation[m]
                == found->Some_0;
        if m < n {
            assert(input.bip32_derivation[m].fingerprint != key.fingerprint);
        }
        if n < m {
            assert(input.bip32_derivation[n].fingerprint != key.fingerprint);
        }
    }
    let plan = signing::input_plan(key, psbt, done.len());
    let p = plan->Ecdsa_0;
    assert(plan is Ecdsa && p.digest == digest);
    assert(p.relative =~= tail(key, own.path));
    let prog = signing::plan_signing(key.label, key.handle, plan);
    let next = transaction::then_next_input(key, max, psbt, done);
    let whole = transaction::inputs_signing(key, max, psbt, done);
    assert(whole == prog.bind(next));
    if p.relative.len() != 0 {
        assert(forall|r: ReplyView| #[trigger] (whole->Ask_1)(r) == (prog->Ask_1)(r).bind(next));
        assert forall|used: ObjectHandle|
            {
                let then = #[trigger] (whole->Ask_1)(ReplyView::Derived(Ok(used)));
                then is Ask && then->Ask_0 == RequestView::SignEcdsa(used, digest)
            } by {
            let r = ReplyView::Derived(Ok(used));
            assert((prog->Ask_1)(r) == signing::ecdsa_with(key.handle, p, used));
        }
    } else {
        assert(prog == signing::ecdsa_with(key.handle, p, key.handle));
    }
}

/// For an input of the signer's with a Taproot key and a leaf, once the inputs before
/// it are done, the signer asks for the key at the end of what the path has behind
/// the federation path, unless that is the federation key, and then for a Taproot
/// signature by it over the digest of the first leaf of this very input.
pub proof fn law_taproot_input_is_asked_for(
    key: SigningKeyView,
    max: Option<u32>,
    psbt: PsbtView,
    done: Seq<InputSigsView>,
    n: int,
    digests: Seq<Seq<u8>>,
)
    requires
        done.len() < psbt.inputs.len(),
        none_own(psbt.inputs[done.len() as int].bip32_derivation, key.fingerprint),
        first_own_tap(psbt.inputs[done.len() as int].tap_key_origins, key.fingerprint, n),
        key.taproot,
        psbt.inputs[done.len() as int].tap_key_origins[n].path.len() >= key.path.len(),
        psbt.inputs[done.len() as int].tap_key_origins[n].leaf_hashes.len() > 0,
        digests.len() == psbt.inputs[done.len() as int].tap_key_origins[n].leaf_hashes.len(),
        forall|j: int|
            0 <= j < digests.len() ==> is_leaf_digest(
                psbt,
                done.len() as int,
                psbt.inputs[done.len() as int].tap_key_origins[n].leaf_hashes[j],
                #[trigger] digests[j],
            ),
    ensures
        ({
            let prog = transaction::inputs_signing(key, max, psbt, done);
            let own = psbt.inputs[done.len() as int].tap_key_origins[n];
            let rest = tail(key, own.path);
            &&& prog is Ask
            &&& rest.len() == 0 ==> prog->Ask_0 == RequestView::SignSchnorr {
                key: key.handle,
                label: key.label,
                path: own.path,
                digest: digests[0],
            }
            &&& rest.len() != 0 ==> {
                &&& prog->Ask_0 == RequestView::DerivePath(key.handle, rest)
                &&& forall|used: ObjectHandle|
                    {
                        let next = #[trigger] (prog->Ask_1)(ReplyView::Derived(Ok(used)));
                        next is Ask && next->Ask_0 == RequestView::SignSchnorr {
                            key: used,
                            label: key.label,
                            path: own.path,
                            digest: digests[0],
                        }
                    }
            }
        }),
{
    let i = done.len() as int;
    let input = psbt.inputs[i];
    let own = input.tap_key_origins[n];
    lemma_own_is(input.bip32_derivation, input.tap_key_origins, key.fingerprint, n);
    lemma_prevouts(psbt.inputs);
    assert(is_leaf_digest(psbt, i, own.leaf_hashes[0], digests[0]));
    let number = asked_or(input.sighash_type, 0) as u8;
    let spent = psbt.inputs.map_values(|input: PsbtInputView| input.witness_utxo->Some_0);
    assert forall|j: int| 0 <= j < digests.len() implies outside::tapscript_digest(
        outside::encoded_tx(psbt.unsigned_tx),
        i as nat,
        spent,
        own.leaf_hashes[j],
        number,
    ) == Ok::<Seq<u8>, Seq<char>>(#[trigger] digests[j]) by {
        assert(is_leaf_digest(psbt, i, own.leaf_hashes[j], digests[j]));
    }
    lemma_leaf_plans_are(
        outside::encoded_tx(psbt.unsigned_tx),
        i as nat,
        spent,
        own.leaf_hashes,
        number,
        digests,
    );
    let plan = signing::input_plan(key, psbt, done.len());
    assert(plan == signing::taproot_plan(key, psbt, i as nat, own));
    let p = plan->Taproot_0;
    assert(plan is Taproot);
    assert(p.relative =~= tail(key, own.path));
    assert(p.leaves[0].digest == digests[0]);
    let prog = signing::plan_signing(key.label, key.handle, plan);
    let next = transaction::then_next_input(key, max, psbt, done);
    let whole = transaction::inputs_signing(key, max, psbt, done);
    let none = Seq::<TapScriptSigView>::empty();
    assert(whole == prog.bind(next));
    if p.relative.len() != 0 {
        assert(forall|r: ReplyView| #[trigger] (whole->Ask_1)(r) == (prog->Ask_1)(r).bind(next));
        assert forall|used: ObjectHandle|
            {
                let later = #[trigger] (whole->Ask_1)(ReplyView::Derived(Ok(used)));
                later is Ask && later->Ask_0 == RequestView::SignSchnorr {
                    key: used,
                    label: key.label,
                    path: own.path,
                    digest: digests[0],
                }
            } by {
            let r = ReplyView::Derived(Ok(used));
            assert((prog->Ask_1)(r) == signing::leaf_signing(
                key.label,
                key.handle,
                p,
                used,
                none,
            ));
        }
    } else {
        assert(prog == signing::leaf_signing(key.label, key.handle, p, key.handle, none));
    }
}

/// What is found first is what is taken.
proof fn lemma_own_is(
    list: Seq<KeyOriginView>,
    taps: Seq<TapKeyOriginView>,
    fingerprint: Seq<u8>,
    n: int,
)
    ensures
        first_own(list, fingerprint, n) ==> signing::own_origin(list, fingerprint) == Some(list[n]),
        none_own(list, fingerprint) ==> signing::own_origin(list, fingerprint) is None,
        first_own_tap(taps, fingerprint, n) ==> signing::own_tap_origin(taps, fingerprint) == Some(
            taps[n],
        ),
        none_own_tap(taps, fingerprint) ==> signing::own_tap_origin(taps, fingerprint) is None,
{
    law_own_key_is_the_first(list, taps, fingerprint);
    let found = signing::own_origin(list, fingerprint);
    if let Some(own) = found {
        let m = choose|m: int| #[trigger] first_own(list, fingerprint, m) && list[m] == own;
        assert(list[m].fingerprint == fingerprint);
        if first_own(list, fingerprint, n) {
            if m < n {
                assert(list[m].fingerprint != fingerprint);
            }
            if n < m {
                assert(list[n].fingerprint != fingerprint);
            }
        }
    } else if first_own(list, fingerprint, n) {
        assert(list[n].fingerprint != fingerprint);
    }
    let other = signing::own_tap_origin(taps, fingerprint);
    if let Some(own) = other {
        let m = choose|m: int| #[trigger] first_own_tap(taps, fingerprint, m) && taps[m] == own;
        assert(taps[m].fingerprint == fingerprint);
        if first_own_tap(taps, fingerprint, n) {
            if m < n {
                assert(taps[m].fingerprint != fingerprint);
            }
            if n < m {
                assert(taps[n].fingerprint != fingerprint);
            }
        }
    } else if first_own_tap(taps, fingerprint, n) {
        assert(taps[n].fingerprint != fingerprint);
    }
}

proof fn lemma_leaf_plans_are(
    tx: Seq<u8>,
    index: nat,
    spent: Seq<TxOutView>,
    leaves: Seq<Seq<u8>>,
    number: u8,
    digests: Seq<Seq<u8>>,
)
    requires
        digests.len() == leaves.len(),
        forall|j: int|
            0 <= j < digests.len() ==> outside::tapscript_digest(
                tx,
                index,
                spent,
                leaves[j],
                number,
            ) == Ok::<Seq<u8>, Seq<char>>(#[trigger] digests[j]),
    ensures
        signing::leaf_plans(tx, index, spent, leaves, number) matches Ok(plans) && plans.len()
            == leaves.len() && forall|j: int|
            0 <= j < leaves.len() ==> (#[trigger] plans[j]).digest == digests[j],
    decreases leaves.len(),
{
    if leaves.len() != 0 {
        let fewer = digests.drop_last();
        assert forall|j: int| 0 <= j < fewer.len() implies outside::tapscript_digest(
            tx,
            index,
            spent,
            leaves.drop_last()[j],
            number,
        ) == Ok::<Seq<u8>, Seq<char>>(#[trigger] fewer[j]) by {
            assert(fewer[j] == digests[j]);
        }
        lemma_leaf_plans_are(tx, index, spent, leaves.drop_last(), number, fewer);
        assert(digests[leaves.len() - 1] == digests.last());
    }
}

// ---------------------------------------------------------------------------
// When all goes well, and when not
// ---------------------------------------------------------------------------

/// Whether the signer can sign the input at `i`, if it is its own: its key descends
/// from the federation key, and the input has all that its digests need.
pub open spec fn ready(key: SigningKeyView, psbt: PsbtView, i: int) -> bool {
    let input = psbt.inputs[i];
    &&& forall|n: int| #[trigger]
        first_own(input.bip32_derivation, key.fingerprint, n) ==> {
            &&& input.bip32_derivation[n].path.len() >= key.path.len()
            &&& exists|digest: Seq<u8>| #[trigger] is_input_digest(psbt, i, digest)
        }
    &&& none_own(input.bip32_derivation, key.fingerprint) ==> forall|n: int| #[trigger]
        first_own_tap(input.tap_key_origins, key.fingerprint, n) ==> {
            &&& key.taproot
            &&& input.tap_key_origins[n].path.len() >= key.path.len()
            &&& input.tap_key_origins[n].leaf_hashes.len() > 0
            &&& exists|digests: Seq<Seq<u8>>| #[trigger]
                are_leaf_digests(psbt, i, input.tap_key_origins[n].leaf_hashes, digests)
        }
}

/// Whether these are the digests of the leaves of the input at `i`.
pub open spec fn are_leaf_digests(
    psbt: PsbtView,
    i: int,
    leaves: Seq<Seq<u8>>,
    digests: Seq<Seq<u8>>,
) -> bool {
    &&& digests.len() == leaves.len()
    &&& forall|j: int|
        0 <= j < digests.len() ==> is_leaf_digest(psbt, i, leaves[j], #[trigger] digests[j])
}

/// Whether the token does what it is asked for: it derives, it signs with two numbers
/// below the group order, and it has no policy.
pub open spec fn willing() -> spec_fn(RequestView, ReplyView) -> bool {
    |q: RequestView, r: ReplyView|
        match q {
            RequestView::FindObjects(_) => r == ReplyView::Handles(Ok(Seq::empty())),
            RequestView::DerivePath(_, _) => r matches ReplyView::Derived(d) && d is Ok,
            RequestView::SignEcdsa(_, _) => r matches ReplyView::Signature(Ok(raw))
                && ecdsa::valid_compact(raw),
            RequestView::SignSchnorr { .. } => r matches ReplyView::Schnorr(d) && d is Ok,
            RequestView::StrategySign(_, _) => r matches ReplyView::StrategySignature(d)
                && d is Ok,
            _ => true,
        }
}

spec fn goes_well<A>() -> spec_fn(Result<A, Seq<char>>) -> bool {
    |d: Result<A, Seq<char>>| d is Ok
}

proof fn lemma_ecdsa_goes_well(federation: ObjectHandle, plan: EcdsaPlanView, used: ObjectHandle)
    ensures
        run::given(
            signing::ecdsa_with(federation, plan, used),
            willing(),
            goes_well::<InputSigsView>(),
        ),
{
    let first = ecdsa::low_s_signing(used, plan.digest);
    let next = signing::then_drop_child(federation, plan, used);
    let middle = |d: Result<Seq<u8>, Pkcs11ErrorView>| d is Ok;
    let good = goes_well::<InputSigsView>();
    assert(run::given(first, willing(), middle)) by {
        reveal_with_fuel(run::given, 2);
    }
    assert forall|d: Result<Seq<u8>, Pkcs11ErrorView>| middle(d) implies run::given(
        #[trigger] next(d),
        willing(),
        good,
    ) by {
        reveal_with_fuel(run::given, 2);
    }
    run::lemma_given_bind(first, next, willing(), middle, good);
}

proof fn lemma_leaves_go_well(
    label: Seq<char>,
    federation: ObjectHandle,
    plan: TaprootPlanView,
    used: ObjectHandle,
    done: Seq<TapScriptSigView>,
)
    ensures
        run::given(
            signing::leaf_signing(label, federation, plan, used, done),
            willing(),
            goes_well::<InputSigsView>(),
        ),
    decreases plan.leaves.len() - done.len(),
{
    let good = goes_well::<InputSigsView>();
    let prog = signing::leaf_signing(label, federation, plan, used, done);
    if done.len() >= plan.leaves.len() {
        reveal_with_fuel(run::given, 2);
    } else {
        let q = prog->Ask_0;
        let fits = willing();
        assert forall|r: ReplyView| fits(q, r) implies run::given(
            #[trigger] (prog->Ask_1)(r),
            fits,
            good,
        ) by {
            if let ReplyView::Schnorr(Ok(signature)) = r {
                let leaf = plan.leaves[done.len() as int];
                let s = TapScriptSigView {
                    key: plan.key,
                    leaf_hash: leaf.leaf_hash,
                    signature,
                    sighash_type: plan.sighash_type,
                };
                lemma_leaves_go_well(label, federation, plan, used, done.push(s));
            }
        }
    }
}

proof fn lemma_input_goes_well(key: SigningKeyView, psbt: PsbtView, i: int)
    requires
        0 <= i < psbt.inputs.len(),
        ready(key, psbt, i),
    ensures
        run::given(
            signing::plan_signing(
                key.label,
                key.handle,
                signing::input_plan(key, psbt, i as nat),
            ),
            willing(),
            goes_well::<InputSigsView>(),
        ),
{
    let good = goes_well::<InputSigsView>();
    let fits = willing();
    let input = psbt.inputs[i];
    let plan = signing::input_plan(key, psbt, i as nat);
    let prog = signing::plan_signing(key.label, key.handle, plan);
    law_own_key_is_the_first(input.bip32_derivation, input.tap_key_origins, key.fingerprint);
    if let Some(own) = signing::own_origin(input.bip32_derivation, key.fingerprint) {
        let n = choose|n: int| #[trigger]
            first_own(input.bip32_derivation, key.fingerprint, n) && input.bip32_derivation[n]
                == own;
        let digest = choose|digest: Seq<u8>| #[trigger] is_input_digest(psbt, i, digest);
        assert(is_input_digest(psbt, i, digest));
        assert(plan is Ecdsa);
        let p = plan->Ecdsa_0;
        lemma_ecdsa_goes_well(key.handle, p, key.handle);
        if p.relative.len() != 0 {
            let q = prog->Ask_0;
            assert forall|r: ReplyView| fits(q, r) implies run::given(
                #[trigger] (prog->Ask_1)(r),
                fits,
                good,
            ) by {
                if let ReplyView::Derived(Ok(used)) = r {
                    lemma_ecdsa_goes_well(key.handle, p, used);
                }
            }
        }
    } else if let Some(own) = signing::own_tap_origin(input.tap_key_origins, key.fingerprint) {
        let n = choose|n: int| #[trigger]
            first_own_tap(input.tap_key_origins, key.fingerprint, n) && input.tap_key_origins[n]
                == own;
        let digests = choose|digests: Seq<Seq<u8>>| #[trigger]
            are_leaf_digests(psbt, i, input.tap_key_origins[n].leaf_hashes, digests);
        assert(are_leaf_digests(psbt, i, own.leaf_hashes, digests));
        lemma_prevouts(psbt.inputs);
        assert(is_leaf_digest(psbt, i, own.leaf_hashes[0], digests[0]));
        let number = asked_or(input.sighash_type, 0) as u8;
        let spent = psbt.inputs.map_values(|input: PsbtInputView| input.witness_utxo->Some_0);
        assert forall|j: int| 0 <= j < digests.len() implies outside::tapscript_digest(
            outside::encoded_tx(psbt.unsigned_tx),
            i as nat,
            spent,
            own.leaf_hashes[j],
            number,
        ) == Ok::<Seq<u8>, Seq<char>>(#[trigger] digests[j]) by {
            assert(is_leaf_digest(psbt, i, own.leaf_hashes[j], digests[j]));
        }
        lemma_leaf_plans_are(
            outside::encoded_tx(psbt.unsigned_tx),
            i as nat,
            spent,
            own.leaf_hashes,
            number,
            digests,
        );
        assert(plan is Taproot);
        let p = plan->Taproot_0;
        let none = Seq::<TapScriptSigView>::empty();
        lemma_leaves_go_well(key.label, key.handle, p, key.handle, none);
        if p.leaves.len() != 0 && p.relative.len() != 0 {
            let q = prog->Ask_0;
            assert forall|r: ReplyView| fits(q, r) implies run::given(
                #[trigger] (prog->Ask_1)(r),
                fits,
                good,
            ) by {
                if let ReplyView::Derived(Ok(used)) = r {
                    lemma_leaves_go_well(key.label, key.handle, p, used, none);
                }
            }
        }
    }
}

spec fn well_signed() -> spec_fn(Signed) -> bool {
    |out: Signed| out.1 is Ok
}

proof fn lemma_inputs_go_well(key: SigningKeyView, psbt: PsbtView, done: Seq<InputSigsView>)
    requires
        forall|i: int| 0 <= i < psbt.inputs.len() ==> #[trigger] ready(key, psbt, i),
    ensures
        run::given(
            transaction::inputs_signing(key, None, psbt, done),
            willing(),
            well_signed(),
        ),
    decreases psbt.inputs.len() - done.len(),
{
    let good = well_signed();
    if done.len() >= psbt.inputs.len() {
        reveal_with_fuel(run::given, 2);
    } else {
        let plan = signing::input_plan(key, psbt, done.len());
        let prog = signing::plan_signing(key.label, key.handle, plan);
        let next = transaction::then_next_input(key, None, psbt, done);
        let middle = goes_well::<InputSigsView>();
        assert(ready(key, psbt, done.len() as int));
        lemma_input_goes_well(key, psbt, done.len() as int);
        assert forall|d: Result<InputSigsView, Seq<char>>| middle(d) implies run::given(
            #[trigger] next(d),
            willing(),
            good,
        ) by {
            lemma_inputs_go_well(key, psbt, done.push(d->Ok_0));
        }
        run::lemma_given_bind(prog, next, willing(), middle, good);
    }
}

/// Where there is no policy on the token, the signer can sign each input that is its
/// own, and the token does what it is asked for, all goes well.
pub proof fn law_complete_transaction_is_signed(
    key: SigningKeyView,
    psbt: PsbtView,
    replies: Seq<ReplyView>,
    out: Signed,
)
    requires
        forall|i: int| 0 <= i < psbt.inputs.len() ==> #[trigger] ready(key, psbt, i),
        run::behind(transaction::transaction_signing(key, psbt), replies) == Prog::Done(out),
        forall|j: int|
            0 <= j < replies.len() ==> willing()(
                run::asked(transaction::transaction_signing(key, psbt), replies)[j],
                #[trigger] replies[j],
            ),
    ensures
        out.1 is Ok,
{
    let fits = willing();
    let good = well_signed();
    let loading = policy::policy_loading(key.label);
    let next = transaction::then_check(key, psbt);
    let middle = |d: Result<PolicyView, Pkcs11ErrorView>|
        d == Ok::<PolicyView, Pkcs11ErrorView>(PolicyView::permissive());
    lemma_no_policy(key.label);
    assert forall|d: Result<PolicyView, Pkcs11ErrorView>| middle(d) implies run::given(
        #[trigger] next(d),
        fits,
        good,
    ) by {
        lemma_inputs_go_well(key, psbt, Seq::empty());
        reveal_with_fuel(run::given, 2);
    }
    run::lemma_given_bind(loading, next, fits, middle, good);
    run::lemma_given_behind(
        transaction::transaction_signing(key, psbt),
        fits,
        good,
        replies,
    );
}

pub(crate) proof fn lemma_no_policy(label: Seq<char>)
    ensures
        run::given(
            policy::policy_loading(label),
            willing(),
            |d: Result<PolicyView, Pkcs11ErrorView>|
                d == Ok::<PolicyView, Pkcs11ErrorView>(PolicyView::permissive()),
        ),
{
    let fits = willing();
    let reading = store::read_data(key_ops::namespaced(label, "policy"@));
    let none = |d: Result<Option<Seq<u8>>, Pkcs11ErrorView>|
        d == Ok::<Option<Seq<u8>>, Pkcs11ErrorView>(None);
    assert(run::given(reading, fits, none)) by {
        let q = reading->Ask_0;
        assert forall|r: ReplyView| fits(q, r) implies run::given(
            #[trigger] (reading->Ask_1)(r),
            fits,
            none,
        ) by {}
    }
    let good = |d: Result<PolicyView, Pkcs11ErrorView>|
        d == Ok::<PolicyView, Pkcs11ErrorView>(PolicyView::permissive());
    run::lemma_given_bind(reading, policy::then_decode_policy(), fits, none, good);
}

/// Whether a result is this failure.
pub open spec fn fails_with(t: Seq<char>) -> spec_fn(Signed) -> bool {
    |out: Signed| out.1 == Err::<(), Seq<char>>(t)
}

proof fn lemma_finishing_fails(
    label: Seq<char>,
    max: Option<u32>,
    psbt: PsbtView,
    done: Seq<InputSigsView>,
    t: Seq<char>,
)
    ensures
        run::always(transaction::finishing(label, max, psbt, done, Err(t)), fails_with(t)),
{
    let good = fails_with(t);
    let anything = |d: Result<(), Pkcs11ErrorView>| true;
    let next = transaction::then_hand_back(psbt, done, Err(t));
    run::lemma_always_all(policy::rate_recording(label, max), anything);
    run::lemma_always_bind(policy::rate_recording(label, max), next, anything, good);
}

/// An input of the signer's that it cannot sign ends the signing, whatever the
/// replies are, and the failure tells which input it is and what is wrong with it: a
/// path that does not reach the federation key, a number that nodes do not relay, no
/// script, no spent output, or a transaction without a digest.
pub proof fn law_incomplete_ecdsa_input_ends_it(
    key: SigningKeyView,
    max: Option<u32>,
    psbt: PsbtView,
    done: Seq<InputSigsView>,
    n: int,
    e: Seq<char>,
)
    requires
        done.len() < psbt.inputs.len(),
        first_own(psbt.inputs[done.len() as int].bip32_derivation, key.fingerprint, n),
    ensures
        ({
            let i = done.len();
            let input = psbt.inputs[i as int];
            let path = input.bip32_derivation[n].path;
            let number = asked_or(input.sighash_type, 1);
            let reached = path.len() >= key.path.len();
            let prog = transaction::inputs_signing(key, max, psbt, done);
            &&& !reached ==> run::always(
                prog,
                fails_with(
                    "input "@ + text::decimal(i) + " BIP-32 path "@ + bip32::path_text(path)
                        + " is shorter than this signer's federation path "@ + bip32::path_text(
                        key.path,
                    ),
                ),
            )
            &&& reached && !relayed(number) ==> run::always(
                prog,
                fails_with(
                    "invalid sighash type: non-standard sighash type "@ + text::decimal(
                        number as nat,
                    ),
                ),
            )
            &&& reached && relayed(number) && input.witness_script is None ==> run::always(
                prog,
                fails_with(
                    "input "@ + text::decimal(i)
                        + " missing witness_script (only P2WSH multi-sig is supported by Pkcs11Signer in v1)"@,
                ),
            )
            &&& reached && relayed(number) && input.witness_script is Some
                && input.witness_utxo is None ==> run::always(
                prog,
                fails_with("input "@ + text::decimal(i) + " missing witness_utxo"@),
            )
            &&& reached && relayed(number) && input.witness_script is Some
                && input.witness_utxo is Some && outside::p2wsh_digest(
                outside::encoded_tx(psbt.unsigned_tx),
                i,
                input.witness_script->Some_0,
                input.witness_utxo->Some_0.value,
                number,
            ) == Err::<Seq<u8>, Seq<char>>(e) ==> run::always(
                prog,
                fails_with("sighash failure: "@ + e),
            )
        }),
{
    let i = done.len();
    let input = psbt.inputs[i as int];
    lemma_own_is(input.bip32_derivation, input.tap_key_origins, key.fingerprint, n);
    let plan = signing::input_plan(key, psbt, i);
    if let InputPlanView::Stop(t) = plan {
        let prog = signing::plan_signing(key.label, key.handle, plan);
        let next = transaction::then_next_input(key, max, psbt, done);
        assert(prog.bind(next) == next(Err(t)));
        lemma_finishing_fails(key.label, max, psbt, done, t);
    }
}

/// The same of an input with a Taproot key: the backend offers no Taproot signer, the
/// path does not reach the federation key, the number does not exist, or an input
/// tells no spent output.
pub proof fn law_incomplete_taproot_input_ends_it(
    key: SigningKeyView,
    max: Option<u32>,
    psbt: PsbtView,
    done: Seq<InputSigsView>,
    n: int,
    k: int,
)
    requires
        done.len() < psbt.inputs.len(),
        none_own(psbt.inputs[done.len() as int].bip32_derivation, key.fingerprint),
        first_own_tap(psbt.inputs[done.len() as int].tap_key_origins, key.fingerprint, n),
        0 <= k < psbt.inputs.len(),
    ensures
        ({
            let i = done.len();
            let input = psbt.inputs[i as int];
            let path = input.tap_key_origins[n].path;
            let number = asked_or(input.sighash_type, 0);
            let reached = path.len() >= key.path.len();
            let prog = transaction::inputs_signing(key, max, psbt, done);
            &&& !key.taproot ==> run::always(
                prog,
                fails_with(
                    "input "@ + text::decimal(i)
                        + " is Taproot, and the backend offers no Taproot signer"@,
                ),
            )
            &&& key.taproot && !reached ==> run::always(
                prog,
                fails_with(
                    "input "@ + text::decimal(i) + " BIP-32 path "@ + bip32::path_text(path)
                        + " is shorter than this signer's federation path "@ + bip32::path_text(
                        key.path,
                    ),
                ),
            )
            &&& key.taproot && reached && number != 0 && !relayed(number) ==> run::always(
                prog,
                fails_with(
                    "invalid sighash type: invalid sighash type "@ + text::decimal(number as nat),
                ),
            )
            &&& key.taproot && reached && (number == 0 || relayed(number))
                && psbt.inputs[k].witness_utxo is None && (forall|m: int|
                0 <= m < k ==> (#[trigger] psbt.inputs[m]).witness_utxo is Some) ==> run::always(
                prog,
                fails_with("input "@ + text::decimal(k as nat) + " missing witness_utxo"@),
            )
        }),
{
    let i = done.len();
    let input = psbt.inputs[i as int];
    lemma_own_is(input.bip32_derivation, input.tap_key_origins, key.fingerprint, n);
    if psbt.inputs[k].witness_utxo is None && (forall|m: int|
        0 <= m < k ==> (#[trigger] psbt.inputs[m]).witness_utxo is Some) {
        lemma_missing_prevout(psbt.inputs, k);
    }
    let plan = signing::input_plan(key, psbt, i);
    if let InputPlanView::Stop(t) = plan {
        let prog = signing::plan_signing(key.label, key.handle, plan);
        let next = transaction::then_next_input(key, max, psbt, done);
        assert(prog.bind(next) == next(Err(t)));
        lemma_finishing_fails(key.label, max, psbt, done, t);
    }
}

proof fn lemma_missing_prevout(inputs: Seq<PsbtInputView>, k: int)
    requires
        0 <= k < inputs.len(),
        inputs[k].witness_utxo is None,
        forall|m: int| 0 <= m < k ==> (#[trigger] inputs[m]).witness_utxo is Some,
    ensures
        signing::prevouts(inputs) == Err::<Seq<TxOutView>, Seq<char>>(
            "input "@ + text::decimal(k as nat) + " missing witness_utxo"@,
        ),
    decreases inputs.len(),
{
    let rest = inputs.drop_last();
    if k < rest.len() {
        assert forall|m: int| 0 <= m < k implies (#[trigger] rest[m]).witness_utxo is Some by {
            assert(rest[m] == inputs[m]);
        }
        lemma_missing_prevout(rest, k);
    } else {
        assert forall|m: int| 0 <= m < rest.len() implies (
        #[trigger] rest[m]).witness_utxo is Some by {
            assert(rest[m] == inputs[m]);
        }
        lemma_prevouts(rest);
    }
}

pub(crate) proof fn lemma_refused(
    key: SigningKeyView,
    max: Option<u32>,
    psbt: PsbtView,
    done: Seq<InputSigsView>,
    n: int,
    digest: Seq<u8>,
    used: ObjectHandle,
    e: HsmBackendErrorView,
    no: TokenErrorView,
)
    requires
        done.len() < psbt.inputs.len(),
        first_own(psbt.inputs[done.len() as int].bip32_derivation, key.fingerprint, n),
        psbt.inputs[done.len() as int].bip32_derivation[n].path.len() >= key.path.len(),
        is_input_digest(psbt, done.len() as int, digest),
    ensures
        ({
            let prog = transaction::inputs_signing(key, max, psbt, done);
            let rest = tail(key, psbt.inputs[done.len() as int].bip32_derivation[n].path);
            let refused = Pkcs11ErrorView::Pkcs11(no).text();
            &&& rest.len() != 0 ==> run::always(
                (prog->Ask_1)(ReplyView::Derived(Err(e))),
                fails_with(e.text()),
            )
            &&& rest.len() != 0 ==> run::always(
                ((prog->Ask_1)(ReplyView::Derived(Ok(used)))->Ask_1)(
                    ReplyView::Signature(Err(no)),
                ),
                fails_with(refused),
            )
            &&& rest.len() == 0 ==> run::always(
                (prog->Ask_1)(ReplyView::Signature(Err(no))),
                fails_with(refused),
            )
        }),
{
    let i = done.len() as int;
    let input = psbt.inputs[i];
    let own = input.bip32_derivation[n];
    lemma_own_is(input.bip32_derivation, input.tap_key_origins, key.fingerprint, n);
    let plan = signing::input_plan(key, psbt, done.len());
    let p = plan->Ecdsa_0;
    assert(plan is Ecdsa);
    assert(p.relative =~= tail(key, own.path));
    let prog = signing::plan_signing(key.label, key.handle, plan);
    let next = transaction::then_next_input(key, max, psbt, done);
    let whole = transaction::inputs_signing(key, max, psbt, done);
    assert(whole == prog.bind(next));
    assert(forall|r: ReplyView| #[trigger] (whole->Ask_1)(r) == (prog->Ask_1)(r).bind(next));
    let refused = Pkcs11ErrorView::Pkcs11(no).text();
    lemma_refused_with(key.handle, p, used, no, next, key.label, max, psbt, done);
    lemma_refused_with(key.handle, p, key.handle, no, next, key.label, max, psbt, done);
    if p.relative.len() != 0 {
        let failed = ReplyView::Derived(Err::<ObjectHandle, HsmBackendErrorView>(e));
        assert((prog->Ask_1)(failed) == Prog::<Result<InputSigsView, Seq<char>>>::Done(
            Err(e.text()),
        ));
        assert((whole->Ask_1)(failed) == next(Err(e.text())));
        lemma_finishing_fails(key.label, max, psbt, done, e.text());
        let derived = ReplyView::Derived(Ok::<ObjectHandle, HsmBackendErrorView>(used));
        assert((prog->Ask_1)(derived) == signing::ecdsa_with(key.handle, p, used));
    }
}

proof fn lemma_refused_with(
    federation: ObjectHandle,
    plan: EcdsaPlanView,
    used: ObjectHandle,
    no: TokenErrorView,
    next: spec_fn(Result<InputSigsView, Seq<char>>) -> Prog<Signed>,
    label: Seq<char>,
    max: Option<u32>,
    psbt: PsbtView,
    done: Seq<InputSigsView>,
)
    requires
        forall|t: Seq<char>|
            next(Err(t)) == #[trigger] transaction::finishing(label, max, psbt, done, Err(t)),
    ensures
        run::always(
            (signing::ecdsa_with(federation, plan, used).bind(next)->Ask_1)(
                ReplyView::Signature(Err(no)),
            ),
            fails_with(Pkcs11ErrorView::Pkcs11(no).text()),
        ),
{
    let refused = Pkcs11ErrorView::Pkcs11(no);
    let t = refused.text();
    let first = ecdsa::low_s_signing(used, plan.digest);
    let drop = signing::then_drop_child(federation, plan, used);
    let prog = signing::ecdsa_with(federation, plan, used);
    let r = ReplyView::Signature(Err::<Seq<u8>, TokenErrorView>(no));
    assert((prog->Ask_1)(r) == (first->Ask_1)(r).bind(drop));
    assert((first->Ask_1)(r) == Prog::<Result<Seq<u8>, Pkcs11ErrorView>>::Done(Err(refused)));
    let end = signing::drop_child(federation, used, Err(t));
    assert((prog->Ask_1)(r) == end);
    assert((prog.bind(next)->Ask_1)(r) == end.bind(next));
    let is_t = |d: Result<InputSigsView, Seq<char>>| d == Err::<InputSigsView, Seq<char>>(t);
    lemma_finishing_fails(label, max, psbt, done, t);
    assert(next(Err(t)) == transaction::finishing(label, max, psbt, done, Err(t)));
    assert(run::always(end, is_t)) by {
        reveal_with_fuel(run::always, 2);
    }
    run::lemma_always_bind(end, next, is_t, fails_with(t));
}

} // verus!
