//! What the signatures of Elements transactions cover, and which key they are by.
use crate::ecdsa;
use crate::elements;
use crate::elements::{
    ElementsTxView, PsetErrorView, PsetInputView, PsetKeyOriginView, PsetPlanView, PsetView,
    SignedPset,
};
use crate::error::Pkcs11ErrorView;
use crate::laws::covered;
use crate::outside;
use crate::policy;
use crate::policy::PolicyView;
use crate::program::{Prog, ReplyView, RequestView};
use crate::psbt::PartialSigView;
use crate::run;
use crate::text;
use vstd::prelude::*;
use vstd::string::*;

verus! {

// ---------------------------------------------------------------------------
// What a signature is
// ---------------------------------------------------------------------------

/// Whether the key at `n` is the first that descends from this master key.
pub open spec fn first_own(list: Seq<PsetKeyOriginView>, fingerprint: Seq<u8>, n: int) -> bool {
    &&& 0 <= n < list.len()
    &&& list[n].fingerprint == fingerprint
    &&& forall|m: int| 0 <= m < n ==> (#[trigger] list[m]).fingerprint != fingerprint
}

/// Whether no key descends from this master key.
pub open spec fn none_own(list: Seq<PsetKeyOriginView>, fingerprint: Seq<u8>) -> bool {
    forall|m: int| 0 <= m < list.len() ==> (#[trigger] list[m]).fingerprint != fingerprint
}

/// Of the keys of an input the signer takes the first that descends from its master
/// key, and none where none does.
pub proof fn law_own_pset_key_is_the_first(list: Seq<PsetKeyOriginView>, fingerprint: Seq<u8>)
    ensures
        match elements::own_pset_origin(list, fingerprint) {
            Some(own) => exists|n: int| #[trigger]
                first_own(list, fingerprint, n) && list[n] == own,
            None => none_own(list, fingerprint),
        },
    decreases list.len(),
{
    if list.len() != 0 {
        if list[0].fingerprint == fingerprint {
            assert(first_own(list, fingerprint, 0));
        } else {
            let rest = list.drop_first();
            law_own_pset_key_is_the_first(rest, fingerprint);
            match elements::own_pset_origin(rest, fingerprint) {
                Some(own) => {
                    let n = choose|n: int| #[trigger]
                        first_own(rest, fingerprint, n) && rest[n] == own;
                    assert forall|m: int| 0 <= m < n + 1 implies (#[trigger] list[m]).fingerprint
                        != fingerprint by {
                        if m > 0 {
                            assert(rest[m - 1] == list[m]);
                        }
                    }
                    assert(first_own(list, fingerprint, n + 1) && list[n + 1] == own);
                },
                None => {
                    assert forall|m: int| 0 <= m < list.len() implies (
                    #[trigger] list[m]).fingerprint != fingerprint by {
                        if m > 0 {
                            assert(rest[m - 1] == list[m]);
                        }
                    }
                },
            }
        }
    }
}

/// The number that tells what an input has covered: the one that it asks for where
/// nodes relay it, and else the one for everything.
pub open spec fn number_of(input: PsetInputView) -> u32 {
    match input.sighash_type {
        Some(n) => if covered::relayed(n) {
            n
        } else {
            1
        },
        None => 1,
    }
}

/// Whether a signature of the input at `i` covers this digest: by the transaction,
/// this very input, the script and the amount that it spends, and its number.
pub open spec fn is_pset_digest(
    tx: ElementsTxView,
    pset: PsetView,
    i: int,
    digest: Seq<u8>,
) -> bool {
    let input = pset.inputs[i];
    &&& input.witness_script is Some
    &&& input.witness_value is Some
    &&& elements::elements_digest(
        tx,
        i as nat,
        input.witness_script->Some_0,
        input.witness_value->Some_0,
        number_of(input),
    ) == Ok::<Seq<u8>, Seq<char>>(digest)
}

/// Whether the signature is what the strategy gave for the input at `i` by the key at
/// `n`: for the input's digest, by the key with that path, in DER, in the form that
/// nodes accept, with the number behind it.
pub open spec fn pset_from(
    had: spec_fn(RequestView, ReplyView) -> bool,
    fingerprint: Seq<u8>,
    tx: ElementsTxView,
    pset: PsetView,
    i: int,
    s: PartialSigView,
    n: int,
    digest: Seq<u8>,
    compact: Seq<u8>,
    low: Seq<u8>,
) -> bool {
    let input = pset.inputs[i];
    let own = input.bip32_derivation[n];
    &&& first_own(input.bip32_derivation, fingerprint, n)
    &&& is_pset_digest(tx, pset, i, digest)
    &&& had(
        RequestView::StrategySign(own.path, digest),
        ReplyView::StrategySignature(Ok(compact)),
    )
    &&& covered::is_low_form(compact, low)
    &&& s.key == own.key
    &&& s.signature == outside::der_signature(low) + seq![number_of(input) as u8]
    &&& s.sighash_type == number_of(input)
}

/// Whether the signature is what the strategy gave for the input at `i`.
pub open spec fn is_pset_sig(
    had: spec_fn(RequestView, ReplyView) -> bool,
    fingerprint: Seq<u8>,
    tx: ElementsTxView,
    pset: PsetView,
    i: int,
    s: PartialSigView,
) -> bool {
    exists|n: int, digest: Seq<u8>, compact: Seq<u8>, low: Seq<u8>| #[trigger]
        pset_from(had, fingerprint, tx, pset, i, s, n, digest, compact, low)
}

/// Whether what is new in each input is what the strategy gave for that input, and
/// whether, if all went well, nothing is missing.
pub open spec fn is_signed(
    had: spec_fn(RequestView, ReplyView) -> bool,
    fingerprint: Seq<u8>,
    tx: ElementsTxView,
    pset: PsetView,
    out: SignedPset,
) -> bool {
    &&& out.0.inputs.len() == pset.inputs.len()
    &&& forall|i: int, s: PartialSigView|
        0 <= i < pset.inputs.len() && #[trigger] out.0.inputs[i].partial_sigs.contains(s)
            && !pset.inputs[i].partial_sigs.contains(s) ==> is_pset_sig(
            had,
            fingerprint,
            tx,
            pset,
            i,
            s,
        )
    &&& out.1 is Ok ==> forall|i: int, n: int|
        #![trigger first_own(pset.inputs[i].bip32_derivation, fingerprint, n)]
        0 <= i < pset.inputs.len() && first_own(
            pset.inputs[i].bip32_derivation,
            fingerprint,
            n,
        ) ==> exists|s: PartialSigView| #[trigger]
            out.0.inputs[i].partial_sigs.contains(s) && is_pset_sig(
                had,
                fingerprint,
                tx,
                pset,
                i,
                s,
            )
}

spec fn signs_well(
    had: spec_fn(RequestView, ReplyView) -> bool,
    fingerprint: Seq<u8>,
    tx: ElementsTxView,
    pset: PsetView,
) -> spec_fn(SignedPset) -> bool {
    |out: SignedPset| is_signed(had, fingerprint, tx, pset, out)
}

// ---------------------------------------------------------------------------
// The whole transaction
// ---------------------------------------------------------------------------

/// Whether each of the first inputs has the signature that the signer owes it.
spec fn all_owed(
    had: spec_fn(RequestView, ReplyView) -> bool,
    fingerprint: Seq<u8>,
    tx: ElementsTxView,
    pset: PsetView,
    done: Seq<Option<PartialSigView>>,
) -> bool {
    &&& done.len() <= pset.inputs.len()
    &&& forall|i: int|
        0 <= i < done.len() ==> match #[trigger] done[i] {
            Some(s) => is_pset_sig(had, fingerprint, tx, pset, i, s),
            None => none_own(pset.inputs[i].bip32_derivation, fingerprint),
        }
}

proof fn lemma_all_put_in(
    had: spec_fn(RequestView, ReplyView) -> bool,
    fingerprint: Seq<u8>,
    tx: ElementsTxView,
    pset: PsetView,
    done: Seq<Option<PartialSigView>>,
    result: Result<nat, PsetErrorView>,
)
    requires
        all_owed(had, fingerprint, tx, pset, done),
        result is Ok ==> done.len() == pset.inputs.len(),
    ensures
        is_signed(had, fingerprint, tx, pset, (elements::with_pset_sigs(pset, done), result)),
{
    let after = elements::with_pset_sigs(pset, done);
    assert forall|i: int, s: PartialSigView|
        0 <= i < pset.inputs.len() && #[trigger] after.inputs[i].partial_sigs.contains(s)
            && !pset.inputs[i].partial_sigs.contains(s) implies is_pset_sig(
        had,
        fingerprint,
        tx,
        pset,
        i,
        s,
    ) by {
        if i < done.len() {
            if let Some(new) = done[i] {
                covered::lemma_with_sig(pset.inputs[i].partial_sigs, new);
            }
        }
    }
    if result is Ok {
        assert forall|i: int, n: int|
            #![trigger first_own(pset.inputs[i].bip32_derivation, fingerprint, n)]
            0 <= i < pset.inputs.len() && first_own(
                pset.inputs[i].bip32_derivation,
                fingerprint,
                n,
            ) implies exists|s: PartialSigView| #[trigger]
            after.inputs[i].partial_sigs.contains(s) && is_pset_sig(
                had,
                fingerprint,
                tx,
                pset,
                i,
                s,
            ) by {
            match done[i] {
                Some(new) => {
                    covered::lemma_with_sig(pset.inputs[i].partial_sigs, new);
                    assert(after.inputs[i].partial_sigs.contains(new));
                },
                None => {
                    assert(pset.inputs[i].bip32_derivation[n].fingerprint != fingerprint);
                },
            }
        }
    }
}

proof fn lemma_no_signature(done: Seq<Option<PartialSigView>>)
    requires
        elements::signed_count(done) == 0,
    ensures
        forall|i: int| 0 <= i < done.len() ==> #[trigger] done[i] is None,
    decreases done.len(),
{
    if done.len() != 0 {
        let rest = done.drop_last();
        lemma_no_signature(rest);
        assert forall|i: int| 0 <= i < done.len() implies #[trigger] done[i] is None by {
            if i < rest.len() {
                assert(rest[i] == done[i]);
            }
        }
    }
}

proof fn lemma_finishing_signed(
    had: spec_fn(RequestView, ReplyView) -> bool,
    label: Seq<char>,
    fingerprint: Seq<u8>,
    max: Option<u32>,
    tx: ElementsTxView,
    pset: PsetView,
    done: Seq<Option<PartialSigView>>,
    outcome: Result<(), PsetErrorView>,
)
    requires
        all_owed(had, fingerprint, tx, pset, done),
        outcome is Ok ==> done.len() == pset.inputs.len(),
    ensures
        run::given(
            elements::pset_finishing(label, max, pset, done, outcome),
            had,
            signs_well(had, fingerprint, tx, pset),
        ),
{
    let good = signs_well(had, fingerprint, tx, pset);
    let counted = match outcome {
        Ok(_) => Ok(elements::signed_count(done)),
        Err(e) => Err::<nat, PsetErrorView>(e),
    };
    lemma_all_put_in(had, fingerprint, tx, pset, done, counted);
    if elements::signed_count(done) > 0 {
        let anything = |d: Result<(), Pkcs11ErrorView>| true;
        run::lemma_given_all(policy::rate_recording(label, max), had, anything);
        run::lemma_given_bind(
            policy::rate_recording(label, max),
            elements::then_hand_back_pset(pset, done, outcome),
            had,
            anything,
            good,
        );
    } else {
        let after = elements::with_pset_sigs(pset, done);
        lemma_no_signature(done);
        assert(after.inputs =~= pset.inputs);
    }
}

proof fn lemma_inputs_signed(
    had: spec_fn(RequestView, ReplyView) -> bool,
    label: Seq<char>,
    fingerprint: Seq<u8>,
    max: Option<u32>,
    tx: ElementsTxView,
    pset: PsetView,
    done: Seq<Option<PartialSigView>>,
)
    requires
        all_owed(had, fingerprint, tx, pset, done),
    ensures
        run::given(
            elements::pset_inputs_signing(label, fingerprint, max, tx, pset, done),
            had,
            signs_well(had, fingerprint, tx, pset),
        ),
    decreases pset.inputs.len() - done.len(),
{
    let good = signs_well(had, fingerprint, tx, pset);
    let prog = elements::pset_inputs_signing(label, fingerprint, max, tx, pset, done);
    if done.len() >= pset.inputs.len() {
        lemma_finishing_signed(had, label, fingerprint, max, tx, pset, done, Ok(()));
    } else {
        let i = done.len() as int;
        let input = pset.inputs[i];
        law_own_pset_key_is_the_first(input.bip32_derivation, fingerprint);
        match elements::pset_plan(tx, input, done.len(), fingerprint) {
            PsetPlanView::Skip => {
                lemma_more(had, fingerprint, tx, pset, done, None);
                lemma_inputs_signed(had, label, fingerprint, max, tx, pset, done.push(None));
            },
            PsetPlanView::Stop(e) => {
                lemma_finishing_signed(had, label, fingerprint, max, tx, pset, done, Err(e));
            },
            PsetPlanView::Sign { key, path, digest, sighash_type } => {
                let n = choose|n: int| #[trigger]
                    first_own(input.bip32_derivation, fingerprint, n)
                        && input.bip32_derivation[n] == elements::own_pset_origin(
                        input.bip32_derivation,
                        fingerprint,
                    )->Some_0;
                assert(is_pset_digest(tx, pset, i, digest));
                let q = RequestView::StrategySign(path, digest);
                assert forall|r: ReplyView| had(q, r) implies run::given(
                    #[trigger] (prog->Ask_1)(r),
                    had,
                    good,
                ) by {
                    match r {
                        ReplyView::StrategySignature(Ok(compact)) => {
                            if ecdsa::valid_compact(compact) {
                                let low = ecdsa::low_s(compact);
                                let s = elements::pset_sig(key, compact, sighash_type);
                                ecdsa::law_low_s(compact);
                                assert(s.signature =~= outside::der_signature(low) + seq![
                                    number_of(input) as u8,
                                ]);
                                assert(pset_from(
                                    had,
                                    fingerprint,
                                    tx,
                                    pset,
                                    i,
                                    s,
                                    n,
                                    digest,
                                    compact,
                                    low,
                                ));
                                lemma_more(had, fingerprint, tx, pset, done, Some(s));
                                lemma_inputs_signed(
                                    had,
                                    label,
                                    fingerprint,
                                    max,
                                    tx,
                                    pset,
                                    done.push(Some(s)),
                                );
                            }
                        },
                        ReplyView::StrategySignature(Err(e)) => {
                            lemma_finishing_signed(
                                had,
                                label,
                                fingerprint,
                                max,
                                tx,
                                pset,
                                done,
                                Err(PsetErrorView::SignerBackend(e.text())),
                            );
                        },
                        _ => {},
                    }
                }
            },
        }
    }
}

proof fn lemma_more(
    had: spec_fn(RequestView, ReplyView) -> bool,
    fingerprint: Seq<u8>,
    tx: ElementsTxView,
    pset: PsetView,
    done: Seq<Option<PartialSigView>>,
    next: Option<PartialSigView>,
)
    requires
        all_owed(had, fingerprint, tx, pset, done),
        done.len() < pset.inputs.len(),
        match next {
            Some(s) => is_pset_sig(had, fingerprint, tx, pset, done.len() as int, s),
            None => none_own(pset.inputs[done.len() as int].bip32_derivation, fingerprint),
        },
    ensures
        all_owed(had, fingerprint, tx, pset, done.push(next)),
{
    let more = done.push(next);
    assert forall|i: int| 0 <= i < more.len() implies match #[trigger] more[i] {
        Some(s) => is_pset_sig(had, fingerprint, tx, pset, i, s),
        None => none_own(pset.inputs[i].bip32_derivation, fingerprint),
    } by {
        if i < done.len() {
            assert(more[i] == done[i]);
        }
    }
}

proof fn lemma_pset_signed(
    had: spec_fn(RequestView, ReplyView) -> bool,
    label: Seq<char>,
    fingerprint: Seq<u8>,
    tx: ElementsTxView,
    pset: PsetView,
)
    requires
        pset.unsigned_tx == Ok::<ElementsTxView, Seq<char>>(tx),
    ensures
        run::given(
            elements::pset_signing(label, fingerprint, pset),
            had,
            signs_well(had, fingerprint, tx, pset),
        ),
{
    let good = signs_well(had, fingerprint, tx, pset);
    let next = elements::then_sign_pset(label, fingerprint, pset);
    let middle = |d: Result<PolicyView, Pkcs11ErrorView>| true;
    run::lemma_given_all(policy::policy_loading(label), had, middle);
    assert forall|d: Result<PolicyView, Pkcs11ErrorView>| middle(d) implies run::given(
        #[trigger] next(d),
        had,
        good,
    ) by {
        if let Ok(p) = d {
            if elements::any_own(fingerprint, pset.inputs) {
                let max = p.max_signatures_per_hour;
                let sign = elements::then_sign_inputs(label, fingerprint, max, tx, pset);
                let anything = |c: Result<(), Pkcs11ErrorView>| true;
                run::lemma_given_all(policy::rate_checking(label, max), had, anything);
                lemma_inputs_signed(had, label, fingerprint, max, tx, pset, Seq::empty());
                assert forall|c: Result<(), Pkcs11ErrorView>| anything(c) implies run::given(
                    #[trigger] sign(c),
                    had,
                    good,
                ) by {}
                run::lemma_given_bind(
                    policy::rate_checking(label, max),
                    sign,
                    had,
                    anything,
                    good,
                );
            } else {
                assert forall|i: int, n: int|
                    #![trigger first_own(pset.inputs[i].bip32_derivation, fingerprint, n)]
                    0 <= i < pset.inputs.len() implies !first_own(
                    pset.inputs[i].bip32_derivation,
                    fingerprint,
                    n,
                ) by {
                    assert(!elements::own_input(fingerprint, pset.inputs[i]));
                    law_own_pset_key_is_the_first(pset.inputs[i].bip32_derivation, fingerprint);
                }
            }
        }
    }
    run::lemma_given_bind(policy::policy_loading(label), next, had, middle, good);
}

/// Each signature that a run of the signer puts into an input of an Elements
/// transaction is one that the strategy gave in that run for this very input: asked
/// for over the digest by the transaction, the input's own index, script and amount,
/// and its number, with the path of the signer's key; and written in DER in the form
/// that nodes accept, with the number behind it. If all went well, no input of the
/// signer's is without.
pub proof fn law_pset_signatures_are_of_their_inputs(
    label: Seq<char>,
    fingerprint: Seq<u8>,
    tx: ElementsTxView,
    pset: PsetView,
    replies: Seq<ReplyView>,
    out: SignedPset,
)
    requires
        pset.unsigned_tx == Ok::<ElementsTxView, Seq<char>>(tx),
        run::behind(elements::pset_signing(label, fingerprint, pset), replies) == Prog::Done(out),
    ensures
        is_signed(
            covered::exchanges(elements::pset_signing(label, fingerprint, pset), replies),
            fingerprint,
            tx,
            pset,
            out,
        ),
{
    let prog = elements::pset_signing(label, fingerprint, pset);
    let had = covered::exchanges(prog, replies);
    lemma_pset_signed(had, label, fingerprint, tx, pset);
    assert forall|j: int| 0 <= j < replies.len() implies had(
        run::asked(prog, replies)[j],
        #[trigger] replies[j],
    ) by {}
    run::lemma_given_behind(prog, had, signs_well(had, fingerprint, tx, pset), replies);
}

// ---------------------------------------------------------------------------
// What is asked for
// ---------------------------------------------------------------------------

/// Whether a request uses no key, or is to sign the digest of an input of the
/// signer's with the path of its key there.
pub open spec fn needed(
    fingerprint: Seq<u8>,
    tx: ElementsTxView,
    pset: PsetView,
    q: RequestView,
) -> bool {
    match q {
        RequestView::StrategySign(path, digest) => exists|i: int, n: int|
            #![trigger pset.inputs[i].bip32_derivation[n]]
            0 <= i < pset.inputs.len() && first_own(
                pset.inputs[i].bip32_derivation,
                fingerprint,
                n,
            ) && path == pset.inputs[i].bip32_derivation[n].path && is_pset_digest(
                tx,
                pset,
                i,
                digest,
            ),
        _ => !covered::uses_key(q),
    }
}

/// Whether a request is one that no input of the signer's needs.
pub open spec fn needless(fingerprint: Seq<u8>, tx: ElementsTxView, pset: PsetView) -> spec_fn(
    RequestView,
) -> bool {
    |q: RequestView| !needed(fingerprint, tx, pset, q)
}

proof fn lemma_inputs_needed(
    label: Seq<char>,
    fingerprint: Seq<u8>,
    max: Option<u32>,
    tx: ElementsTxView,
    pset: PsetView,
    done: Seq<Option<PartialSigView>>,
)
    ensures
        run::never(
            elements::pset_inputs_signing(label, fingerprint, max, tx, pset, done),
            needless(fingerprint, tx, pset),
        ),
    decreases pset.inputs.len() - done.len(),
{
    let bad = needless(fingerprint, tx, pset);
    let prog = elements::pset_inputs_signing(label, fingerprint, max, tx, pset, done);
    covered::lemma_bookkeeping_uses_no_key(label, max, bad);
    assert forall|outcome: Result<(), PsetErrorView>| run::never(
        #[trigger] elements::pset_finishing(label, max, pset, done, outcome),
        bad,
    ) by {
        let back = elements::then_hand_back_pset(pset, done, outcome);
        run::lemma_never_bind(policy::rate_recording(label, max), back, bad);
    }
    if done.len() < pset.inputs.len() {
        let i = done.len() as int;
        let input = pset.inputs[i];
        law_own_pset_key_is_the_first(input.bip32_derivation, fingerprint);
        match elements::pset_plan(tx, input, done.len(), fingerprint) {
            PsetPlanView::Skip => {
                lemma_inputs_needed(label, fingerprint, max, tx, pset, done.push(None));
            },
            PsetPlanView::Stop(_) => {},
            PsetPlanView::Sign { key, path: _, digest, sighash_type } => {
                let n = choose|n: int| #[trigger]
                    first_own(input.bip32_derivation, fingerprint, n)
                        && input.bip32_derivation[n] == elements::own_pset_origin(
                        input.bip32_derivation,
                        fingerprint,
                    )->Some_0;
                let own = pset.inputs[i].bip32_derivation[n];
                assert(is_pset_digest(tx, pset, i, digest));
                assert(needed(fingerprint, tx, pset, prog->Ask_0));
                assert forall|r: ReplyView| run::never(#[trigger] (prog->Ask_1)(r), bad) by {
                    match r {
                        ReplyView::StrategySignature(Ok(compact)) => {
                            let s = elements::pset_sig(key, compact, sighash_type);
                            lemma_inputs_needed(
                                label,
                                fingerprint,
                                max,
                                tx,
                                pset,
                                done.push(Some(s)),
                            );
                        },
                        ReplyView::StrategySignature(Err(e)) => {
                            let why = PsetErrorView::SignerBackend(e.text());
                            let end = elements::pset_finishing(label, max, pset, done, Err(why));
                            assert(run::never(end, bad));
                        },
                        _ => {},
                    }
                }
            },
        }
    }
}

/// The signer asks to sign a digest only where an input of its own needs it: each
/// digest is that of an input with its own index, script and amount, and comes with
/// the path of the signer's key for that input.
pub proof fn law_pset_asks_for_own_inputs_only(
    label: Seq<char>,
    fingerprint: Seq<u8>,
    tx: ElementsTxView,
    pset: PsetView,
)
    requires
        pset.unsigned_tx == Ok::<ElementsTxView, Seq<char>>(tx),
    ensures
        run::never(
            elements::pset_signing(label, fingerprint, pset),
            needless(fingerprint, tx, pset),
        ),
{
    let bad = needless(fingerprint, tx, pset);
    let next = elements::then_sign_pset(label, fingerprint, pset);
    covered::lemma_bookkeeping_uses_no_key(label, None, bad);
    assert forall|d: Result<PolicyView, Pkcs11ErrorView>| run::never(#[trigger] next(d), bad) by {
        if let Ok(p) = d {
            let max = p.max_signatures_per_hour;
            let sign = elements::then_sign_inputs(label, fingerprint, max, tx, pset);
            covered::lemma_bookkeeping_uses_no_key(label, max, bad);
            lemma_inputs_needed(label, fingerprint, max, tx, pset, Seq::empty());
            assert forall|c: Result<(), Pkcs11ErrorView>| run::never(#[trigger] sign(c), bad) by {}
            run::lemma_never_bind(policy::rate_checking(label, max), sign, bad);
        }
    }
    run::lemma_never_bind(policy::policy_loading(label), next, bad);
}

/// For an input of the signer's, once the inputs before it are done, the signer asks
/// the strategy to sign the digest of this very input with the path of its key there.
pub proof fn law_pset_input_is_asked_for(
    label: Seq<char>,
    fingerprint: Seq<u8>,
    max: Option<u32>,
    tx: ElementsTxView,
    pset: PsetView,
    done: Seq<Option<PartialSigView>>,
    n: int,
    digest: Seq<u8>,
)
    requires
        done.len() < pset.inputs.len(),
        first_own(pset.inputs[done.len() as int].bip32_derivation, fingerprint, n),
        is_pset_digest(tx, pset, done.len() as int, digest),
    ensures
        ({
            let prog = elements::pset_inputs_signing(label, fingerprint, max, tx, pset, done);
            prog is Ask && prog->Ask_0 == RequestView::StrategySign(
                pset.inputs[done.len() as int].bip32_derivation[n].path,
                digest,
            )
        }),
{
    let list = pset.inputs[done.len() as int].bip32_derivation;
    law_own_pset_key_is_the_first(list, fingerprint);
    let found = elements::own_pset_origin(list, fingerprint);
    assert(found == Some(list[n])) by {
        assert(list[n].fingerprint == fingerprint);
        let m = choose|m: int| #[trigger]
            first_own(list, fingerprint, m) && list[m] == found->Some_0;
        if m < n {
            assert(list[m].fingerprint != fingerprint);
        }
        if n < m {
            assert(list[n].fingerprint != fingerprint);
        }
    }
}

// ---------------------------------------------------------------------------
// When all goes well, and when not
// ---------------------------------------------------------------------------

spec fn well_signed() -> spec_fn(SignedPset) -> bool {
    |out: SignedPset| out.1 is Ok
}

/// Whether the signer can sign the input at `i`, if it is its own.
pub open spec fn ready(
    fingerprint: Seq<u8>,
    tx: ElementsTxView,
    pset: PsetView,
    i: int,
) -> bool {
    none_own(pset.inputs[i].bip32_derivation, fingerprint) || exists|digest: Seq<u8>| #[trigger]
        is_pset_digest(tx, pset, i, digest)
}

proof fn lemma_inputs_go_well(
    label: Seq<char>,
    fingerprint: Seq<u8>,
    tx: ElementsTxView,
    pset: PsetView,
    done: Seq<Option<PartialSigView>>,
)
    requires
        forall|i: int| 0 <= i < pset.inputs.len() ==> #[trigger] ready(fingerprint, tx, pset, i),
    ensures
        run::given(
            elements::pset_inputs_signing(label, fingerprint, None, tx, pset, done),
            covered::willing(),
            well_signed(),
        ),
    decreases pset.inputs.len() - done.len(),
{
    let fits = covered::willing();
    let good = well_signed();
    let prog = elements::pset_inputs_signing(label, fingerprint, None, tx, pset, done);
    if done.len() >= pset.inputs.len() {
        reveal_with_fuel(run::given, 2);
    } else {
        let i = done.len() as int;
        let input = pset.inputs[i];
        assert(ready(fingerprint, tx, pset, i));
        law_own_pset_key_is_the_first(input.bip32_derivation, fingerprint);
        if let Some(own) = elements::own_pset_origin(input.bip32_derivation, fingerprint) {
            let n = choose|n: int| #[trigger]
                first_own(input.bip32_derivation, fingerprint, n) && input.bip32_derivation[n]
                    == own;
            assert(input.bip32_derivation[n].fingerprint == fingerprint);
            let digest = choose|digest: Seq<u8>| #[trigger] is_pset_digest(tx, pset, i, digest);
            assert(is_pset_digest(tx, pset, i, digest));
            let number = number_of(input);
            let q = prog->Ask_0;
            assert(q == RequestView::StrategySign(own.path, digest));
            assert forall|r: ReplyView| fits(q, r) implies run::given(
                #[trigger] (prog->Ask_1)(r),
                fits,
                good,
            ) by {
                if let ReplyView::StrategySignature(Ok(compact)) = r {
                    let s = elements::pset_sig(own.key, compact, number);
                    lemma_inputs_go_well(label, fingerprint, tx, pset, done.push(Some(s)));
                }
            }
        } else {
            lemma_inputs_go_well(label, fingerprint, tx, pset, done.push(None));
        }
    }
}

/// Where there is no policy on the token, the signer can sign each input that is its
/// own, and the strategy signs what it is asked for, all goes well.
pub proof fn law_complete_pset_is_signed(
    label: Seq<char>,
    fingerprint: Seq<u8>,
    tx: ElementsTxView,
    pset: PsetView,
    replies: Seq<ReplyView>,
    out: SignedPset,
)
    requires
        pset.unsigned_tx == Ok::<ElementsTxView, Seq<char>>(tx),
        forall|i: int| 0 <= i < pset.inputs.len() ==> #[trigger] ready(fingerprint, tx, pset, i),
        run::behind(elements::pset_signing(label, fingerprint, pset), replies) == Prog::Done(out),
        forall|j: int|
            0 <= j < replies.len() ==> covered::willing()(
                run::asked(elements::pset_signing(label, fingerprint, pset), replies)[j],
                #[trigger] replies[j],
            ),
    ensures
        out.1 is Ok,
{
    let fits = covered::willing();
    let good = well_signed();
    let loading = policy::policy_loading(label);
    let next = elements::then_sign_pset(label, fingerprint, pset);
    let middle = |d: Result<PolicyView, Pkcs11ErrorView>|
        d == Ok::<PolicyView, Pkcs11ErrorView>(PolicyView::permissive());
    covered::lemma_no_policy(label);
    assert forall|d: Result<PolicyView, Pkcs11ErrorView>| middle(d) implies run::given(
        #[trigger] next(d),
        fits,
        good,
    ) by {
        lemma_inputs_go_well(label, fingerprint, tx, pset, Seq::empty());
        reveal_with_fuel(run::given, 2);
    }
    run::lemma_given_bind(loading, next, fits, middle, good);
    run::lemma_given_behind(
        elements::pset_signing(label, fingerprint, pset),
        fits,
        good,
        replies,
    );
}

/// Whether a result is this failure.
pub open spec fn fails_with(e: PsetErrorView) -> spec_fn(SignedPset) -> bool {
    |out: SignedPset| out.1 == Err::<nat, PsetErrorView>(e)
}

/// An input of the signer's that it cannot sign ends the signing, whatever the
/// replies are, and the failure tells which input it is and what is wrong with it: no
/// script, no spent output, or a transaction without a digest.
pub proof fn law_incomplete_pset_input_ends_it(
    label: Seq<char>,
    fingerprint: Seq<u8>,
    max: Option<u32>,
    tx: ElementsTxView,
    pset: PsetView,
    done: Seq<Option<PartialSigView>>,
    n: int,
    e: Seq<char>,
)
    requires
        done.len() < pset.inputs.len(),
        first_own(pset.inputs[done.len() as int].bip32_derivation, fingerprint, n),
    ensures
        ({
            let i = done.len();
            let input = pset.inputs[i as int];
            let prog = elements::pset_inputs_signing(label, fingerprint, max, tx, pset, done);
            &&& input.witness_script is None ==> run::always(
                prog,
                fails_with(
                    PsetErrorView::Elements(
                        "input "@ + text::decimal(i)
                            + " missing witness_script (only P2WSH multi-sig is supported by Pkcs11Signer in v1)"@,
                    ),
                ),
            )
            &&& input.witness_script is Some && input.witness_value is None ==> run::always(
                prog,
                fails_with(
                    PsetErrorView::Elements(
                        "input "@ + text::decimal(i) + " missing witness_utxo"@,
                    ),
                ),
            )
            &&& input.witness_script is Some && input.witness_value is Some
                && elements::elements_digest(
                tx,
                i,
                input.witness_script->Some_0,
                input.witness_value->Some_0,
                number_of(input),
            ) == Err::<Seq<u8>, Seq<char>>(e) ==> run::always(
                prog,
                fails_with(PsetErrorView::Elements(e)),
            )
        }),
{
    let i = done.len();
    let input = pset.inputs[i as int];
    law_own_pset_key_is_the_first(input.bip32_derivation, fingerprint);
    assert(input.bip32_derivation[n].fingerprint == fingerprint);
    if let PsetPlanView::Stop(why) = elements::pset_plan(tx, input, i, fingerprint) {
        let good = fails_with(why);
        let anything = |d: Result<(), Pkcs11ErrorView>| true;
        let next = elements::then_hand_back_pset(pset, done, Err(why));
        run::lemma_always_all(policy::rate_recording(label, max), anything);
        run::lemma_always_bind(policy::rate_recording(label, max), next, anything, good);
        assert(run::always(elements::pset_finishing(label, max, pset, done, Err(why)), good));
    }
}

} // verus!
