//! Signing.
use crate::backend;
use crate::backend::VendorIds;
use crate::bip32::Network;
use crate::ecdsa;
use crate::elements;
use crate::elements::{ElementsTxView, PsetErrorView, PsetInputView, PsetPlanView, PsetView, SignedPset};
use crate::error::Pkcs11ErrorView;
use crate::key_ops;
use crate::laws::keys;
use crate::laws::stored;
use crate::outside;
use crate::policy;
use crate::policy::PolicyView;
use crate::program::{Prog, ReplyView, RequestView};
use crate::psbt;
use crate::psbt::{PartialSigView, PsbtInputView, PsbtView, TapScriptSigView, TxOutView};
use crate::run;
use crate::signing;
use crate::signing::{EcdsaPlanView, InputPlanView, InputSigsView, SigningKeyView, TaprootPlanView};
use crate::store;
use crate::token::{AttributeView, ObjectClass, ObjectHandle, TokenErrorView};
use crate::transaction;
use crate::transaction::Signed;
use crate::world;
use crate::world::{Objects, World};
use vstd::prelude::*;

verus! {

// ---------------------------------------------------------------------------
// The policy comes first
// ---------------------------------------------------------------------------

/// Whether a request has something signed.
pub open spec fn signs(q: RequestView) -> bool {
    q is SignEcdsa || q is SignSchnorr || q is StrategySign
}

/// Whether a request may change what the token holds.
pub open spec fn changes(q: RequestView) -> bool {
    ||| q is CreateObject
    ||| q is DestroyObject
    ||| q is DeriveKey
    ||| q is DeriveChild
    ||| q is DerivePath
    ||| q is DeriveMasterKey
    ||| q is BuildMember
}

/// Whether a request has something signed or may change what the token holds.
pub open spec fn acts() -> spec_fn(RequestView) -> bool {
    |q: RequestView| signs(q) || changes(q)
}

/// Reading the policy, reading the counter, holding it against a ceiling and looking
/// up a key have nothing signed, and change nothing on the token.
pub proof fn law_reading_only_reads(
    label: Seq<char>,
    max: Option<u32>,
    ids: VendorIds,
    key: ObjectHandle,
)
    ensures
        run::never(policy::policy_loading(label), acts()),
        run::never(policy::sigrate_loading(label), acts()),
        run::never(policy::rate_checking(label, max), acts()),
        run::never(key_ops::find_key(label), acts()),
        run::never(backend::xpub_reading(ids, key), acts()),
        run::never(backend::fingerprint_reading(key), acts()),
{
    reveal_with_fuel(run::never, 2);
    lemma_read_data(key_ops::namespaced(label, "policy"@));
    lemma_read_data(key_ops::namespaced(label, "sigrate"@));
    run::lemma_never_bind(
        store::read_data(key_ops::namespaced(label, "policy"@)),
        policy::then_decode_policy(),
        acts(),
    );
    run::lemma_never_bind(
        store::read_data(key_ops::namespaced(label, "sigrate"@)),
        policy::then_decode_sigrate(),
        acts(),
    );
    if let Some(max) = max {
        run::lemma_never_bind(
            policy::sigrate_loading(label),
            policy::then_check_now(max),
            acts(),
        );
    }
}

proof fn lemma_read_data(label: Seq<char>)
    ensures
        run::never(store::read_data(label), acts()),
{
    reveal_with_fuel(run::never, 2);
    let prog = store::read_data(label);
    assert forall|r: ReplyView| run::never(#[trigger] (prog->Ask_1)(r), acts()) by {
        if let ReplyView::Handles(Ok(handles)) = r {
            assert(run::never(store::read_found(label, handles), acts()));
        }
    }
}

/// Where the policy on the token forbids a transaction, the transaction comes
/// back as it was, with the policy's words for why; nothing is signed, and
/// nothing on the token changes.
pub proof fn law_forbidden_is_not_signed(
    key: SigningKeyView,
    psbt: PsbtView,
    p: PolicyView,
    e: Pkcs11ErrorView,
    replies: Seq<ReplyView>,
)
    requires
        run::behind(policy::policy_loading(key.label), replies) == Prog::<
            Result<PolicyView, Pkcs11ErrorView>,
        >::Done(Ok(p)),
        p.check(psbt.unsigned_tx.output, key.network) == Err::<(), Pkcs11ErrorView>(e),
    ensures
        run::behind(transaction::transaction_signing(key, psbt), replies) == Prog::<Signed>::Done(
            (psbt, Err(e.text())),
        ),
        forall|i: int|
            0 <= i < run::asked(transaction::transaction_signing(key, psbt), replies).len() ==> {
                let q = #[trigger] run::asked(
                    transaction::transaction_signing(key, psbt),
                    replies,
                )[i];
                !signs(q) && !changes(q)
            },
{
    let loading = policy::policy_loading(key.label);
    let next = transaction::then_check(key, psbt);
    run::lemma_behind_bind(loading, next, replies);
    law_reading_only_reads(key.label, None, arbitrary(), arbitrary());
    run::lemma_never_asked(loading, replies, acts());
    assert forall|i: int|
        0 <= i < run::asked(transaction::transaction_signing(key, psbt), replies).len() implies {
        let q = #[trigger] run::asked(transaction::transaction_signing(key, psbt), replies)[i];
        !signs(q) && !changes(q)
    } by {
        assert(!(acts())(run::asked(loading, replies)[i]));
    }
}

/// The replies to a signer that reads its policy, its counter and the clock.
pub open spec fn looked_up(
    read: Seq<ReplyView>,
    counter: Seq<ReplyView>,
    now: u64,
) -> Seq<ReplyView> {
    read + (counter + seq![ReplyView::Time(now)])
}

/// What holding the counter against a full hour comes to.
proof fn lemma_full_hour(
    label: Seq<char>,
    max: u32,
    times: Seq<u64>,
    now: u64,
    counter: Seq<ReplyView>,
)
    requires
        run::behind(policy::sigrate_loading(label), counter) == Prog::<
            Result<Seq<u64>, Pkcs11ErrorView>,
        >::Done(Ok(times)),
    ensures
        run::behind(
            policy::rate_checking(label, Some(max)),
            counter + seq![ReplyView::Time(now)],
        ) == Prog::Done(policy::check_rate(times, now, max)),
{
    let last = seq![ReplyView::Time(now)];
    let prog = policy::check_now(times, max);
    run::lemma_behind_both(
        policy::sigrate_loading(label),
        policy::then_check_now(max),
        counter,
        last,
    );
    assert(last.drop_first() =~= Seq::empty());
    reveal_with_fuel(run::behind, 2);
    assert(run::behind(prog, last) == (prog->Ask_1)(last[0]));
}

/// Where the counter on the token holds as many signatures in the last hour as the
/// policy's ceiling, or more, a transaction with an input of this signer's comes
/// back as it was, with the ceiling's words for why; nothing is signed, and nothing
/// on the token changes.
pub proof fn law_full_hour_is_not_signed(
    key: SigningKeyView,
    psbt: PsbtView,
    p: PolicyView,
    max: u32,
    times: Seq<u64>,
    now: u64,
    read: Seq<ReplyView>,
    counter: Seq<ReplyView>,
)
    requires
        run::behind(policy::policy_loading(key.label), read) == Prog::<
            Result<PolicyView, Pkcs11ErrorView>,
        >::Done(Ok(p)),
        p.check(psbt.unsigned_tx.output, key.network) is Ok,
        p.max_signatures_per_hour == Some(max),
        signing::any_ours(key.fingerprint, psbt.inputs),
        run::behind(policy::sigrate_loading(key.label), counter) == Prog::<
            Result<Seq<u64>, Pkcs11ErrorView>,
        >::Done(Ok(times)),
        policy::recent(times, now).len() >= max,
    ensures
        policy::check_rate(times, now, max) is Err,
        run::behind(
            transaction::transaction_signing(key, psbt),
            looked_up(read, counter, now),
        ) == Prog::<Signed>::Done(
            (psbt, Err(policy::check_rate(times, now, max)->Err_0.text())),
        ),
        forall|i: int|
            0 <= i < run::asked(
                transaction::transaction_signing(key, psbt),
                looked_up(read, counter, now),
            ).len() ==> {
                let q = #[trigger] run::asked(
                    transaction::transaction_signing(key, psbt),
                    looked_up(read, counter, now),
                )[i];
                !signs(q) && !changes(q)
            },
{
    let loading = policy::policy_loading(key.label);
    let checking = policy::rate_checking(key.label, Some(max));
    let then = transaction::then_sign(key, Some(max), psbt);
    let rest = counter + seq![ReplyView::Time(now)];
    let whole = transaction::transaction_signing(key, psbt);
    run::lemma_behind_both(loading, transaction::then_check(key, psbt), read, rest);
    lemma_full_hour(key.label, max, times, now, counter);
    run::lemma_behind_bind(checking, then, rest);
    law_reading_only_reads(key.label, Some(max), arbitrary(), arbitrary());
    run::lemma_never_asked(loading, read, acts());
    run::lemma_never_asked(checking, rest, acts());
    let first = run::asked(loading, read);
    let second = run::asked(checking, rest);
    assert(run::asked(whole, looked_up(read, counter, now)) == first + second);
    assert forall|i: int| 0 <= i < (first + second).len() implies {
        let q = #[trigger] (first + second)[i];
        !signs(q) && !changes(q)
    } by {
        if i < first.len() {
            assert(!(acts())(first[i]));
        } else {
            assert(!(acts())(second[i - first.len()]));
        }
    }
}

/// The same of an Elements transaction.
pub proof fn law_full_hour_pset_is_not_signed(
    label: Seq<char>,
    fingerprint: Seq<u8>,
    pset: PsetView,
    p: PolicyView,
    max: u32,
    times: Seq<u64>,
    now: u64,
    read: Seq<ReplyView>,
    counter: Seq<ReplyView>,
)
    requires
        run::behind(policy::policy_loading(label), read) == Prog::<
            Result<PolicyView, Pkcs11ErrorView>,
        >::Done(Ok(p)),
        pset.unsigned_tx is Ok,
        p.max_signatures_per_hour == Some(max),
        elements::any_own(fingerprint, pset.inputs),
        run::behind(policy::sigrate_loading(label), counter) == Prog::<
            Result<Seq<u64>, Pkcs11ErrorView>,
        >::Done(Ok(times)),
        policy::recent(times, now).len() >= max,
    ensures
        policy::check_rate(times, now, max) is Err,
        run::behind(
            elements::pset_signing(label, fingerprint, pset),
            looked_up(read, counter, now),
        ) == Prog::<SignedPset>::Done(
            (
                pset,
                Err(
                    PsetErrorView::SignerBackend(
                        policy::check_rate(times, now, max)->Err_0.text(),
                    ),
                ),
            ),
        ),
        forall|i: int|
            0 <= i < run::asked(
                elements::pset_signing(label, fingerprint, pset),
                looked_up(read, counter, now),
            ).len() ==> {
                let q = #[trigger] run::asked(
                    elements::pset_signing(label, fingerprint, pset),
                    looked_up(read, counter, now),
                )[i];
                !signs(q) && !changes(q)
            },
{
    let loading = policy::policy_loading(label);
    let checking = policy::rate_checking(label, Some(max));
    let tx = pset.unsigned_tx->Ok_0;
    let then = elements::then_sign_inputs(label, fingerprint, Some(max), tx, pset);
    let rest = counter + seq![ReplyView::Time(now)];
    let whole = elements::pset_signing(label, fingerprint, pset);
    run::lemma_behind_both(
        loading,
        elements::then_sign_pset(label, fingerprint, pset),
        read,
        rest,
    );
    lemma_full_hour(label, max, times, now, counter);
    run::lemma_behind_bind(checking, then, rest);
    law_reading_only_reads(label, Some(max), arbitrary(), arbitrary());
    run::lemma_never_asked(loading, read, acts());
    run::lemma_never_asked(checking, rest, acts());
    let first = run::asked(loading, read);
    let second = run::asked(checking, rest);
    assert(run::asked(whole, looked_up(read, counter, now)) == first + second);
    assert forall|i: int| 0 <= i < (first + second).len() implies {
        let q = #[trigger] (first + second)[i];
        !signs(q) && !changes(q)
    } by {
        if i < first.len() {
            assert(!(acts())(first[i]));
        } else {
            assert(!(acts())(second[i - first.len()]));
        }
    }
}

/// A token whose counter has reached the ceiling of its policy gives no signature:
/// whatever it answers, signing a transaction with an input of this signer's fails,
/// and leaves the transaction and the token as they were.
pub proof fn law_no_signature_beyond_the_ceiling(
    w: World,
    key: SigningKeyView,
    psbt: PsbtView,
    p: PolicyView,
    max: u32,
    times: Seq<u64>,
    before: Objects,
    out: Signed,
    after: Objects,
)
    requires
        w.faithful(),
        stored::holds_policy(w, before, key.label, p),
        p.max_signatures_per_hour == Some(max),
        stored::holds_times(w, before, key.label, times),
        policy::recent(times, w.now).len() >= max,
        signing::any_ours(key.fingerprint, psbt.inputs),
        w.runs(transaction::transaction_signing(key, psbt), before, out, after),
    ensures
        out.0 == psbt,
        out.1 is Err,
        after == before,
{
    let (d, mid) = world::lemma_runs_bind(
        w,
        policy::policy_loading(key.label),
        transaction::then_check(key, psbt),
        before,
        out,
        after,
    );
    stored::lemma_load_policy(w, key.label, p, before, d, mid);
    if d is Ok && p.check(psbt.unsigned_tx.output, key.network) is Ok {
        let (c, mid2) = world::lemma_runs_bind(
            w,
            policy::rate_checking(key.label, Some(max)),
            transaction::then_sign(key, Some(max), psbt),
            before,
            out,
            after,
        );
        stored::lemma_rate_checking(w, key.label, max, times, before, c, mid2);
    }
}

/// Whether an output pays to an address on the list.
pub open spec fn pays_to_one(list: Seq<Seq<char>>, network: Network, out: TxOutView) -> bool {
    exists|j: int|
        0 <= j < list.len() && outside::address_script(#[trigger] list[j], network) == Ok::<
            Seq<u8>,
            Seq<char>,
        >(out.script_pubkey)
}

/// The scripts that a list of addresses permits are the addresses' own scripts, in the
/// order of the list. Where one of them is no address of the network, the first such
/// is what goes wrong.
pub proof fn law_list_permits_its_scripts(list: Seq<Seq<char>>, network: Network)
    ensures
        policy::allowed_scripts(list, network) is Ok <==> forall|j: int|
            0 <= j < list.len() ==> outside::address_script(#[trigger] list[j], network) is Ok,
        policy::allowed_scripts(list, network) matches Ok(scripts) ==> {
            &&& scripts.len() == list.len()
            &&& forall|j: int|
                0 <= j < list.len() ==> outside::address_script(#[trigger] list[j], network) == Ok::<
                    Seq<u8>,
                    Seq<char>,
                >(scripts[j])
        },
        forall|k: int|
            #![trigger list[k]]
            0 <= k < list.len() && outside::address_script(list[k], network) is Err && (forall|
                j: int,
            |
                0 <= j < k ==> outside::address_script(#[trigger] list[j], network) is Ok)
                ==> policy::allowed_scripts(list, network) == Err::<Seq<Seq<u8>>, Pkcs11ErrorView>(
                Pkcs11ErrorView::Bitcoin(
                    "whitelist address not on network "@ + network.name_view() + ": "@
                        + outside::address_script(list[k], network)->Err_0,
                ),
            ),
    decreases list.len(),
{
    if list.len() != 0 {
        let rest = list.drop_last();
        law_list_permits_its_scripts(rest, network);
        assert(forall|j: int| 0 <= j < rest.len() ==> #[trigger] rest[j] == list[j]);
        assert(list[list.len() - 1] == list.last());
        if policy::allowed_scripts(list, network) is Ok {
            assert forall|j: int| 0 <= j < list.len() implies outside::address_script(
                #[trigger] list[j],
                network,
            ) == Ok::<Seq<u8>, Seq<char>>(policy::allowed_scripts(list, network)->Ok_0[j]) by {
                if j < rest.len() {
                    assert(rest[j] == list[j]);
                }
            }
        }
        if forall|j: int|
            0 <= j < list.len() ==> outside::address_script(#[trigger] list[j], network) is Ok {
            assert forall|j: int| 0 <= j < rest.len() implies outside::address_script(
                #[trigger] rest[j],
                network,
            ) is Ok by {
                assert(rest[j] == list[j]);
            }
            assert(outside::address_script(list[list.len() - 1], network) is Ok);
        }
        assert forall|k: int|
            #![trigger list[k]]
            0 <= k < list.len() && outside::address_script(list[k], network) is Err && (forall|
                j: int,
            |
                0 <= j < k ==> outside::address_script(#[trigger] list[j], network) is Ok) implies
            policy::allowed_scripts(list, network) == Err::<Seq<Seq<u8>>, Pkcs11ErrorView>(
            Pkcs11ErrorView::Bitcoin(
                "whitelist address not on network "@ + network.name_view() + ": "@
                    + outside::address_script(list[k], network)->Err_0,
            ),
        ) by {
            if k < rest.len() {
                assert(rest[k] == list[k]);
                assert forall|j: int| 0 <= j < k implies outside::address_script(
                    #[trigger] rest[j],
                    network,
                ) is Ok by {
                    assert(rest[j] == list[j]);
                }
            } else {
                assert forall|j: int| 0 <= j < rest.len() implies outside::address_script(
                    #[trigger] rest[j],
                    network,
                ) is Ok by {
                    assert(rest[j] == list[j]);
                }
            }
        }
    }
}

/// What outputs add up to is the sum of their amounts: nothing for none, an output's
/// amount for it alone, and the two sums for two lists of them.
pub proof fn law_total_is_the_sum(a: Seq<TxOutView>, b: Seq<TxOutView>, out: TxOutView)
    ensures
        policy::total_out(Seq::empty()) == 0,
        policy::total_out(seq![out]) == out.value,
        policy::total_out(a + b) == policy::total_out(a) + policy::total_out(b),
    decreases b.len(),
{
    reveal_with_fuel(policy::total_out, 2);
    assert(seq![out].drop_last() =~= Seq::<TxOutView>::empty());
    if b.len() == 0 {
        assert(a + b =~= a);
    } else {
        law_total_is_the_sum(a, b.drop_last(), out);
        assert((a + b).drop_last() =~= a + b.drop_last());
        assert((a + b).last() == b.last());
    }
}

/// The outputs that a policy permits: they add up to no more than its limit, and
/// where it has a list of addresses, each address on it is one of the network, and
/// each output pays to one of them. What exceeds the limit or pays elsewhere violates
/// the policy, and the limit comes first.
pub proof fn law_check_is_limit_and_list(
    p: PolicyView,
    outs: Seq<TxOutView>,
    network: Network,
)
    ensures
        p.check(outs, network) is Ok <==> {
            &&& p.per_transaction_limit matches Some(limit) ==> policy::total_out(outs) <= limit
            &&& p.destination_whitelist matches Some(list) ==> {
                &&& forall|j: int|
                    0 <= j < list.len() ==> outside::address_script(
                        #[trigger] list[j],
                        network,
                    ) is Ok
                &&& forall|i: int|
                    0 <= i < outs.len() ==> pays_to_one(list, network, #[trigger] outs[i])
            }
        },
        p.per_transaction_limit matches Some(limit) && policy::total_out(outs) > limit ==> p.check(
            outs,
            network,
        )->Err_0 is PolicyViolation,
        p.per_transaction_limit is None && (p.destination_whitelist matches Some(list) && forall|
            j: int,
        |
            0 <= j < list.len() ==> outside::address_script(#[trigger] list[j], network) is Ok)
            ==> (p.check(outs, network) is Err ==> p.check(
            outs,
            network,
        )->Err_0 is PolicyViolation),
{
    if let Some(list) = p.destination_whitelist {
        law_list_permits_its_scripts(list, network);
        if let Ok(allowed) = policy::allowed_scripts(list, network) {
            lemma_first_elsewhere(outs, allowed);
            assert forall|i: int| 0 <= i < outs.len() implies allowed.contains(
                #[trigger] outs[i].script_pubkey,
            ) == pays_to_one(list, network, outs[i]) by {
                lemma_allowed_is_paid(list, network, allowed, outs[i]);
            }
            if policy::first_elsewhere(outs, allowed) is None {
                assert forall|i: int| 0 <= i < outs.len() implies pays_to_one(
                    list,
                    network,
                    #[trigger] outs[i],
                ) by {
                    assert(allowed.contains(outs[i].script_pubkey));
                }
            } else {
                let i = choose|i: int|
                    0 <= i < outs.len() && !allowed.contains(#[trigger] outs[i].script_pubkey);
                assert(!pays_to_one(list, network, outs[i]));
            }
        }
    }
}

proof fn lemma_first_elsewhere(outs: Seq<TxOutView>, allowed: Seq<Seq<u8>>)
    ensures
        policy::first_elsewhere(outs, allowed) is None <==> forall|i: int|
            0 <= i < outs.len() ==> allowed.contains(#[trigger] outs[i].script_pubkey),
    decreases outs.len(),
{
    if outs.len() != 0 {
        let rest = outs.drop_first();
        lemma_first_elsewhere(rest, allowed);
        assert forall|i: int| 0 <= i < rest.len() implies #[trigger] rest[i] == outs[i + 1] by {}
        if policy::first_elsewhere(outs, allowed) is None {
            assert forall|i: int| 0 <= i < outs.len() implies allowed.contains(
                #[trigger] outs[i].script_pubkey,
            ) by {
                if i > 0 {
                    assert(allowed.contains(rest[i - 1].script_pubkey));
                }
            }
        } else if allowed.contains(outs[0].script_pubkey) {
            let j = choose|j: int|
                0 <= j < rest.len() && !allowed.contains(#[trigger] rest[j].script_pubkey);
            assert(outs[j + 1] == rest[j]);
        }
    }
}

/// What a policy says to outputs that it does not permit: the total and the limit,
/// where the total exceeds it, and else the script of the first output that pays to
/// no address on the list.
pub proof fn law_check_tells_what_is_wrong(
    p: PolicyView,
    outs: Seq<TxOutView>,
    network: Network,
    k: int,
)
    ensures
        p.per_transaction_limit matches Some(limit) && policy::total_out(outs) > limit ==> p.check(
            outs,
            network,
        ) == Err::<(), Pkcs11ErrorView>(
            Pkcs11ErrorView::PolicyViolation(
                "PSBT output total "@ + (if policy::total_out(outs) <= u64::MAX {
                    outside::amount_words(policy::total_out(outs) as u64)
                } else {
                    "above "@ + outside::amount_words(u64::MAX)
                }) + " exceeds per-transaction limit "@ + outside::amount_words(
                    p.per_transaction_limit->Some_0,
                ),
            ),
        ),
        (p.per_transaction_limit matches Some(limit) ==> policy::total_out(outs) <= limit) && (
        p.destination_whitelist matches Some(list) && (forall|j: int|
            0 <= j < list.len() ==> outside::address_script(#[trigger] list[j], network) is Ok) && 0
            <= k < outs.len() && !pays_to_one(list, network, outs[k]) && forall|i: int|
            0 <= i < k ==> pays_to_one(list, network, #[trigger] outs[i])) ==> p.check(
            outs,
            network,
        ) == Err::<(), Pkcs11ErrorView>(
            Pkcs11ErrorView::PolicyViolation(
                "output script "@ + outside::script_words(outs[k].script_pubkey)
                    + " not in destination whitelist"@,
            ),
        ),
{
    if let Some(list) = p.destination_whitelist {
        law_list_permits_its_scripts(list, network);
        if let Ok(allowed) = policy::allowed_scripts(list, network) {
            if 0 <= k < outs.len() && !pays_to_one(list, network, outs[k]) && forall|i: int|
                0 <= i < k ==> pays_to_one(list, network, #[trigger] outs[i]) {
                assert forall|i: int| 0 <= i < outs.len() implies allowed.contains(
                    #[trigger] outs[i].script_pubkey,
                ) == pays_to_one(list, network, outs[i]) by {
                    lemma_allowed_is_paid(list, network, allowed, outs[i]);
                }
                assert forall|i: int| 0 <= i < k implies allowed.contains(
                    #[trigger] outs[i].script_pubkey,
                ) by {
                    assert(pays_to_one(list, network, outs[i]));
                }
                lemma_elsewhere_at(outs, allowed, k);
            }
        }
    }
}

proof fn lemma_allowed_is_paid(
    list: Seq<Seq<char>>,
    network: Network,
    allowed: Seq<Seq<u8>>,
    out: TxOutView,
)
    requires
        policy::allowed_scripts(list, network) == Ok::<Seq<Seq<u8>>, Pkcs11ErrorView>(allowed),
    ensures
        allowed.contains(out.script_pubkey) == pays_to_one(list, network, out),
{
    law_list_permits_its_scripts(list, network);
    if allowed.contains(out.script_pubkey) {
        let j = allowed.index_of(out.script_pubkey);
        assert(outside::address_script(list[j], network) == Ok::<Seq<u8>, Seq<char>>(
            out.script_pubkey,
        ));
    }
    if pays_to_one(list, network, out) {
        let j = choose|j: int|
            0 <= j < list.len() && outside::address_script(#[trigger] list[j], network) == Ok::<
                Seq<u8>,
                Seq<char>,
            >(out.script_pubkey);
        assert(allowed[j] == out.script_pubkey);
    }
}

proof fn lemma_elsewhere_at(outs: Seq<TxOutView>, allowed: Seq<Seq<u8>>, k: int)
    requires
        0 <= k < outs.len(),
        !allowed.contains(outs[k].script_pubkey),
        forall|i: int| 0 <= i < k ==> allowed.contains(#[trigger] outs[i].script_pubkey),
    ensures
        policy::first_elsewhere(outs, allowed) == Some(outs[k].script_pubkey),
    decreases outs.len(),
{
    if k > 0 {
        let rest = outs.drop_first();
        assert(allowed.contains(outs[0].script_pubkey));
        assert forall|i: int| 0 <= i < k - 1 implies allowed.contains(
            #[trigger] rest[i].script_pubkey,
        ) by {
            assert(rest[i] == outs[i + 1]);
        }
        lemma_elsewhere_at(rest, allowed, k - 1);
    }
}

/// A policy with nothing set permits everything.
pub proof fn law_permissive_permits_all(outs: Seq<TxOutView>, network: Network)
    ensures
        PolicyView::permissive().check(outs, network) is Ok,
        PolicyView::permissive().max_signatures_per_hour is None,
{
}

// ---------------------------------------------------------------------------
// A signer signs its own inputs
// ---------------------------------------------------------------------------

/// Whether two inputs differ at most in their signatures.
pub open spec fn same_but_sigs(a: PsbtInputView, b: PsbtInputView) -> bool {
    b == (PsbtInputView {
        partial_sigs: b.partial_sigs,
        tap_script_sigs: b.tap_script_sigs,
        ..a
    })
}

/// The key with which this signer signs an input, if it is one for ECDSA.
pub open spec fn own_key(fingerprint: Seq<u8>, input: PsbtInputView) -> Option<Seq<u8>> {
    match signing::own_origin(input.bip32_derivation, fingerprint) {
        Some(own) => Some(own.key),
        None => None,
    }
}

/// The key with which this signer signs an input, if it is one for Taproot.
pub open spec fn own_tap_key(fingerprint: Seq<u8>, input: PsbtInputView) -> Option<Seq<u8>> {
    match (
        signing::own_origin(input.bip32_derivation, fingerprint),
        signing::own_tap_origin(input.tap_key_origins, fingerprint),
    ) {
        (None, Some(own)) => Some(own.key),
        _ => None,
    }
}

/// Whether every signature under another key stays, and what is new is under this
/// one.
pub open spec fn only_under(
    key: Option<Seq<u8>>,
    before: Seq<PartialSigView>,
    after: Seq<PartialSigView>,
) -> bool {
    &&& forall|s: PartialSigView| #[trigger]
        before.contains(s) && Some(s.key) != key ==> after.contains(s)
    &&& forall|s: PartialSigView| #[trigger]
        after.contains(s) && !before.contains(s) ==> Some(s.key) == key
}

/// The same of Taproot signatures.
pub open spec fn only_under_tap(
    key: Option<Seq<u8>>,
    before: Seq<TapScriptSigView>,
    after: Seq<TapScriptSigView>,
) -> bool {
    &&& forall|s: TapScriptSigView| #[trigger]
        before.contains(s) && Some(s.key) != key ==> after.contains(s)
    &&& forall|s: TapScriptSigView| #[trigger]
        after.contains(s) && !before.contains(s) ==> Some(s.key) == key
}

/// Whether an input differs from what it was at most in this signer's signatures.
pub open spec fn own_sigs_in(
    fingerprint: Seq<u8>,
    before: PsbtInputView,
    after: PsbtInputView,
) -> bool {
    &&& same_but_sigs(before, after)
    &&& signing::ours(fingerprint, before) || after == before
    &&& only_under(own_key(fingerprint, before), before.partial_sigs, after.partial_sigs)
    &&& only_under_tap(
        own_tap_key(fingerprint, before),
        before.tap_script_sigs,
        after.tap_script_sigs,
    )
}

/// Whether two transactions differ at most in this signer's signatures in its own
/// inputs.
pub open spec fn own_sigs_added(fingerprint: Seq<u8>, before: PsbtView, after: PsbtView) -> bool {
    &&& after.unsigned_tx == before.unsigned_tx
    &&& after.inputs.len() == before.inputs.len()
    &&& forall|i: int|
        #![trigger after.inputs[i]]
        0 <= i < before.inputs.len() ==> own_sigs_in(
            fingerprint,
            before.inputs[i],
            after.inputs[i],
        )
}

/// Whether a result differs from the transaction at most so.
pub open spec fn adds_own_sigs(fingerprint: Seq<u8>, psbt: PsbtView) -> spec_fn(Signed) -> bool {
    |out: Signed| own_sigs_added(fingerprint, psbt, out.0)
}

/// Whether the signatures are by this signer's key for the input.
pub open spec fn by_own_key(
    fingerprint: Seq<u8>,
    input: PsbtInputView,
    sigs: InputSigsView,
) -> bool {
    match sigs {
        InputSigsView::Nothing => true,
        InputSigsView::Ecdsa(s) => own_key(fingerprint, input) == Some(s.key),
        InputSigsView::Taproot(l) => forall|j: int|
            0 <= j < l.len() ==> own_tap_key(fingerprint, input) == Some((#[trigger] l[j]).key),
    }
}

/// Whether a result, if it is signatures, is such.
pub open spec fn signs_by_own_key(fingerprint: Seq<u8>, input: PsbtInputView) -> spec_fn(
    Result<InputSigsView, Seq<char>>,
) -> bool {
    |d: Result<InputSigsView, Seq<char>>|
        d matches Ok(sigs) ==> by_own_key(fingerprint, input, sigs)
}

proof fn lemma_with_sig_under(list: Seq<PartialSigView>, new: PartialSigView)
    ensures
        only_under(Some(new.key), list, psbt::with_sig(list, new)),
    decreases list.len(),
{
    let after = psbt::with_sig(list, new);
    if list.len() == 0 {
    } else if list[0].key == new.key {
        assert forall|s: PartialSigView| #[trigger]
            list.contains(s) && Some(s.key) != Some(new.key) implies after.contains(s) by {
            let i = list.index_of(s);
            assert(after[i] == s);
        }
        assert forall|s: PartialSigView| #[trigger]
            after.contains(s) && !list.contains(s) implies Some(s.key) == Some(new.key) by {
            let i = after.index_of(s);
            if i > 0 {
                assert(list[i] == s);
            }
        }
    } else {
        let tail = list.drop_first();
        let rest = psbt::with_sig(tail, new);
        lemma_with_sig_under(tail, new);
        assert forall|s: PartialSigView| #[trigger]
            list.contains(s) && Some(s.key) != Some(new.key) implies after.contains(s) by {
            let i = list.index_of(s);
            if i == 0 {
                assert(after[0] == s);
            } else {
                assert(tail[i - 1] == s);
                assert(tail.contains(s));
                let j = rest.index_of(s);
                assert(after[j + 1] == s);
            }
        }
        assert forall|s: PartialSigView| #[trigger]
            after.contains(s) && !list.contains(s) implies Some(s.key) == Some(new.key) by {
            let i = after.index_of(s);
            if i == 0 {
                assert(list[0] == s);
            } else {
                assert(rest[i - 1] == s);
                assert(rest.contains(s));
                if tail.contains(s) {
                    let j = tail.index_of(s);
                    assert(list[j + 1] == s);
                }
            }
        }
    }
}

proof fn lemma_with_tap_sig_under(list: Seq<TapScriptSigView>, new: TapScriptSigView)
    ensures
        only_under_tap(Some(new.key), list, psbt::with_tap_sig(list, new)),
    decreases list.len(),
{
    let after = psbt::with_tap_sig(list, new);
    if list.len() == 0 {
    } else if list[0].key == new.key && list[0].leaf_hash == new.leaf_hash {
        assert forall|s: TapScriptSigView| #[trigger]
            list.contains(s) && Some(s.key) != Some(new.key) implies after.contains(s) by {
            let i = list.index_of(s);
            assert(after[i] == s);
        }
        assert forall|s: TapScriptSigView| #[trigger]
            after.contains(s) && !list.contains(s) implies Some(s.key) == Some(new.key) by {
            let i = after.index_of(s);
            if i > 0 {
                assert(list[i] == s);
            }
        }
    } else {
        let tail = list.drop_first();
        let rest = psbt::with_tap_sig(tail, new);
        lemma_with_tap_sig_under(tail, new);
        assert forall|s: TapScriptSigView| #[trigger]
            list.contains(s) && Some(s.key) != Some(new.key) implies after.contains(s) by {
            let i = list.index_of(s);
            if i == 0 {
                assert(after[0] == s);
            } else {
                assert(tail[i - 1] == s);
                assert(tail.contains(s));
                let j = rest.index_of(s);
                assert(after[j + 1] == s);
            }
        }
        assert forall|s: TapScriptSigView| #[trigger]
            after.contains(s) && !list.contains(s) implies Some(s.key) == Some(new.key) by {
            let i = after.index_of(s);
            if i == 0 {
                assert(list[0] == s);
            } else {
                assert(rest[i - 1] == s);
                assert(rest.contains(s));
                if tail.contains(s) {
                    let j = tail.index_of(s);
                    assert(list[j + 1] == s);
                }
            }
        }
    }
}

proof fn lemma_with_tap_sigs_under(
    key: Seq<u8>,
    list: Seq<TapScriptSigView>,
    new: Seq<TapScriptSigView>,
)
    requires
        forall|j: int| 0 <= j < new.len() ==> (#[trigger] new[j]).key == key,
    ensures
        only_under_tap(Some(key), list, transaction::with_tap_sigs(list, new)),
    decreases new.len(),
{
    if new.len() != 0 {
        let rest = new.drop_last();
        assert forall|j: int| 0 <= j < rest.len() implies (#[trigger] rest[j]).key == key by {
            assert(rest[j] == new[j]);
        }
        lemma_with_tap_sigs_under(key, list, rest);
        let mid = transaction::with_tap_sigs(list, rest);
        assert(new.last().key == key) by {
            assert(new[new.len() - 1].key == key);
        }
        lemma_with_tap_sig_under(mid, new.last());
        let after = psbt::with_tap_sig(mid, new.last());
        assert forall|s: TapScriptSigView| #[trigger]
            list.contains(s) && Some(s.key) != Some(key) implies after.contains(s) by {
            assert(mid.contains(s));
        }
        assert forall|s: TapScriptSigView| #[trigger]
            after.contains(s) && !list.contains(s) implies Some(s.key) == Some(key) by {}
    }
}

proof fn lemma_leaves_by_own_key(
    label: Seq<char>,
    federation: ObjectHandle,
    plan: TaprootPlanView,
    used: ObjectHandle,
    done: Seq<TapScriptSigView>,
    fingerprint: Seq<u8>,
    input: PsbtInputView,
)
    requires
        own_tap_key(fingerprint, input) == Some(plan.key),
        forall|j: int| 0 <= j < done.len() ==> (#[trigger] done[j]).key == plan.key,
    ensures
        run::always(
            signing::leaf_signing(label, federation, plan, used, done),
            signs_by_own_key(fingerprint, input),
        ),
    decreases plan.leaves.len() - done.len(),
{
    let good = signs_by_own_key(fingerprint, input);
    let prog = signing::leaf_signing(label, federation, plan, used, done);
    if done.len() >= plan.leaves.len() {
        reveal_with_fuel(run::always, 2);
    } else {
        assert forall|r: ReplyView| run::always(#[trigger] (prog->Ask_1)(r), good) by {
            match r {
                ReplyView::Schnorr(Ok(signature)) => {
                    let leaf = plan.leaves[done.len() as int];
                    let more = done.push(
                        TapScriptSigView {
                            key: plan.key,
                            leaf_hash: leaf.leaf_hash,
                            signature,
                            sighash_type: plan.sighash_type,
                        },
                    );
                    lemma_leaves_by_own_key(
                        label,
                        federation,
                        plan,
                        used,
                        more,
                        fingerprint,
                        input,
                    );
                },
                ReplyView::Schnorr(Err(e)) => {
                    reveal_with_fuel(run::always, 2);
                },
                _ => {},
            }
        }
    }
}

proof fn lemma_ecdsa_by_own_key(
    federation: ObjectHandle,
    plan: EcdsaPlanView,
    used: ObjectHandle,
    fingerprint: Seq<u8>,
    input: PsbtInputView,
)
    requires
        own_key(fingerprint, input) == Some(plan.key),
    ensures
        run::always(
            signing::ecdsa_with(federation, plan, used),
            signs_by_own_key(fingerprint, input),
        ),
{
    let good = signs_by_own_key(fingerprint, input);
    let anything = |d: Result<Seq<u8>, Pkcs11ErrorView>| true;
    let next = signing::then_drop_child(federation, plan, used);
    run::lemma_always_all(ecdsa::low_s_signing(used, plan.digest), anything);
    assert forall|d: Result<Seq<u8>, Pkcs11ErrorView>| anything(d) implies run::always(
        #[trigger] next(d),
        good,
    ) by {
        reveal_with_fuel(run::always, 2);
    }
    run::lemma_always_bind(ecdsa::low_s_signing(used, plan.digest), next, anything, good);
}

/// What is signed for an input is by this signer's key for it, whatever the replies
/// are. An input that is another's gets nothing.
pub proof fn law_inputs_are_signed_by_their_key(key: SigningKeyView, psbt: PsbtView, index: nat)
    requires
        index < psbt.inputs.len(),
    ensures
        run::always(
            signing::plan_signing(
                key.label,
                key.handle,
                signing::input_plan(key, psbt, index),
            ),
            signs_by_own_key(key.fingerprint, psbt.inputs[index as int]),
        ),
{
    let input = psbt.inputs[index as int];
    let plan = signing::input_plan(key, psbt, index);
    let good = signs_by_own_key(key.fingerprint, input);
    let prog = signing::plan_signing(key.label, key.handle, plan);
    match plan {
        InputPlanView::Ecdsa(p) => {
            lemma_ecdsa_by_own_key(key.handle, p, key.handle, key.fingerprint, input);
            if p.relative.len() != 0 {
                assert forall|r: ReplyView| run::always(#[trigger] (prog->Ask_1)(r), good) by {
                    if let ReplyView::Derived(Ok(used)) = r {
                        lemma_ecdsa_by_own_key(key.handle, p, used, key.fingerprint, input);
                    }
                }
            }
        },
        InputPlanView::Taproot(p) => {
            lemma_leaves_by_own_key(
                key.label,
                key.handle,
                p,
                key.handle,
                Seq::empty(),
                key.fingerprint,
                input,
            );
            if p.leaves.len() != 0 && p.relative.len() != 0 {
                assert forall|r: ReplyView| run::always(#[trigger] (prog->Ask_1)(r), good) by {
                    if let ReplyView::Derived(Ok(used)) = r {
                        lemma_leaves_by_own_key(
                            key.label,
                            key.handle,
                            p,
                            used,
                            Seq::empty(),
                            key.fingerprint,
                            input,
                        );
                    }
                }
            }
        },
        _ => {},
    }
}

/// Whether each of the first inputs has signatures by this signer's key for it.
spec fn all_by_own_key(
    fingerprint: Seq<u8>,
    psbt: PsbtView,
    done: Seq<InputSigsView>,
) -> bool {
    &&& done.len() <= psbt.inputs.len()
    &&& forall|i: int|
        0 <= i < done.len() ==> by_own_key(fingerprint, psbt.inputs[i], #[trigger] done[i])
}

proof fn lemma_filled_adds_own_sigs(
    fingerprint: Seq<u8>,
    psbt: PsbtView,
    done: Seq<InputSigsView>,
)
    requires
        all_by_own_key(fingerprint, psbt, done),
    ensures
        own_sigs_added(fingerprint, psbt, psbt),
        own_sigs_added(fingerprint, psbt, transaction::with_inputs(psbt, done)),
{
    let after = transaction::with_inputs(psbt, done);
    assert forall|i: int|
        #![trigger after.inputs[i]]
        0 <= i < psbt.inputs.len() implies own_sigs_in(
        fingerprint,
        psbt.inputs[i],
        after.inputs[i],
    ) by {
        let input = psbt.inputs[i];
        if i < done.len() {
            assert(by_own_key(fingerprint, input, done[i]));
            match done[i] {
                InputSigsView::Nothing => {},
                InputSigsView::Ecdsa(s) => {
                    lemma_with_sig_under(input.partial_sigs, s);
                },
                InputSigsView::Taproot(l) => {
                    if l.len() == 0 {
                        assert(after.inputs[i] == input);
                    } else {
                        assert(own_tap_key(fingerprint, input) == Some(l[0].key));
                        assert forall|j: int| 0 <= j < l.len() implies (#[trigger] l[j]).key
                            == l[0].key by {
                            assert(own_tap_key(fingerprint, input) == Some(l[j].key));
                        }
                        lemma_with_tap_sigs_under(l[0].key, input.tap_script_sigs, l);
                    }
                },
            }
        }
    }
}

proof fn lemma_finishing_adds_own_sigs(
    key: SigningKeyView,
    max: Option<u32>,
    psbt: PsbtView,
    done: Seq<InputSigsView>,
    outcome: Result<(), Seq<char>>,
)
    requires
        all_by_own_key(key.fingerprint, psbt, done),
    ensures
        run::always(
            transaction::finishing(key.label, max, psbt, done, outcome),
            adds_own_sigs(key.fingerprint, psbt),
        ),
{
    let good = adds_own_sigs(key.fingerprint, psbt);
    lemma_filled_adds_own_sigs(key.fingerprint, psbt, done);
    let anything = |d: Result<(), Pkcs11ErrorView>| true;
    run::lemma_always_all(policy::rate_recording(key.label, max), anything);
    run::lemma_always_bind(
        policy::rate_recording(key.label, max),
        transaction::then_hand_back(psbt, done, outcome),
        anything,
        good,
    );
}

proof fn lemma_inputs_add_own_sigs(
    key: SigningKeyView,
    max: Option<u32>,
    psbt: PsbtView,
    done: Seq<InputSigsView>,
)
    requires
        all_by_own_key(key.fingerprint, psbt, done),
    ensures
        run::always(
            transaction::inputs_signing(key, max, psbt, done),
            adds_own_sigs(key.fingerprint, psbt),
        ),
    decreases psbt.inputs.len() - done.len(),
{
    let good = adds_own_sigs(key.fingerprint, psbt);
    if done.len() >= psbt.inputs.len() {
        lemma_finishing_adds_own_sigs(key, max, psbt, done, Ok(()));
    } else {
        let plan = signing::input_plan(key, psbt, done.len());
        let prog = signing::plan_signing(key.label, key.handle, plan);
        let next = transaction::then_next_input(key, max, psbt, done);
        let middle = signs_by_own_key(key.fingerprint, psbt.inputs[done.len() as int]);
        law_inputs_are_signed_by_their_key(key, psbt, done.len());
        assert forall|d: Result<InputSigsView, Seq<char>>| middle(d) implies run::always(
            #[trigger] next(d),
            good,
        ) by {
            match d {
                Ok(sigs) => {
                    let more = done.push(sigs);
                    assert(all_by_own_key(key.fingerprint, psbt, more)) by {
                        assert forall|i: int| 0 <= i < more.len() implies by_own_key(
                            key.fingerprint,
                            psbt.inputs[i],
                            #[trigger] more[i],
                        ) by {
                            if i < done.len() {
                                assert(more[i] == done[i]);
                            }
                        }
                    }
                    lemma_inputs_add_own_sigs(key, max, psbt, more);
                },
                Err(t) => {
                    lemma_finishing_adds_own_sigs(key, max, psbt, done, Err(t));
                },
            }
        }
        run::lemma_always_bind(prog, next, middle, good);
    }
}

/// Signing adds signatures to the signer's own inputs and changes nothing else
/// of a transaction, whatever the token answers and whether or not all goes
/// well. In an input of its own every signature under another key stays, and what
/// is new is under the signer's key for the input.
pub proof fn law_adds_own_signatures_only(key: SigningKeyView, psbt: PsbtView)
    ensures
        run::always(
            transaction::transaction_signing(key, psbt),
            adds_own_sigs(key.fingerprint, psbt),
        ),
{
    let good = adds_own_sigs(key.fingerprint, psbt);
    let next = transaction::then_check(key, psbt);
    let middle = |d: Result<PolicyView, Pkcs11ErrorView>| true;
    let nothing = Seq::<InputSigsView>::empty();
    lemma_filled_adds_own_sigs(key.fingerprint, psbt, nothing);
    run::lemma_always_all(policy::policy_loading(key.label), middle);
    assert forall|d: Result<PolicyView, Pkcs11ErrorView>| middle(d) implies run::always(
        #[trigger] next(d),
        good,
    ) by {
        if let Ok(p) = d {
            let max = p.max_signatures_per_hour;
            let sign = transaction::then_sign(key, max, psbt);
            let anything = |c: Result<(), Pkcs11ErrorView>| true;
            run::lemma_always_all(policy::rate_checking(key.label, max), anything);
            lemma_inputs_add_own_sigs(key, max, psbt, nothing);
            assert forall|c: Result<(), Pkcs11ErrorView>| anything(c) implies run::always(
                #[trigger] sign(c),
                good,
            ) by {}
            run::lemma_always_bind(
                policy::rate_checking(key.label, max),
                sign,
                anything,
                good,
            );
        }
    }
    run::lemma_always_bind(policy::policy_loading(key.label), next, middle, good);
}

/// A transaction with no input of the signer's that the policy permits comes back
/// as it was: once the policy is read nothing more is asked for, and no signature is
/// counted.
pub proof fn law_strangers_sign_nothing(
    key: SigningKeyView,
    psbt: PsbtView,
    p: PolicyView,
    replies: Seq<ReplyView>,
)
    requires
        run::behind(policy::policy_loading(key.label), replies) == Prog::<
            Result<PolicyView, Pkcs11ErrorView>,
        >::Done(Ok(p)),
        p.check(psbt.unsigned_tx.output, key.network) is Ok,
        !signing::any_ours(key.fingerprint, psbt.inputs),
    ensures
        run::behind(transaction::transaction_signing(key, psbt), replies) == Prog::<Signed>::Done(
            (psbt, Ok(())),
        ),
{
    run::lemma_behind_bind(
        policy::policy_loading(key.label),
        transaction::then_check(key, psbt),
        replies,
    );
}

// ---------------------------------------------------------------------------
// Elements transactions
// ---------------------------------------------------------------------------

/// How many of the inputs before `end` are this signer's.
pub open spec fn own_count(fingerprint: Seq<u8>, inputs: Seq<PsetInputView>, end: nat) -> nat
    decreases end,
{
    if end == 0 {
        0
    } else {
        let before = own_count(fingerprint, inputs, (end - 1) as nat);
        if elements::own_input(fingerprint, inputs[end - 1]) {
            before + 1
        } else {
            before
        }
    }
}

proof fn lemma_none_own(fingerprint: Seq<u8>, inputs: Seq<PsetInputView>, end: nat)
    requires
        !elements::any_own(fingerprint, inputs),
        end <= inputs.len(),
    ensures
        own_count(fingerprint, inputs, end) == 0,
    decreases end,
{
    if end != 0 {
        lemma_none_own(fingerprint, inputs, (end - 1) as nat);
        assert(!elements::own_input(fingerprint, inputs[end - 1]));
    }
}

/// The key with which this signer signs an input.
pub open spec fn own_pset_key(fingerprint: Seq<u8>, input: PsetInputView) -> Option<Seq<u8>> {
    match elements::own_pset_origin(input.bip32_derivation, fingerprint) {
        Some(own) => Some(own.key),
        None => None,
    }
}

/// Whether two transactions differ at most in this signer's signatures in its own
/// inputs: every signature under another key stays, and what is new is under the
/// signer's key for the input.
pub open spec fn own_pset_sigs_added(fingerprint: Seq<u8>, before: PsetView, after: PsetView) -> bool {
    &&& after.unsigned_tx == before.unsigned_tx
    &&& after.inputs.len() == before.inputs.len()
    &&& forall|i: int|
        #![trigger after.inputs[i]]
        0 <= i < before.inputs.len() ==> {
            let b = before.inputs[i];
            let a = after.inputs[i];
            &&& a == (PsetInputView { partial_sigs: a.partial_sigs, ..b })
            &&& elements::own_input(fingerprint, b) || a == b
            &&& only_under(own_pset_key(fingerprint, b), b.partial_sigs, a.partial_sigs)
        }
}

/// Whether a result differs from the transaction at most so, and tells the
/// number of the signer's inputs if all went well.
pub open spec fn adds_own_pset_sigs(fingerprint: Seq<u8>, pset: PsetView) -> spec_fn(
    SignedPset,
) -> bool {
    |out: SignedPset|
        {
            &&& own_pset_sigs_added(fingerprint, pset, out.0)
            &&& out.1 matches Ok(n) ==> n == own_count(fingerprint, pset.inputs, pset.inputs.len())
        }
}

/// Whether each of the first inputs has a signature by this signer's key for it, if
/// it is this signer's, and else none.
spec fn own_inputs_done(
    fingerprint: Seq<u8>,
    pset: PsetView,
    done: Seq<Option<PartialSigView>>,
) -> bool {
    &&& done.len() <= pset.inputs.len()
    &&& forall|i: int|
        0 <= i < done.len() ==> own_pset_key(fingerprint, pset.inputs[i]) == (
        match #[trigger] done[i] {
            Some(s) => Some(s.key),
            None => None,
        })
}

proof fn lemma_done_count(
    fingerprint: Seq<u8>,
    pset: PsetView,
    done: Seq<Option<PartialSigView>>,
)
    requires
        own_inputs_done(fingerprint, pset, done),
    ensures
        elements::signed_count(done) == own_count(fingerprint, pset.inputs, done.len()),
    decreases done.len(),
{
    if done.len() != 0 {
        let rest = done.drop_last();
        assert(own_inputs_done(fingerprint, pset, rest)) by {
            assert forall|i: int| 0 <= i < rest.len() implies own_pset_key(
                fingerprint,
                pset.inputs[i],
            ) == (match #[trigger] rest[i] {
                Some(s) => Some(s.key),
                None => None,
            }) by {
                assert(done[i] == rest[i]);
            }
        }
        lemma_done_count(fingerprint, pset, rest);
        assert(done[done.len() - 1] == done.last());
    }
}

proof fn lemma_filled_pset(
    fingerprint: Seq<u8>,
    pset: PsetView,
    done: Seq<Option<PartialSigView>>,
)
    requires
        own_inputs_done(fingerprint, pset, done),
    ensures
        own_pset_sigs_added(fingerprint, pset, pset),
        own_pset_sigs_added(fingerprint, pset, elements::with_pset_sigs(pset, done)),
{
    let after = elements::with_pset_sigs(pset, done);
    assert forall|i: int|
        #![trigger after.inputs[i]]
        0 <= i < pset.inputs.len() implies {
        let b = pset.inputs[i];
        let a = after.inputs[i];
        &&& a == (PsetInputView { partial_sigs: a.partial_sigs, ..b })
        &&& elements::own_input(fingerprint, b) || a == b
        &&& only_under(own_pset_key(fingerprint, b), b.partial_sigs, a.partial_sigs)
    } by {
        if i < done.len() {
            if let Some(s) = done[i] {
                lemma_with_sig_under(pset.inputs[i].partial_sigs, s);
            }
        }
    }
}

proof fn lemma_pset_finishing(
    label: Seq<char>,
    fingerprint: Seq<u8>,
    max: Option<u32>,
    pset: PsetView,
    done: Seq<Option<PartialSigView>>,
    outcome: Result<(), PsetErrorView>,
)
    requires
        own_inputs_done(fingerprint, pset, done),
        outcome is Ok ==> done.len() == pset.inputs.len(),
    ensures
        run::always(
            elements::pset_finishing(label, max, pset, done, outcome),
            adds_own_pset_sigs(fingerprint, pset),
        ),
{
    let good = adds_own_pset_sigs(fingerprint, pset);
    lemma_filled_pset(fingerprint, pset, done);
    lemma_done_count(fingerprint, pset, done);
    let anything = |d: Result<(), Pkcs11ErrorView>| true;
    run::lemma_always_all(policy::rate_recording(label, max), anything);
    run::lemma_always_bind(
        policy::rate_recording(label, max),
        elements::then_hand_back_pset(pset, done, outcome),
        anything,
        good,
    );
}

proof fn lemma_own_inputs_more(
    fingerprint: Seq<u8>,
    pset: PsetView,
    done: Seq<Option<PartialSigView>>,
    next: Option<PartialSigView>,
)
    requires
        own_inputs_done(fingerprint, pset, done),
        done.len() < pset.inputs.len(),
        own_pset_key(fingerprint, pset.inputs[done.len() as int]) == (match next {
            Some(s) => Some(s.key),
            None => None,
        }),
    ensures
        own_inputs_done(fingerprint, pset, done.push(next)),
{
    let more = done.push(next);
    assert forall|i: int| 0 <= i < more.len() implies own_pset_key(fingerprint, pset.inputs[i]) == (
    match #[trigger] more[i] {
        Some(s) => Some(s.key),
        None => None,
    }) by {
        if i < done.len() {
            assert(done[i] == more[i]);
        }
    }
}

proof fn lemma_pset_inputs_add_own_sigs(
    label: Seq<char>,
    fingerprint: Seq<u8>,
    max: Option<u32>,
    tx: ElementsTxView,
    pset: PsetView,
    done: Seq<Option<PartialSigView>>,
)
    requires
        own_inputs_done(fingerprint, pset, done),
    ensures
        run::always(
            elements::pset_inputs_signing(label, fingerprint, max, tx, pset, done),
            adds_own_pset_sigs(fingerprint, pset),
        ),
    decreases pset.inputs.len() - done.len(),
{
    let good = adds_own_pset_sigs(fingerprint, pset);
    let prog = elements::pset_inputs_signing(label, fingerprint, max, tx, pset, done);
    if done.len() >= pset.inputs.len() {
        lemma_pset_finishing(label, fingerprint, max, pset, done, Ok(()));
    } else {
        let input = pset.inputs[done.len() as int];
        match elements::pset_plan(tx, input, done.len(), fingerprint) {
            PsetPlanView::Skip => {
                lemma_own_inputs_more(fingerprint, pset, done, None);
                lemma_pset_inputs_add_own_sigs(
                    label,
                    fingerprint,
                    max,
                    tx,
                    pset,
                    done.push(None),
                );
            },
            PsetPlanView::Stop(e) => {
                lemma_pset_finishing(label, fingerprint, max, pset, done, Err(e));
            },
            PsetPlanView::Sign { key, path: _, digest: _, sighash_type } => {
                assert forall|r: ReplyView| run::always(#[trigger] (prog->Ask_1)(r), good) by {
                    match r {
                        ReplyView::StrategySignature(Ok(compact)) => {
                            if ecdsa::valid_compact(compact) {
                                let sig = Some(elements::pset_sig(key, compact, sighash_type));
                                lemma_own_inputs_more(fingerprint, pset, done, sig);
                                lemma_pset_inputs_add_own_sigs(
                                    label,
                                    fingerprint,
                                    max,
                                    tx,
                                    pset,
                                    done.push(sig),
                                );
                            }
                        },
                        ReplyView::StrategySignature(Err(e)) => {
                            lemma_pset_finishing(
                                label,
                                fingerprint,
                                max,
                                pset,
                                done,
                                Err(PsetErrorView::SignerBackend(e.text())),
                            );
                        },
                        _ => {},
                    }
                }
            },
        }
    }
}

/// Signing an Elements transaction adds signatures to the signer's own inputs and
/// changes nothing else of it, whatever the replies are. In an input of its own every
/// signature under another key stays, and what is new is under the signer's key for
/// the input. If all goes well the result is the number of those inputs.
pub proof fn law_pset_adds_own_signatures_only(
    label: Seq<char>,
    fingerprint: Seq<u8>,
    pset: PsetView,
)
    ensures
        run::always(
            elements::pset_signing(label, fingerprint, pset),
            adds_own_pset_sigs(fingerprint, pset),
        ),
{
    let good = adds_own_pset_sigs(fingerprint, pset);
    let next = elements::then_sign_pset(label, fingerprint, pset);
    let middle = |d: Result<PolicyView, Pkcs11ErrorView>| true;
    let nothing = Seq::<Option<PartialSigView>>::empty();
    lemma_filled_pset(fingerprint, pset, nothing);
    run::lemma_always_all(policy::policy_loading(label), middle);
    assert forall|d: Result<PolicyView, Pkcs11ErrorView>| middle(d) implies run::always(
        #[trigger] next(d),
        good,
    ) by {
        if let Ok(p) = d {
            if let Ok(tx) = pset.unsigned_tx {
                let max = p.max_signatures_per_hour;
                let sign = elements::then_sign_inputs(label, fingerprint, max, tx, pset);
                let anything = |c: Result<(), Pkcs11ErrorView>| true;
                run::lemma_always_all(policy::rate_checking(label, max), anything);
                lemma_pset_inputs_add_own_sigs(label, fingerprint, max, tx, pset, nothing);
                assert forall|c: Result<(), Pkcs11ErrorView>| anything(c) implies run::always(
                    #[trigger] sign(c),
                    good,
                ) by {}
                run::lemma_always_bind(policy::rate_checking(label, max), sign, anything, good);
                if !elements::any_own(fingerprint, pset.inputs) {
                    lemma_none_own(fingerprint, pset.inputs, pset.inputs.len());
                }
            }
        }
    }
    run::lemma_always_bind(policy::policy_loading(label), next, middle, good);
}

/// Whether two rounds of signing signed the same inputs with the same keys.
pub open spec fn same_keys(
    first: Seq<Option<PartialSigView>>,
    second: Seq<Option<PartialSigView>>,
) -> bool {
    &&& first.len() == second.len()
    &&& forall|i: int|
        #![trigger first[i], second[i]]
        0 <= i < first.len() ==> match (first[i], second[i]) {
            (Some(a), Some(b)) => a.key == b.key,
            (None, None) => true,
            _ => false,
        }
}

/// Signing a transaction again puts the new signatures in place of the old ones: there
/// is one signature by a key, not two.
pub proof fn law_pset_signed_twice(
    pset: PsetView,
    first: Seq<Option<PartialSigView>>,
    second: Seq<Option<PartialSigView>>,
)
    requires
        same_keys(first, second),
    ensures
        elements::with_pset_sigs(elements::with_pset_sigs(pset, first), second)
            == elements::with_pset_sigs(pset, second),
{
    let once = elements::with_pset_sigs(pset, first);
    let twice = elements::with_pset_sigs(once, second);
    assert forall|i: int| 0 <= i < pset.inputs.len() implies #[trigger] twice.inputs[i]
        == elements::with_pset_sigs(pset, second).inputs[i] by {
        if i < first.len() {
            let a = first[i];
            let b = second[i];
            if let (Some(a), Some(b)) = (a, b) {
                lemma_sig_twice(pset.inputs[i].partial_sigs, a, b);
            }
        }
    }
    assert(twice.inputs =~= elements::with_pset_sigs(pset, second).inputs);
}

proof fn lemma_sig_twice(
    list: Seq<PartialSigView>,
    first: PartialSigView,
    second: PartialSigView,
)
    requires
        first.key == second.key,
    ensures
        psbt::with_sig(psbt::with_sig(list, first), second) == psbt::with_sig(list, second),
    decreases list.len(),
{
    reveal_with_fuel(psbt::with_sig, 2);
    if list.len() != 0 && list[0].key != first.key {
        lemma_sig_twice(list.drop_first(), first, second);
        assert(psbt::with_sig(list, first).drop_first() =~= psbt::with_sig(
            list.drop_first(),
            first,
        ));
    }
}

// ---------------------------------------------------------------------------
// ECDSA signatures
// ---------------------------------------------------------------------------

/// Whether a result, if it is a signature, is two numbers below the group order
/// of which the second is in the lower half.
pub open spec fn low() -> spec_fn(Result<Seq<u8>, Pkcs11ErrorView>) -> bool {
    |d: Result<Seq<u8>, Pkcs11ErrorView>|
        d matches Ok(sig) ==> ecdsa::valid_compact(sig) && ecdsa::be_value(sig.skip(32))
            <= ecdsa::group_order() / 2
}

/// Whatever the token gives, a signature that the library takes from it has its
/// second number in the lower half, as nodes demand.
pub proof fn law_signatures_are_low(key: ObjectHandle, digest: Seq<u8>)
    ensures
        run::always(ecdsa::low_s_signing(key, digest), low()),
{
    let prog = ecdsa::low_s_signing(key, digest);
    assert forall|r: ReplyView| run::always(#[trigger] (prog->Ask_1)(r), low()) by {
        if let ReplyView::Signature(Ok(raw)) = r {
            if ecdsa::valid_compact(raw) {
                ecdsa::law_low_s(raw);
            }
        }
    }
}

// ---------------------------------------------------------------------------
// What signing leaves on the token
// ---------------------------------------------------------------------------

/// Whether this is the token with the key to sign with: the federation key, or
/// one that was derived since.
spec fn ready(federation: ObjectHandle, used: ObjectHandle, start: Objects, now: Objects) -> bool {
    ||| used == federation && now == start
    ||| !start.dom().contains(used) && now.dom().contains(used) && world::all_kept(start, now)
        && world::adds_unlabelled(start, now)
}

proof fn lemma_drop_child(
    w: World,
    federation: ObjectHandle,
    used: ObjectHandle,
    result: Result<InputSigsView, Seq<char>>,
    start: Objects,
    before: Objects,
    out: Result<InputSigsView, Seq<char>>,
    after: Objects,
)
    requires
        w.runs(signing::drop_child(federation, used, result), before, out, after),
        ready(federation, used, start, before),
    ensures
        world::all_kept(start, after),
        world::adds_unlabelled(start, after),
        start.dom().contains(federation) && !w.may_refuse && (used == federation || world::adds(
            start,
            used,
            before,
        )) ==> after == start,
{
    if used != federation {
        let (r, mid) = world::lemma_step(
            w,
            signing::drop_child(federation, used, result),
            before,
            out,
            after,
        );
        if let ReplyView::Unit(Ok(_)) = r {
            if world::adds(start, used, before) {
                assert(after =~= start);
            }
        }
    }
}

proof fn lemma_ecdsa_with(
    w: World,
    federation: ObjectHandle,
    plan: EcdsaPlanView,
    used: ObjectHandle,
    start: Objects,
    before: Objects,
    out: Result<InputSigsView, Seq<char>>,
    after: Objects,
)
    requires
        w.runs(signing::ecdsa_with(federation, plan, used), before, out, after),
        ready(federation, used, start, before),
    ensures
        world::all_kept(start, after),
        world::adds_unlabelled(start, after),
        start.dom().contains(federation) && !w.may_refuse && (used == federation || world::adds(
            start,
            used,
            before,
        )) ==> after == start,
{
    let (d, mid) = world::lemma_runs_bind(
        w,
        ecdsa::low_s_signing(used, plan.digest),
        signing::then_drop_child(federation, plan, used),
        before,
        out,
        after,
    );
    let (r, mid2) = world::lemma_step(
        w,
        ecdsa::low_s_signing(used, plan.digest),
        before,
        d,
        mid,
    );
    lemma_drop_child(
        w,
        federation,
        used,
        signing::ecdsa_outcome(plan, d),
        start,
        mid,
        out,
        after,
    );
}

proof fn lemma_leaf_signing(
    w: World,
    label: Seq<char>,
    federation: ObjectHandle,
    plan: TaprootPlanView,
    used: ObjectHandle,
    done: Seq<TapScriptSigView>,
    start: Objects,
    before: Objects,
    out: Result<InputSigsView, Seq<char>>,
    after: Objects,
)
    requires
        w.runs(signing::leaf_signing(label, federation, plan, used, done), before, out, after),
        ready(federation, used, start, before),
    ensures
        world::all_kept(start, after),
        world::adds_unlabelled(start, after),
        start.dom().contains(federation) && !w.may_refuse && (used == federation || world::adds(
            start,
            used,
            before,
        )) ==> after == start,
    decreases plan.leaves.len() - done.len(),
{
    let prog = signing::leaf_signing(label, federation, plan, used, done);
    if done.len() >= plan.leaves.len() {
        lemma_drop_child(
            w,
            federation,
            used,
            Ok(InputSigsView::Taproot(done)),
            start,
            before,
            out,
            after,
        );
    } else {
        let (r, mid) = world::lemma_step(w, prog, before, out, after);
        match r {
            ReplyView::Schnorr(Ok(signature)) => {
                let leaf = plan.leaves[done.len() as int];
                let more = done.push(
                    TapScriptSigView {
                        key: plan.key,
                        leaf_hash: leaf.leaf_hash,
                        signature,
                        sighash_type: plan.sighash_type,
                    },
                );
                lemma_leaf_signing(
                    w,
                    label,
                    federation,
                    plan,
                    used,
                    more,
                    start,
                    mid,
                    out,
                    after,
                );
            },
            ReplyView::Schnorr(Err(e)) => {
                lemma_drop_child(
                    w,
                    federation,
                    used,
                    Err(e.text()),
                    start,
                    mid,
                    out,
                    after,
                );
            },
            _ => {},
        }
    }
}

/// How many steps it is from the federation key to the key that is to sign.
pub open spec fn steps(plan: InputPlanView) -> nat {
    match plan {
        InputPlanView::Ecdsa(p) => p.relative.len(),
        InputPlanView::Taproot(p) => p.relative.len(),
        _ => 0,
    }
}

/// Signing an input leaves what was on the token as it was, and adds nothing with a
/// label. The key that is
/// derived for the input is destroyed again, unless the token refuses to; where
/// it is one step away, the token is then as before. Keys in between are gone
/// only with the session.
pub proof fn law_signing_leaves_no_key(
    w: World,
    label: Seq<char>,
    federation: ObjectHandle,
    plan: InputPlanView,
    before: Objects,
    out: Result<InputSigsView, Seq<char>>,
    after: Objects,
)
    requires
        w.runs(signing::plan_signing(label, federation, plan), before, out, after),
    ensures
        world::all_kept(before, after),
        world::adds_unlabelled(before, after),
        before.dom().contains(federation) && !w.may_refuse && steps(plan) <= 1 ==> after == before,
{
    match plan {
        InputPlanView::Ecdsa(p) => {
            if p.relative.len() == 0 {
                lemma_ecdsa_with(w, federation, p, federation, before, before, out, after);
            } else {
                let (r, mid) = world::lemma_step(
                    w,
                    signing::ecdsa_signing(federation, p),
                    before,
                    out,
                    after,
                );
                if let ReplyView::Derived(Ok(used)) = r {
                    lemma_ecdsa_with(w, federation, p, used, before, mid, out, after);
                }
            }
        },
        InputPlanView::Taproot(p) => {
            if p.leaves.len() != 0 {
                if p.relative.len() == 0 {
                    lemma_leaf_signing(
                        w,
                        label,
                        federation,
                        p,
                        federation,
                        Seq::empty(),
                        before,
                        before,
                        out,
                        after,
                    );
                } else {
                    let (r, mid) = world::lemma_step(
                        w,
                        signing::taproot_signing(label, federation, p),
                        before,
                        out,
                        after,
                    );
                    if let ReplyView::Derived(Ok(used)) = r {
                        lemma_leaf_signing(
                            w,
                            label,
                            federation,
                            p,
                            used,
                            Seq::empty(),
                            before,
                            mid,
                            out,
                            after,
                        );
                    }
                }
            }
        },
        _ => {},
    }
}

/// Whatever the token answers to the request for a signature, the key that was
/// derived for it is destroyed next.
pub proof fn law_derived_key_is_destroyed(
    federation: ObjectHandle,
    plan: EcdsaPlanView,
    used: ObjectHandle,
    signature: Result<Seq<u8>, TokenErrorView>,
)
    requires
        plan.relative.len() > 0,
        used != federation,
    ensures
        ({
            let replies = seq![
                ReplyView::Derived(Ok(used)),
                ReplyView::Signature(signature),
            ];
            let next = run::behind(signing::ecdsa_signing(federation, plan), replies);
            next is Ask && next->Ask_0 == RequestView::DestroyObject(used)
        }),
{
    let derived = ReplyView::Derived(Ok(used));
    let signed = ReplyView::Signature(signature);
    let replies = seq![derived, signed];
    let prog = signing::ecdsa_signing(federation, plan);
    let with = signing::ecdsa_with(federation, plan, used);
    assert((prog->Ask_1)(derived) == with);
    assert(replies.drop_first() =~= seq![signed]);
    assert(seq![signed].drop_first() =~= Seq::empty());
    reveal_with_fuel(run::behind, 3);
    reveal_with_fuel(Prog::bind, 2);
}

/// The attributes that single out a signer's counter.
pub open spec fn counter_query(label: Seq<char>) -> Seq<AttributeView> {
    store::query(ObjectClass::Data, key_ops::namespaced(label, "sigrate"@))
}

proof fn lemma_recording_keeps(
    w: World,
    label: Seq<char>,
    max: Option<u32>,
    before: Objects,
    out: Result<(), Pkcs11ErrorView>,
    after: Objects,
)
    requires
        w.runs(policy::rate_recording(label, max), before, out, after),
    ensures
        world::kept(before, after, counter_query(label)),
{
    if let Some(max) = max {
        let name = key_ops::namespaced(label, "sigrate"@);
        let (d, mid) = world::lemma_runs_bind(
            w,
            policy::sigrate_loading(label),
            policy::then_count_one(label, max),
            before,
            out,
            after,
        );
        law_reading_only_reads(label, None, arbitrary(), arbitrary());
        lemma_readers_keep(w, policy::sigrate_loading(label), before, d, mid);
        if let Ok(times) = d {
            let (t, mid3) = world::lemma_step(
                w,
                policy::count_one(label, times, max),
                mid,
                out,
                after,
            );
            let now = w.now;
            if policy::recent(times, now).len() < max {
                let new = policy::recent(times, now).push(now);
                let encode = RequestView::EncodeSigRate(new);
                let (k, mid4) = world::lemma_runs_bind(
                    w,
                    store::replace_data(name, encode),
                    store::then_forget(),
                    mid3,
                    out,
                    after,
                );
                stored::law_replace_leaves_one(w, name, encode, mid3, k, mid4);
            }
        }
    }
}

/// What has nothing signed and changes nothing leaves the token as it was.
proof fn lemma_readers_keep<A>(w: World, prog: Prog<A>, before: Objects, out: A, after: Objects)
    requires
        w.runs(prog, before, out, after),
        run::never(prog, acts()),
    ensures
        after == before,
    decreases prog,
{
    if let Prog::Ask(q, next) = prog {
        let (r, mid) = world::lemma_step(w, prog, before, out, after);
        assert(!(acts())(q));
        lemma_readers_keep(w, next(r), mid, out, after);
    }
}

proof fn lemma_finishing_keeps(
    w: World,
    label: Seq<char>,
    max: Option<u32>,
    psbt: PsbtView,
    done: Seq<InputSigsView>,
    outcome: Result<(), Seq<char>>,
    before: Objects,
    out: Signed,
    after: Objects,
)
    requires
        w.runs(transaction::finishing(label, max, psbt, done, outcome), before, out, after),
    ensures
        world::kept(before, after, counter_query(label)),
{
    if transaction::any_signed(done) {
        let (d, mid) = world::lemma_runs_bind(
            w,
            policy::rate_recording(label, max),
            transaction::then_hand_back(psbt, done, outcome),
            before,
            out,
            after,
        );
        lemma_recording_keeps(w, label, max, before, d, mid);
    }
}

proof fn lemma_inputs_keep(
    w: World,
    key: SigningKeyView,
    max: Option<u32>,
    psbt: PsbtView,
    done: Seq<InputSigsView>,
    before: Objects,
    out: Signed,
    after: Objects,
)
    requires
        w.runs(transaction::inputs_signing(key, max, psbt, done), before, out, after),
    ensures
        world::kept(before, after, counter_query(key.label)),
    decreases psbt.inputs.len() - done.len(),
{
    if done.len() >= psbt.inputs.len() {
        lemma_finishing_keeps(w, key.label, max, psbt, done, Ok(()), before, out, after);
    } else {
        let plan = signing::input_plan(key, psbt, done.len());
        let (d, mid) = world::lemma_runs_bind(
            w,
            signing::plan_signing(key.label, key.handle, plan),
            transaction::then_next_input(key, max, psbt, done),
            before,
            out,
            after,
        );
        law_signing_leaves_no_key(w, key.label, key.handle, plan, before, d, mid);
        match d {
            Ok(sigs) => {
                lemma_inputs_keep(w, key, max, psbt, done.push(sigs), mid, out, after);
            },
            Err(t) => {
                lemma_finishing_keeps(w, key.label, max, psbt, done, Err(t), mid, out, after);
            },
        }
    }
}

/// Signing a transaction leaves every object on the token as it was, but for the
/// signer's own counter.
pub proof fn law_signing_changes_the_counter_only(
    w: World,
    key: SigningKeyView,
    psbt: PsbtView,
    before: Objects,
    out: Signed,
    after: Objects,
)
    requires
        w.runs(transaction::transaction_signing(key, psbt), before, out, after),
    ensures
        world::kept(before, after, counter_query(key.label)),
{
    let (d, mid) = world::lemma_runs_bind(
        w,
        policy::policy_loading(key.label),
        transaction::then_check(key, psbt),
        before,
        out,
        after,
    );
    law_reading_only_reads(key.label, None, arbitrary(), arbitrary());
    lemma_readers_keep(w, policy::policy_loading(key.label), before, d, mid);
    if let Ok(p) = d {
        if p.check(psbt.unsigned_tx.output, key.network) is Ok && signing::any_ours(
            key.fingerprint,
            psbt.inputs,
        ) {
            let max = p.max_signatures_per_hour;
            let checking = policy::rate_checking(key.label, max);
            let (c, mid2) = world::lemma_runs_bind(
                w,
                checking,
                transaction::then_sign(key, max, psbt),
                mid,
                out,
                after,
            );
            law_reading_only_reads(key.label, max, arbitrary(), arbitrary());
            lemma_readers_keep(w, checking, mid, c, mid2);
            if c is Ok {
                lemma_inputs_keep(w, key, max, psbt, Seq::empty(), mid2, out, after);
            }
        }
    }
}

/// What signs an input leaves the counter as it was.
proof fn lemma_times_stay(
    w: World,
    label: Seq<char>,
    times: Seq<u64>,
    before: Objects,
    after: Objects,
)
    requires
        stored::holds_times(w, before, label, times),
        world::all_kept(before, after),
        world::adds_unlabelled(before, after),
    ensures
        stored::holds_times(w, after, label, times),
{
    let query = counter_query(label);
    keys::lemma_labelled_stay(ObjectClass::Data, label, "sigrate"@, before, after);
    assert(forall|h: ObjectHandle| #[trigger]
        world::holds(after, h, query) <==> world::holds(before, h, query));
    if !(world::none_holds(before, query) && times.len() == 0) {
        let name = key_ops::namespaced(label, "sigrate"@);
        let object = store::data_object(name, (w.times_bytes)(times));
        let h = choose|h: ObjectHandle| #[trigger]
            world::only(before, query, h) && before[h] == object;
        assert(world::holds(before, h, query));
        assert(world::only(after, query, h)) by {
            assert forall|k: ObjectHandle| #[trigger] world::holds(after, k, query) <==> k == h by {
                assert(world::holds(before, k, query) <==> k == h);
            }
        }
        assert(after[h] == before[h]);
    } else {
        assert(world::none_holds(after, query)) by {
            assert forall|k: ObjectHandle| !#[trigger] world::holds(after, k, query) by {
                assert(!world::holds(before, k, query));
            }
        }
    }
}

proof fn lemma_inputs_counted(
    w: World,
    key: SigningKeyView,
    max: u32,
    times: Seq<u64>,
    psbt: PsbtView,
    done: Seq<InputSigsView>,
    before: Objects,
    out: Signed,
    after: Objects,
)
    requires
        w.faithful(),
        stored::holds_times(w, before, key.label, times),
        w.runs(transaction::inputs_signing(key, Some(max), psbt, done), before, out, after),
        out.0 != psbt,
    ensures
        policy::recent(times, w.now).len() < max,
        stored::holds_times(w, after, key.label, policy::recent(times, w.now).push(w.now)),
    decreases psbt.inputs.len() - done.len(),
{
    if done.len() >= psbt.inputs.len() {
        lemma_finishing_counted(w, key.label, max, times, psbt, done, Ok(()), before, out, after);
    } else {
        let plan = signing::input_plan(key, psbt, done.len());
        let (d, mid) = world::lemma_runs_bind(
            w,
            signing::plan_signing(key.label, key.handle, plan),
            transaction::then_next_input(key, Some(max), psbt, done),
            before,
            out,
            after,
        );
        law_signing_leaves_no_key(w, key.label, key.handle, plan, before, d, mid);
        lemma_times_stay(w, key.label, times, before, mid);
        match d {
            Ok(sigs) => {
                lemma_inputs_counted(w, key, max, times, psbt, done.push(sigs), mid, out, after);
            },
            Err(t) => {
                lemma_finishing_counted(
                    w,
                    key.label,
                    max,
                    times,
                    psbt,
                    done,
                    Err(t),
                    mid,
                    out,
                    after,
                );
            },
        }
    }
}

proof fn lemma_finishing_counted(
    w: World,
    label: Seq<char>,
    max: u32,
    times: Seq<u64>,
    psbt: PsbtView,
    done: Seq<InputSigsView>,
    outcome: Result<(), Seq<char>>,
    before: Objects,
    out: Signed,
    after: Objects,
)
    requires
        w.faithful(),
        stored::holds_times(w, before, label, times),
        w.runs(
            transaction::finishing(label, Some(max), psbt, done, outcome),
            before,
            out,
            after,
        ),
        out.0 != psbt,
    ensures
        policy::recent(times, w.now).len() < max,
        stored::holds_times(w, after, label, policy::recent(times, w.now).push(w.now)),
{
    let (d, mid) = world::lemma_runs_bind(
        w,
        policy::rate_recording(label, Some(max)),
        transaction::then_hand_back(psbt, done, outcome),
        before,
        out,
        after,
    );
    stored::law_ceiling_holds(w, label, max, times, before, d, mid);
}

/// What is signed is counted: where anything comes back in the transaction, whether
/// or not all went well, there was room under the ceiling, and the counter holds the
/// time behind those of the hour before.
pub proof fn law_signed_is_counted(
    w: World,
    key: SigningKeyView,
    psbt: PsbtView,
    p: PolicyView,
    max: u32,
    times: Seq<u64>,
    before: Objects,
    out: Signed,
    after: Objects,
)
    requires
        w.faithful(),
        stored::holds_policy(w, before, key.label, p),
        p.max_signatures_per_hour == Some(max),
        stored::holds_times(w, before, key.label, times),
        w.runs(transaction::transaction_signing(key, psbt), before, out, after),
        out.0 != psbt,
    ensures
        policy::recent(times, w.now).len() < max,
        stored::holds_times(w, after, key.label, policy::recent(times, w.now).push(w.now)),
{
    let (d, mid) = world::lemma_runs_bind(
        w,
        policy::policy_loading(key.label),
        transaction::then_check(key, psbt),
        before,
        out,
        after,
    );
    stored::lemma_load_policy(w, key.label, p, before, d, mid);
    let (c, mid2) = world::lemma_runs_bind(
        w,
        policy::rate_checking(key.label, Some(max)),
        transaction::then_sign(key, Some(max), psbt),
        before,
        out,
        after,
    );
    stored::lemma_rate_checking(w, key.label, max, times, before, c, mid2);
    lemma_inputs_counted(w, key, max, times, psbt, Seq::empty(), before, out, after);
}

/// The same of an Elements transaction: with the ceiling reached, whatever the token
/// answers, signing one with an input of this signer's fails, and leaves the
/// transaction and the token as they were.
pub proof fn law_no_pset_signature_beyond_the_ceiling(
    w: World,
    label: Seq<char>,
    fingerprint: Seq<u8>,
    pset: PsetView,
    p: PolicyView,
    max: u32,
    times: Seq<u64>,
    before: Objects,
    out: SignedPset,
    after: Objects,
)
    requires
        w.faithful(),
        stored::holds_policy(w, before, label, p),
        p.max_signatures_per_hour == Some(max),
        stored::holds_times(w, before, label, times),
        policy::recent(times, w.now).len() >= max,
        elements::any_own(fingerprint, pset.inputs),
        w.runs(elements::pset_signing(label, fingerprint, pset), before, out, after),
    ensures
        out.0 == pset,
        out.1 is Err,
        after == before,
{
    let (d, mid) = world::lemma_runs_bind(
        w,
        policy::policy_loading(label),
        elements::then_sign_pset(label, fingerprint, pset),
        before,
        out,
        after,
    );
    stored::lemma_load_policy(w, label, p, before, d, mid);
    if d is Ok {
        if let Ok(tx) = pset.unsigned_tx {
            let (c, mid2) = world::lemma_runs_bind(
                w,
                policy::rate_checking(label, Some(max)),
                elements::then_sign_inputs(label, fingerprint, Some(max), tx, pset),
                before,
                out,
                after,
            );
            stored::lemma_rate_checking(w, label, max, times, before, c, mid2);
        }
    }
}

proof fn lemma_pset_finishing_counted(
    w: World,
    label: Seq<char>,
    max: u32,
    times: Seq<u64>,
    pset: PsetView,
    done: Seq<Option<PartialSigView>>,
    outcome: Result<(), PsetErrorView>,
    before: Objects,
    out: SignedPset,
    after: Objects,
)
    requires
        w.faithful(),
        stored::holds_times(w, before, label, times),
        w.runs(
            elements::pset_finishing(label, Some(max), pset, done, outcome),
            before,
            out,
            after,
        ),
        out.0 != pset,
    ensures
        policy::recent(times, w.now).len() < max,
        stored::holds_times(w, after, label, policy::recent(times, w.now).push(w.now)),
{
    let (d, mid) = world::lemma_runs_bind(
        w,
        policy::rate_recording(label, Some(max)),
        elements::then_hand_back_pset(pset, done, outcome),
        before,
        out,
        after,
    );
    stored::law_ceiling_holds(w, label, max, times, before, d, mid);
}

proof fn lemma_pset_inputs_counted(
    w: World,
    label: Seq<char>,
    fingerprint: Seq<u8>,
    max: u32,
    times: Seq<u64>,
    tx: ElementsTxView,
    pset: PsetView,
    done: Seq<Option<PartialSigView>>,
    before: Objects,
    out: SignedPset,
    after: Objects,
)
    requires
        w.faithful(),
        stored::holds_times(w, before, label, times),
        w.runs(
            elements::pset_inputs_signing(label, fingerprint, Some(max), tx, pset, done),
            before,
            out,
            after,
        ),
        out.0 != pset,
    ensures
        policy::recent(times, w.now).len() < max,
        stored::holds_times(w, after, label, policy::recent(times, w.now).push(w.now)),
    decreases pset.inputs.len() - done.len(),
{
    let prog = elements::pset_inputs_signing(label, fingerprint, Some(max), tx, pset, done);
    if done.len() >= pset.inputs.len() {
        lemma_pset_finishing_counted(w, label, max, times, pset, done, Ok(()), before, out, after);
    } else {
        match elements::pset_plan(tx, pset.inputs[done.len() as int], done.len(), fingerprint) {
            PsetPlanView::Skip => {
                lemma_pset_inputs_counted(
                    w,
                    label,
                    fingerprint,
                    max,
                    times,
                    tx,
                    pset,
                    done.push(None),
                    before,
                    out,
                    after,
                );
            },
            PsetPlanView::Stop(e) => {
                lemma_pset_finishing_counted(
                    w,
                    label,
                    max,
                    times,
                    pset,
                    done,
                    Err(e),
                    before,
                    out,
                    after,
                );
            },
            PsetPlanView::Sign { key, path: _, digest: _, sighash_type } => {
                let (r, mid) = world::lemma_step(w, prog, before, out, after);
                lemma_times_stay(w, label, times, before, mid);
                match r {
                    ReplyView::StrategySignature(Ok(compact)) => {
                        let sig = elements::pset_sig(key, compact, sighash_type);
                        lemma_pset_inputs_counted(
                            w,
                            label,
                            fingerprint,
                            max,
                            times,
                            tx,
                            pset,
                            done.push(Some(sig)),
                            mid,
                            out,
                            after,
                        );
                    },
                    ReplyView::StrategySignature(Err(e)) => {
                        lemma_pset_finishing_counted(
                            w,
                            label,
                            max,
                            times,
                            pset,
                            done,
                            Err(PsetErrorView::SignerBackend(e.text())),
                            mid,
                            out,
                            after,
                        );
                    },
                    _ => {},
                }
            },
        }
    }
}

/// What is signed of an Elements transaction is counted too: where anything comes back
/// in it, whether or not all went well, there was room under the ceiling, and the
/// counter holds the time behind those of the hour before.
pub proof fn law_signed_pset_is_counted(
    w: World,
    label: Seq<char>,
    fingerprint: Seq<u8>,
    pset: PsetView,
    p: PolicyView,
    max: u32,
    times: Seq<u64>,
    before: Objects,
    out: SignedPset,
    after: Objects,
)
    requires
        w.faithful(),
        stored::holds_policy(w, before, label, p),
        p.max_signatures_per_hour == Some(max),
        stored::holds_times(w, before, label, times),
        w.runs(elements::pset_signing(label, fingerprint, pset), before, out, after),
        out.0 != pset,
    ensures
        policy::recent(times, w.now).len() < max,
        stored::holds_times(w, after, label, policy::recent(times, w.now).push(w.now)),
{
    let (d, mid) = world::lemma_runs_bind(
        w,
        policy::policy_loading(label),
        elements::then_sign_pset(label, fingerprint, pset),
        before,
        out,
        after,
    );
    stored::lemma_load_policy(w, label, p, before, d, mid);
    let tx = pset.unsigned_tx->Ok_0;
    let (c, mid2) = world::lemma_runs_bind(
        w,
        policy::rate_checking(label, Some(max)),
        elements::then_sign_inputs(label, fingerprint, Some(max), tx, pset),
        before,
        out,
        after,
    );
    stored::lemma_rate_checking(w, label, max, times, before, c, mid2);
    lemma_pset_inputs_counted(
        w,
        label,
        fingerprint,
        max,
        times,
        tx,
        pset,
        Seq::empty(),
        before,
        out,
        after,
    );
}

} // verus!
