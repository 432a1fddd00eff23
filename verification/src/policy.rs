//! The policy that a token holds, and the count of what it has signed.
//!
//! Both are data objects on the token of the signing key, under labels in the
//! namespace `emvault/v1/{label}/`.
use crate::bip32::{same_bytes, Network};
use crate::error::{Pkcs11Error, Pkcs11ErrorView};
use crate::key_ops;
use crate::outside;
use crate::program;
use crate::program::{Machine, Operation, Prog, Reply, ReplyView, Request, RequestView, Step};
use crate::psbt;
use crate::psbt::{Psbt, TxOut, TxOutView};
use crate::store;
use crate::store::{ReadData, ReplaceData, WriteData};
use crate::text;
use crate::token::ObjectHandle;
use vstd::prelude::*;
use vstd::string::*;

verus! {

// ---------------------------------------------------------------------------
// The policy
// ---------------------------------------------------------------------------

/// A policy kept on the token, checked before anything is signed.
#[derive(Debug, PartialEq, Eq)]
pub struct MinimalHsmPolicy {
    /// The most that the outputs of one transaction may add up to, in satoshi.
    pub per_transaction_limit: Option<u64>,
    /// How many signatures the key may give in sixty minutes.
    pub max_signatures_per_hour: Option<u32>,
    /// If set, the addresses that outputs may pay to.
    pub destination_whitelist: Option<Vec<String>>,
}

/// What a [`MinimalHsmPolicy`] says.
pub struct PolicyView {
    pub per_transaction_limit: Option<u64>,
    pub max_signatures_per_hour: Option<u32>,
    pub destination_whitelist: Option<Seq<Seq<char>>>,
}

impl View for MinimalHsmPolicy {
    type V = PolicyView;

    open spec fn view(&self) -> PolicyView {
        PolicyView {
            per_transaction_limit: self.per_transaction_limit,
            max_signatures_per_hour: self.max_signatures_per_hour,
            destination_whitelist: match self.destination_whitelist {
                Some(list) => Some(text::texts(list@)),
                None => None,
            },
        }
    }
}

/// What the outputs add up to.
pub open spec fn total_out(outs: Seq<TxOutView>) -> nat
    decreases outs.len(),
{
    if outs.len() == 0 {
        0
    } else {
        total_out(outs.drop_last()) + outs.last().value as nat
    }
}

/// A total in words. One that is no amount is above the largest amount.
pub open spec fn total_words(total: nat) -> Seq<char> {
    if total <= u64::MAX {
        outside::amount_words(total as u64)
    } else {
        "above "@ + outside::amount_words(u64::MAX)
    }
}

proof fn lemma_total_out_grows(outs: Seq<TxOutView>, i: int)
    requires
        0 <= i <= outs.len(),
    ensures
        total_out(outs.take(i)) <= total_out(outs),
    decreases outs.len(),
{
    if i == outs.len() {
        assert(outs.take(i) =~= outs);
    } else {
        assert(outs.drop_last().take(i) =~= outs.take(i));
        lemma_total_out_grows(outs.drop_last(), i);
    }
}

/// The scripts that a list of addresses allows on a network. The first address
/// that is not of the network is an error.
pub open spec fn allowed_scripts(list: Seq<Seq<char>>, network: Network) -> Result<
    Seq<Seq<u8>>,
    Pkcs11ErrorView,
>
    decreases list.len(),
{
    if list.len() == 0 {
        Ok(Seq::empty())
    } else {
        match allowed_scripts(list.drop_last(), network) {
            Err(e) => Err(e),
            Ok(scripts) => match outside::address_script(list.last(), network) {
                Ok(script) => Ok(scripts.push(script)),
                Err(e) => Err(
                    Pkcs11ErrorView::Bitcoin(
                        "whitelist address not on network "@ + network.name_view() + ": "@ + e,
                    ),
                ),
            },
        }
    }
}

/// The script of the first output that pays elsewhere.
pub open spec fn first_elsewhere(outs: Seq<TxOutView>, allowed: Seq<Seq<u8>>) -> Option<Seq<u8>>
    decreases outs.len(),
{
    if outs.len() == 0 {
        None
    } else if !allowed.contains(outs[0].script_pubkey) {
        Some(outs[0].script_pubkey)
    } else {
        first_elsewhere(outs.drop_first(), allowed)
    }
}

impl PolicyView {
    /// The policy that forbids nothing.
    pub open spec fn permissive() -> PolicyView {
        PolicyView {
            per_transaction_limit: None,
            max_signatures_per_hour: None,
            destination_whitelist: None,
        }
    }

    /// What the limit says to outputs.
    pub open spec fn check_limit(self, outs: Seq<TxOutView>) -> Result<(), Pkcs11ErrorView> {
        match self.per_transaction_limit {
            Some(limit) if total_out(outs) > limit => Err(
                Pkcs11ErrorView::PolicyViolation(
                    "PSBT output total "@ + total_words(total_out(outs))
                        + " exceeds per-transaction limit "@ + outside::amount_words(limit),
                ),
            ),
            _ => Ok(()),
        }
    }

    /// What the list of destinations says to outputs.
    pub open spec fn check_destinations(self, outs: Seq<TxOutView>, network: Network) -> Result<
        (),
        Pkcs11ErrorView,
    > {
        match self.destination_whitelist {
            None => Ok(()),
            Some(list) => match allowed_scripts(list, network) {
                Err(e) => Err(e),
                Ok(allowed) => match first_elsewhere(outs, allowed) {
                    None => Ok(()),
                    Some(script) => Err(
                        Pkcs11ErrorView::PolicyViolation(
                            "output script "@ + outside::script_words(script)
                                + " not in destination whitelist"@,
                        ),
                    ),
                },
            },
        }
    }

    /// What the policy says to a transaction with these outputs: first the
    /// limit, then the destinations.
    pub open spec fn check(self, outs: Seq<TxOutView>, network: Network) -> Result<
        (),
        Pkcs11ErrorView,
    > {
        match self.check_limit(outs) {
            Err(e) => Err(e),
            Ok(_) => self.check_destinations(outs, network),
        }
    }
}

/// What the outputs add up to, if that is an amount.
fn sum_outputs(outs: &Vec<TxOut>) -> (total: Option<u64>)
    ensures
        match total {
            Some(t) => t == total_out(psbt::outputs(outs@)),
            None => total_out(psbt::outputs(outs@)) > u64::MAX,
        },
{
    let n: usize = outs.len();
    let mut total: u64 = 0;
    let mut i: usize = 0;
    let ghost all = psbt::outputs(outs@);
    while i < n
        invariant
            i <= n,
            n == outs@.len(),
            all == psbt::outputs(outs@),
            total == total_out(all.take(i as int)),
        decreases n - i,
    {
        proof {
            lemma_total_out_grows(all, i + 1);
            assert(all.take(i + 1).drop_last() =~= all.take(i as int));
            assert(all.take(i + 1).last() == outs@[i as int]@);
        }
        match total.checked_add(outs[i].value) {
            Some(t) => {
                total = t;
            },
            None => {
                return None;
            },
        }
        i = i + 1;
    }
    assert(all.take(n as int) =~= all);
    Some(total)
}

/// What outputs add up to, in words.
fn total_text(total: Option<u64>) -> (words: String)
    ensures
        total matches Some(t) ==> words@ == total_words(t as nat),
        total is None ==> forall|t: nat| t > u64::MAX ==> words@ == #[trigger] total_words(t),
{
    match total {
        Some(t) => outside::amount_text(t),
        None => text::join2("above ", outside::amount_text(u64::MAX).as_str()),
    }
}

/// What a list of scripts says.
spec fn scripts(list: Seq<Vec<u8>>) -> Seq<Seq<u8>> {
    list.map_values(|s: Vec<u8>| s@)
}

fn resolve_scripts(list: &Vec<String>, network: Network) -> (res: Result<
    Vec<Vec<u8>>,
    Pkcs11Error,
>)
    ensures
        match res {
            Ok(allowed) => allowed_scripts(text::texts(list@), network) == Ok::<
                Seq<Seq<u8>>,
                Pkcs11ErrorView,
            >(scripts(allowed@)),
            Err(e) => allowed_scripts(text::texts(list@), network) == Err::<
                Seq<Seq<u8>>,
                Pkcs11ErrorView,
            >(e@),
        },
{
    let n: usize = list.len();
    let mut allowed: Vec<Vec<u8>> = Vec::new();
    let mut i: usize = 0;
    let ghost all = text::texts(list@);
    assert(scripts(allowed@) =~= Seq::<Seq<u8>>::empty());
    while i < n
        invariant
            i <= n,
            n == list@.len(),
            all == text::texts(list@),
            allowed_scripts(all.take(i as int), network) == Ok::<Seq<Seq<u8>>, Pkcs11ErrorView>(
                scripts(allowed@),
            ),
        decreases n - i,
    {
        proof {
            assert(all.take(i + 1).drop_last() =~= all.take(i as int));
            assert(all.take(i + 1).last() == list@[i as int]@);
        }
        match outside::script_of_address(list[i].as_str(), network) {
            Ok(script) => {
                let ghost before = scripts(allowed@);
                allowed.push(script);
                assert(scripts(allowed@) =~= before.push(script@));
            },
            Err(e) => {
                let words = text::join4(
                    "whitelist address not on network ",
                    network.name(),
                    ": ",
                    e.as_str(),
                );
                proof {
                    lemma_refused_stays(all, i + 1, network);
                }
                return Err(Pkcs11Error::Bitcoin(words));
            },
        }
        i = i + 1;
    }
    assert(all.take(n as int) =~= all);
    Ok(allowed)
}

proof fn lemma_refused_stays(list: Seq<Seq<char>>, i: int, network: Network)
    requires
        0 <= i <= list.len(),
        allowed_scripts(list.take(i), network) is Err,
    ensures
        allowed_scripts(list, network) == allowed_scripts(list.take(i), network),
    decreases list.len(),
{
    if i == list.len() {
        assert(list.take(i) =~= list);
    } else {
        assert(list.drop_last().take(i) =~= list.take(i));
        lemma_refused_stays(list.drop_last(), i, network);
    }
}

fn holds_script(allowed: &Vec<Vec<u8>>, script: &Vec<u8>) -> (held: bool)
    ensures
        held == scripts(allowed@).contains(script@),
{
    let n: usize = allowed.len();
    let mut i: usize = 0;
    let ghost all = scripts(allowed@);
    while i < n
        invariant
            i <= n,
            n == allowed@.len(),
            all == scripts(allowed@),
            forall|j: int| 0 <= j < i ==> all[j] != script@,
        decreases n - i,
    {
        assert(all[i as int] == allowed@[i as int]@);
        if same_bytes(allowed[i].as_slice(), script.as_slice()) {
            return true;
        }
        i = i + 1;
    }
    false
}

impl Clone for MinimalHsmPolicy {
    fn clone(&self) -> (p: MinimalHsmPolicy)
        ensures
            p@ == self@,
    {
        let destination_whitelist = match &self.destination_whitelist {
            None => None,
            Some(list) => {
                let n: usize = list.len();
                let mut copied: Vec<String> = Vec::new();
                let mut i: usize = 0;
                while i < n
                    invariant
                        i <= n,
                        n == list@.len(),
                        text::texts(copied@) == text::texts(list@).take(i as int),
                    decreases n - i,
                {
                    let ghost before = text::texts(copied@);
                    let address = list[i].clone();
                    assert(text::texts(list@).take(i + 1) =~= text::texts(list@).take(
                        i as int,
                    ).push(list@[i as int]@));
                    copied.push(address);
                    assert(text::texts(copied@) =~= before.push(address@));
                    i = i + 1;
                }
                assert(text::texts(list@).take(n as int) =~= text::texts(list@));
                Some(copied)
            },
        };
        MinimalHsmPolicy {
            per_transaction_limit: self.per_transaction_limit,
            max_signatures_per_hour: self.max_signatures_per_hour,
            destination_whitelist,
        }
    }
}

impl MinimalHsmPolicy {
    /// A policy that forbids nothing.
    pub fn permissive() -> (p: MinimalHsmPolicy)
        ensures
            p@ == PolicyView::permissive(),
    {
        MinimalHsmPolicy {
            per_transaction_limit: None,
            max_signatures_per_hour: None,
            destination_whitelist: None,
        }
    }

    /// Checks the policy against a transaction. The addresses of the policy
    /// are not bound to a network before they are compared, hence `network`.
    pub fn check_against_psbt(&self, psbt: &Psbt, network: Network) -> (res: Result<
        (),
        Pkcs11Error,
    >)
        ensures
            store::unit_view(res) == self@.check(psbt@.unsigned_tx.output, network),
    {
        let outs = &psbt.unsigned_tx.output;
        let ghost all = psbt::outputs(outs@);
        if let Some(limit) = self.per_transaction_limit {
            let total = sum_outputs(outs);
            let within = match total {
                Some(t) => t <= limit,
                None => false,
            };
            if !within {
                return Err(
                    Pkcs11Error::PolicyViolation(
                        text::join4(
                            "PSBT output total ",
                            total_text(total).as_str(),
                            " exceeds per-transaction limit ",
                            outside::amount_text(limit).as_str(),
                        ),
                    ),
                );
            }
        }
        if let Some(list) = &self.destination_whitelist {
            let allowed = match resolve_scripts(list, network) {
                Ok(allowed) => allowed,
                Err(e) => {
                    return Err(e);
                },
            };
            let n: usize = outs.len();
            let mut i: usize = 0;
            assert(all.skip(0) =~= all);
            while i < n
                invariant
                    i <= n,
                    n == outs@.len(),
                    *outs == psbt.unsigned_tx.output,
                    all == psbt::outputs(outs@),
                    first_elsewhere(all, scripts(allowed@)) == first_elsewhere(
                        all.skip(i as int),
                        scripts(allowed@),
                    ),
                    self@.check_limit(all) is Ok,
                    self@.destination_whitelist == Some(text::texts(list@)),
                    allowed_scripts(text::texts(list@), network) == Ok::<
                        Seq<Seq<u8>>,
                        Pkcs11ErrorView,
                    >(scripts(allowed@)),
                decreases n - i,
            {
                assert(all.skip(i as int)[0] == outs@[i as int]@);
                if !holds_script(&allowed, &outs[i].script_pubkey) {
                    return Err(
                        Pkcs11Error::PolicyViolation(
                            text::join3(
                                "output script ",
                                outside::script_text(outs[i].script_pubkey.as_slice()).as_str(),
                                " not in destination whitelist",
                            ),
                        ),
                    );
                }
                assert(all.skip(i as int).drop_first() =~= all.skip(i + 1));
                i = i + 1;
            }
        }
        Ok(())
    }
}

// ---------------------------------------------------------------------------
// The count of signatures
// ---------------------------------------------------------------------------

/// The times at which a key has signed.
#[derive(Debug, PartialEq, Eq)]
pub struct SigRateCounter {
    /// Unix seconds of recent signatures, oldest first.
    pub timestamps: Vec<u64>,
}

/// The earliest time that still counts at `now`: an hour before.
pub open spec fn cutoff(now: u64) -> int {
    if now >= 3600 {
        now - 3600
    } else {
        0
    }
}

/// The times that still count at `now`.
pub open spec fn recent(times: Seq<u64>, now: u64) -> Seq<u64>
    decreases times.len(),
{
    if times.len() == 0 {
        Seq::empty()
    } else {
        let before = recent(times.drop_last(), now);
        if times.last() >= cutoff(now) {
            before.push(times.last())
        } else {
            before
        }
    }
}

impl SigRateCounter {
    /// A counter with nothing in it.
    pub fn new() -> (c: SigRateCounter)
        ensures
            c.timestamps@ == Seq::<u64>::empty(),
    {
        SigRateCounter { timestamps: Vec::new() }
    }

    /// Drops what is more than an hour old, and counts the rest.
    pub fn prune_and_count(&mut self, now: u64) -> (count: u32)
        requires
            recent(old(self).timestamps@, now).len() <= u32::MAX,
        ensures
            final(self).timestamps@ == recent(old(self).timestamps@, now),
            count == recent(old(self).timestamps@, now).len(),
    {
        self.prune(now);
        self.timestamps.len() as u32
    }

    fn prune(&mut self, now: u64)
        ensures
            final(self).timestamps@ == recent(old(self).timestamps@, now),
    {
        let oldest: u64 = now.saturating_sub(3600);
        let n: usize = self.timestamps.len();
        let mut kept: Vec<u64> = Vec::new();
        let mut i: usize = 0;
        let ghost all = self.timestamps@;
        while i < n
            invariant
                i <= n,
                n == all.len(),
                all == self.timestamps@,
                oldest == cutoff(now),
                kept@ == recent(all.take(i as int), now),
            decreases n - i,
        {
            let t: u64 = self.timestamps[i];
            assert(all.take(i + 1).drop_last() =~= all.take(i as int));
            if t >= oldest {
                kept.push(t);
            }
            i = i + 1;
        }
        assert(all.take(n as int) =~= all);
        self.timestamps = kept;
    }

    /// Drops what is more than an hour old, and tells whether there is room for
    /// another signature.
    fn has_room(&mut self, now: u64, max: u32) -> (res: Result<(), Pkcs11Error>)
        ensures
            final(self).timestamps@ == recent(old(self).timestamps@, now),
            store::unit_view(res) == check_rate(old(self).timestamps@, now, max),
    {
        self.prune(now);
        let count: u64 = self.timestamps.len() as u64;
        if count >= max as u64 {
            let words = text::join4(
                "sig-rate ceiling reached: ",
                text::decimal_text(count).as_str(),
                " signatures in trailing hour, limit ",
                text::decimal_text(max as u64).as_str(),
            );
            Err(Pkcs11Error::PolicyViolation(words))
        } else {
            Ok(())
        }
    }

    /// Adds a time.
    pub fn record(&mut self, now: u64)
        ensures
            final(self).timestamps@ == old(self).timestamps@.push(now),
    {
        self.timestamps.push(now);
    }
}

impl Default for SigRateCounter {
    fn default() -> (c: SigRateCounter)
        ensures
            c.timestamps@ == Seq::<u64>::empty(),
    {
        SigRateCounter::new()
    }
}

impl Default for MinimalHsmPolicy {
    fn default() -> (p: MinimalHsmPolicy)
        ensures
            p@ == PolicyView::permissive(),
    {
        MinimalHsmPolicy::permissive()
    }
}

// ---------------------------------------------------------------------------
// The policy on the token
// ---------------------------------------------------------------------------

/// The label of the policy of the signer `label`.
pub fn policy_label(label: &str) -> (l: String)
    ensures
        l@ == key_ops::namespaced(label@, "policy"@),
{
    key_ops::namespaced_label(label, "policy")
}

/// The label of the counter of the signer `label`.
pub fn sigrate_label(label: &str) -> (l: String)
    ensures
        l@ == key_ops::namespaced(label@, "sigrate"@),
{
    key_ops::namespaced_label(label, "sigrate")
}

/// Has a stored policy decoded.
pub open spec fn decode_policy(value: Seq<u8>) -> Prog<Result<PolicyView, Pkcs11ErrorView>> {
    Prog::Ask(
        RequestView::DecodePolicy(value),
        |r: ReplyView|
            match r {
                ReplyView::Policy(Ok(p)) => Prog::Done(Ok(p)),
                ReplyView::Policy(Err(t)) => Prog::Done(Err(Pkcs11ErrorView::Serialization(t))),
                _ => Prog::Stuck,
            },
    )
}

/// What follows once the policy's value is read; without one, everything is
/// permitted.
pub open spec fn then_decode_policy() -> spec_fn(
    Result<Option<Seq<u8>>, Pkcs11ErrorView>,
) -> Prog<Result<PolicyView, Pkcs11ErrorView>> {
    |d: Result<Option<Seq<u8>>, Pkcs11ErrorView>|
        match d {
            Ok(Some(value)) => decode_policy(value),
            Ok(None) => Prog::Done(Ok(PolicyView::permissive())),
            Err(e) => Prog::Done(Err(e)),
        }
}

/// Reads the policy of the signer `label`.
pub open spec fn policy_loading(label: Seq<char>) -> Prog<Result<PolicyView, Pkcs11ErrorView>> {
    store::read_data(key_ops::namespaced(label, "policy"@)).bind(then_decode_policy())
}

enum LoadPolicyState {
    Reading(ReadData),
    Decoding(Ghost<Seq<u8>>),
}

/// Reads a policy.
pub struct LoadPolicy {
    state: LoadPolicyState,
}

impl Operation for LoadPolicy {
    type Out = Result<MinimalHsmPolicy, Pkcs11Error>;

    type OutView = Result<PolicyView, Pkcs11ErrorView>;

    closed spec fn prog(self) -> Prog<Result<PolicyView, Pkcs11ErrorView>> {
        match self.state {
            LoadPolicyState::Reading(m) if m.prog() is Ask => m.prog().bind(then_decode_policy()),
            LoadPolicyState::Decoding(value) => decode_policy(value@),
            _ => Prog::Stuck,
        }
    }

    open spec fn out_view(out: Result<MinimalHsmPolicy, Pkcs11Error>) -> Result<
        PolicyView,
        Pkcs11ErrorView,
    > {
        match out {
            Ok(p) => Ok(p@),
            Err(e) => Err(e@),
        }
    }
}

impl LoadPolicy {
    fn reading(
        step: Step<ReadData, Result<Option<Vec<u8>>, Pkcs11Error>>,
        Ghost(prog): Ghost<Prog<Result<Option<Seq<u8>>, Pkcs11ErrorView>>>,
    ) -> (next: Step<LoadPolicy, Result<MinimalHsmPolicy, Pkcs11Error>>)
        requires
            program::runs_as(step, prog),
        ensures
            program::runs_as(next, prog.bind(then_decode_policy())),
    {
        match step {
            Step::Ask(q, m) => Step::Ask(q, LoadPolicy { state: LoadPolicyState::Reading(m) }),
            Step::Done(Ok(Some(value))) => {
                let ghost read = value@;
                Step::Ask(
                    Request::DecodePolicy(value),
                    LoadPolicy { state: LoadPolicyState::Decoding(Ghost(read)) },
                )
            },
            Step::Done(Ok(None)) => Step::Done(Ok(MinimalHsmPolicy::permissive())),
            Step::Done(Err(e)) => Step::Done(Err(e)),
        }
    }
}

impl Machine for LoadPolicy {
    fn resume(self, reply: Reply) -> (step: Step<
        LoadPolicy,
        Result<MinimalHsmPolicy, Pkcs11Error>,
    >) {
        match self.state {
            LoadPolicyState::Reading(m) => {
                let ghost prog = (m.prog()->Ask_1)(reply@);
                assert(prog.bind(then_decode_policy()) !is Stuck);
                let step = m.resume(reply);
                LoadPolicy::reading(step, Ghost(prog))
            },
            LoadPolicyState::Decoding(_) => match reply {
                Reply::Policy(Ok(p)) => Step::Done(Ok(p)),
                Reply::Policy(Err(t)) => Step::Done(Err(Pkcs11Error::Serialization(t))),
                _ => vstd::pervasive::unreached(),
            },
        }
    }
}

/// Reads the policy of the signer `label`. Without one on the token,
/// everything is permitted.
pub fn load_policy(label: &str) -> (step: Step<LoadPolicy, Result<MinimalHsmPolicy, Pkcs11Error>>)
    ensures
        program::runs_as(step, policy_loading(label@)),
        step is Ask,
{
    let wanted = policy_label(label);
    let ghost prog = store::read_data(wanted@);
    LoadPolicy::reading(ReadData::start(wanted), Ghost(prog))
}

/// Writes the policy of the signer `label`.
pub open spec fn policy_saving(label: Seq<char>, policy: PolicyView) -> Prog<
    Result<ObjectHandle, Pkcs11ErrorView>,
> {
    store::replace_data(key_ops::namespaced(label, "policy"@), RequestView::EncodePolicy(policy))
}

/// Writes the policy of the signer `label`, in place of any that is there.
pub fn save_policy(label: &str, policy: &MinimalHsmPolicy) -> (step: Step<
    ReplaceData,
    Result<ObjectHandle, Pkcs11Error>,
>)
    ensures
        program::runs_as(step, policy_saving(label@, policy@)),
{
    ReplaceData::start(policy_label(label), Request::EncodePolicy(policy.clone()))
}

// ---------------------------------------------------------------------------
// The counter on the token
// ---------------------------------------------------------------------------

/// Has a stored counter decoded.
pub open spec fn decode_sigrate(value: Seq<u8>) -> Prog<Result<Seq<u64>, Pkcs11ErrorView>> {
    Prog::Ask(
        RequestView::DecodeSigRate(value),
        |r: ReplyView|
            match r {
                ReplyView::SigRate(Ok(c)) => Prog::Done(Ok(c)),
                ReplyView::SigRate(Err(t)) => Prog::Done(Err(Pkcs11ErrorView::Serialization(t))),
                _ => Prog::Stuck,
            },
    )
}

/// What follows once the counter's value is read; without one, nothing has
/// been counted.
pub open spec fn then_decode_sigrate() -> spec_fn(
    Result<Option<Seq<u8>>, Pkcs11ErrorView>,
) -> Prog<Result<Seq<u64>, Pkcs11ErrorView>> {
    |d: Result<Option<Seq<u8>>, Pkcs11ErrorView>|
        match d {
            Ok(Some(value)) => decode_sigrate(value),
            Ok(None) => Prog::Done(Ok(Seq::empty())),
            Err(e) => Prog::Done(Err(e)),
        }
}

/// Reads the counter of the signer `label`.
pub open spec fn sigrate_loading(label: Seq<char>) -> Prog<Result<Seq<u64>, Pkcs11ErrorView>> {
    store::read_data(key_ops::namespaced(label, "sigrate"@)).bind(then_decode_sigrate())
}

enum LoadSigRateState {
    Reading(ReadData),
    Decoding(Ghost<Seq<u8>>),
}

/// Reads a counter.
pub struct LoadSigRate {
    state: LoadSigRateState,
}

impl Operation for LoadSigRate {
    type Out = Result<SigRateCounter, Pkcs11Error>;

    type OutView = Result<Seq<u64>, Pkcs11ErrorView>;

    closed spec fn prog(self) -> Prog<Result<Seq<u64>, Pkcs11ErrorView>> {
        match self.state {
            LoadSigRateState::Reading(m) if m.prog() is Ask => m.prog().bind(
                then_decode_sigrate(),
            ),
            LoadSigRateState::Decoding(value) => decode_sigrate(value@),
            _ => Prog::Stuck,
        }
    }

    open spec fn out_view(out: Result<SigRateCounter, Pkcs11Error>) -> Result<
        Seq<u64>,
        Pkcs11ErrorView,
    > {
        match out {
            Ok(c) => Ok(c.timestamps@),
            Err(e) => Err(e@),
        }
    }
}

impl LoadSigRate {
    fn reading(
        step: Step<ReadData, Result<Option<Vec<u8>>, Pkcs11Error>>,
        Ghost(prog): Ghost<Prog<Result<Option<Seq<u8>>, Pkcs11ErrorView>>>,
    ) -> (next: Step<LoadSigRate, Result<SigRateCounter, Pkcs11Error>>)
        requires
            program::runs_as(step, prog),
        ensures
            program::runs_as(next, prog.bind(then_decode_sigrate())),
    {
        match step {
            Step::Ask(q, m) => Step::Ask(q, LoadSigRate { state: LoadSigRateState::Reading(m) }),
            Step::Done(Ok(Some(value))) => {
                let ghost read = value@;
                Step::Ask(
                    Request::DecodeSigRate(value),
                    LoadSigRate { state: LoadSigRateState::Decoding(Ghost(read)) },
                )
            },
            Step::Done(Ok(None)) => Step::Done(Ok(SigRateCounter::new())),
            Step::Done(Err(e)) => Step::Done(Err(e)),
        }
    }
}

impl Machine for LoadSigRate {
    fn resume(self, reply: Reply) -> (step: Step<LoadSigRate, Result<SigRateCounter, Pkcs11Error>>) {
        match self.state {
            LoadSigRateState::Reading(m) => {
                let ghost prog = (m.prog()->Ask_1)(reply@);
                assert(prog.bind(then_decode_sigrate()) !is Stuck);
                let step = m.resume(reply);
                LoadSigRate::reading(step, Ghost(prog))
            },
            LoadSigRateState::Decoding(_) => match reply {
                Reply::SigRate(Ok(c)) => Step::Done(Ok(c)),
                Reply::SigRate(Err(t)) => Step::Done(Err(Pkcs11Error::Serialization(t))),
                _ => vstd::pervasive::unreached(),
            },
        }
    }
}

/// Reads the counter of the signer `label`; an empty one if there is none on
/// the token.
pub fn load_sigrate(label: &str) -> (step: Step<LoadSigRate, Result<SigRateCounter, Pkcs11Error>>)
    ensures
        program::runs_as(step, sigrate_loading(label@)),
        step is Ask,
{
    let wanted = sigrate_label(label);
    let ghost prog = store::read_data(wanted@);
    LoadSigRate::reading(ReadData::start(wanted), Ghost(prog))
}

/// Writes the counter of the signer `label`.
pub open spec fn sigrate_saving(label: Seq<char>, times: Seq<u64>) -> Prog<
    Result<(), Pkcs11ErrorView>,
> {
    store::replace_data(
        key_ops::namespaced(label, "sigrate"@),
        RequestView::EncodeSigRate(times),
    ).bind(store::then_forget())
}

fn save_counter(label: &str, counter: SigRateCounter) -> (step: Step<
    WriteData,
    Result<(), Pkcs11Error>,
>)
    ensures
        program::runs_as(step, sigrate_saving(label@, counter.timestamps@)),
        step is Ask,
{
    let wanted = sigrate_label(label);
    let ghost prog = store::replace_data(
        wanted@,
        RequestView::EncodeSigRate(counter.timestamps@),
    );
    WriteData::writing(
        ReplaceData::start(wanted, Request::EncodeSigRate(counter)),
        Ghost(prog),
    )
}

/// Writes the counter of the signer `label`, in place of any that is there.
pub fn save_sigrate(label: &str, counter: &SigRateCounter) -> (step: Step<
    WriteData,
    Result<(), Pkcs11Error>,
>)
    ensures
        program::runs_as(step, sigrate_saving(label@, counter.timestamps@)),
{
    let copied = SigRateCounter {
        timestamps: vstd::slice::slice_to_vec(counter.timestamps.as_slice()),
    };
    save_counter(label, copied)
}

// ---------------------------------------------------------------------------
// The ceiling on signatures
// ---------------------------------------------------------------------------

/// Whether another signature may be counted at `now`, behind those at `times`.
pub open spec fn check_rate(times: Seq<u64>, now: u64, max: u32) -> Result<(), Pkcs11ErrorView> {
    let count = recent(times, now).len();
    if count >= max {
        Err(
            Pkcs11ErrorView::PolicyViolation(
                "sig-rate ceiling reached: "@ + text::decimal(count)
                    + " signatures in trailing hour, limit "@ + text::decimal(max as nat),
            ),
        )
    } else {
        Ok(())
    }
}

/// Asks for the time, and whether there is room for another signature in the hour
/// before it.
pub open spec fn check_now(times: Seq<u64>, max: u32) -> Prog<Result<(), Pkcs11ErrorView>> {
    Prog::Ask(
        RequestView::Now,
        |r: ReplyView|
            match r {
                ReplyView::Time(now) => Prog::Done(check_rate(times, now, max)),
                _ => Prog::Stuck,
            },
    )
}

/// What follows once the counter is read.
pub open spec fn then_check_now(max: u32) -> spec_fn(Result<Seq<u64>, Pkcs11ErrorView>) -> Prog<
    Result<(), Pkcs11ErrorView>,
> {
    |d: Result<Seq<u64>, Pkcs11ErrorView>|
        match d {
            Ok(times) => check_now(times, max),
            Err(e) => Prog::Done(Err(e)),
        }
}

/// Holds the counter of the signer `label` against the policy's ceiling. Without a
/// ceiling nothing is read.
pub open spec fn rate_checking(label: Seq<char>, max: Option<u32>) -> Prog<
    Result<(), Pkcs11ErrorView>,
> {
    match max {
        None => Prog::Done(Ok(())),
        Some(max) => sigrate_loading(label).bind(then_check_now(max)),
    }
}

enum CheckState {
    Loading(LoadSigRate),
    Asking(SigRateCounter),
}

/// Holds a counter against the ceiling.
pub struct CheckSigRate {
    max: u32,
    state: CheckState,
}

impl Operation for CheckSigRate {
    type Out = Result<(), Pkcs11Error>;

    type OutView = Result<(), Pkcs11ErrorView>;

    closed spec fn prog(self) -> Prog<Result<(), Pkcs11ErrorView>> {
        match self.state {
            CheckState::Loading(m) if m.prog() is Ask => m.prog().bind(then_check_now(self.max)),
            CheckState::Asking(counter) => check_now(counter.timestamps@, self.max),
            _ => Prog::Stuck,
        }
    }

    open spec fn out_view(out: Result<(), Pkcs11Error>) -> Result<(), Pkcs11ErrorView> {
        store::unit_view(out)
    }
}

impl CheckSigRate {
    fn loading(
        max: u32,
        step: Step<LoadSigRate, Result<SigRateCounter, Pkcs11Error>>,
        Ghost(prog): Ghost<Prog<Result<Seq<u64>, Pkcs11ErrorView>>>,
    ) -> (next: Step<CheckSigRate, Result<(), Pkcs11Error>>)
        requires
            program::runs_as(step, prog),
        ensures
            program::runs_as(next, prog.bind(then_check_now(max))),
    {
        match step {
            Step::Ask(q, m) => Step::Ask(q, CheckSigRate { max, state: CheckState::Loading(m) }),
            Step::Done(Ok(counter)) => Step::Ask(
                Request::Now,
                CheckSigRate { max, state: CheckState::Asking(counter) },
            ),
            Step::Done(Err(e)) => Step::Done(Err(e)),
        }
    }
}

impl Machine for CheckSigRate {
    fn resume(self, reply: Reply) -> (step: Step<CheckSigRate, Result<(), Pkcs11Error>>) {
        let max = self.max;
        match self.state {
            CheckState::Loading(m) => {
                let ghost prog = (m.prog()->Ask_1)(reply@);
                assert(prog.bind(then_check_now(max)) !is Stuck);
                let step = m.resume(reply);
                CheckSigRate::loading(max, step, Ghost(prog))
            },
            CheckState::Asking(counter) => match reply {
                Reply::Time(now) => {
                    let mut counter = counter;
                    Step::Done(counter.has_room(now, max))
                },
                _ => vstd::pervasive::unreached(),
            },
        }
    }
}

/// Holds the counter of the signer `label` against the policy's ceiling on
/// signatures in the trailing hour, and counts nothing.
pub fn check_sigrate(label: &str, policy: &MinimalHsmPolicy) -> (step: Step<
    CheckSigRate,
    Result<(), Pkcs11Error>,
>)
    ensures
        program::runs_as(step, rate_checking(label@, policy@.max_signatures_per_hour)),
{
    match policy.max_signatures_per_hour {
        None => Step::Done(Ok(())),
        Some(max) => {
            let ghost prog = sigrate_loading(label@);
            CheckSigRate::loading(max, load_sigrate(label), Ghost(prog))
        },
    }
}

/// Asks for the time; with too many signatures in the hour before it, refuses;
/// else counts one more.
pub open spec fn count_one(label: Seq<char>, times: Seq<u64>, max: u32) -> Prog<
    Result<(), Pkcs11ErrorView>,
> {
    Prog::Ask(
        RequestView::Now,
        |r: ReplyView|
            match r {
                ReplyView::Time(now) => match check_rate(times, now, max) {
                    Ok(_) => sigrate_saving(label, recent(times, now).push(now)),
                    Err(e) => Prog::Done(Err(e)),
                },
                _ => Prog::Stuck,
            },
    )
}

/// What follows once the counter is read.
pub open spec fn then_count_one(label: Seq<char>, max: u32) -> spec_fn(
    Result<Seq<u64>, Pkcs11ErrorView>,
) -> Prog<Result<(), Pkcs11ErrorView>> {
    |d: Result<Seq<u64>, Pkcs11ErrorView>|
        match d {
            Ok(times) => count_one(label, times, max),
            Err(e) => Prog::Done(Err(e)),
        }
}

/// Counts a signature of the signer `label`, unless that exceeds the policy's
/// ceiling. Without a ceiling nothing is read or counted.
pub open spec fn rate_recording(label: Seq<char>, max: Option<u32>) -> Prog<
    Result<(), Pkcs11ErrorView>,
> {
    match max {
        None => Prog::Done(Ok(())),
        Some(max) => sigrate_loading(label).bind(then_count_one(label, max)),
    }
}

enum RecordState {
    Loading(LoadSigRate),
    Asking(SigRateCounter),
    Saving(WriteData),
}

/// Counts a signature.
pub struct RecordSigRate {
    label: String,
    max: u32,
    state: RecordState,
}

impl Operation for RecordSigRate {
    type Out = Result<(), Pkcs11Error>;

    type OutView = Result<(), Pkcs11ErrorView>;

    closed spec fn prog(self) -> Prog<Result<(), Pkcs11ErrorView>> {
        match self.state {
            RecordState::Loading(m) if m.prog() is Ask => m.prog().bind(
                then_count_one(self.label@, self.max),
            ),
            RecordState::Asking(counter) => count_one(
                self.label@,
                counter.timestamps@,
                self.max,
            ),
            RecordState::Saving(m) => m.prog(),
            _ => Prog::Stuck,
        }
    }

    open spec fn out_view(out: Result<(), Pkcs11Error>) -> Result<(), Pkcs11ErrorView> {
        store::unit_view(out)
    }
}

impl RecordSigRate {
    fn loading(
        label: String,
        max: u32,
        step: Step<LoadSigRate, Result<SigRateCounter, Pkcs11Error>>,
        Ghost(prog): Ghost<Prog<Result<Seq<u64>, Pkcs11ErrorView>>>,
    ) -> (next: Step<RecordSigRate, Result<(), Pkcs11Error>>)
        requires
            program::runs_as(step, prog),
        ensures
            program::runs_as(next, prog.bind(then_count_one(label@, max))),
    {
        match step {
            Step::Ask(q, m) => Step::Ask(
                q,
                RecordSigRate { label, max, state: RecordState::Loading(m) },
            ),
            Step::Done(Ok(counter)) => Step::Ask(
                Request::Now,
                RecordSigRate { label, max, state: RecordState::Asking(counter) },
            ),
            Step::Done(Err(e)) => Step::Done(Err(e)),
        }
    }

    fn saving(
        label: String,
        max: u32,
        step: Step<WriteData, Result<(), Pkcs11Error>>,
        Ghost(prog): Ghost<Prog<Result<(), Pkcs11ErrorView>>>,
    ) -> (next: Step<RecordSigRate, Result<(), Pkcs11Error>>)
        requires
            program::runs_as(step, prog),
        ensures
            program::runs_as(next, prog),
    {
        match step {
            Step::Ask(q, m) => Step::Ask(
                q,
                RecordSigRate { label, max, state: RecordState::Saving(m) },
            ),
            Step::Done(out) => Step::Done(out),
        }
    }
}

impl Machine for RecordSigRate {
    fn resume(self, reply: Reply) -> (step: Step<RecordSigRate, Result<(), Pkcs11Error>>) {
        let label = self.label;
        let max = self.max;
        match self.state {
            RecordState::Loading(m) => {
                let ghost prog = (m.prog()->Ask_1)(reply@);
                assert(prog.bind(then_count_one(label@, max)) !is Stuck);
                let step = m.resume(reply);
                RecordSigRate::loading(label, max, step, Ghost(prog))
            },
            RecordState::Asking(counter) => match reply {
                Reply::Time(now) => {
                    let mut counter = counter;
                    match counter.has_room(now, max) {
                        Err(e) => Step::Done(Err(e)),
                        Ok(_) => {
                            counter.record(now);
                            let ghost prog = sigrate_saving(label@, counter.timestamps@);
                            let step = save_counter(label.as_str(), counter);
                            RecordSigRate::saving(label, max, step, Ghost(prog))
                        },
                    }
                },
                _ => vstd::pervasive::unreached(),
            },
            RecordState::Saving(m) => {
                let ghost prog = (m.prog()->Ask_1)(reply@);
                let step = m.resume(reply);
                RecordSigRate::saving(label, max, step, Ghost(prog))
            },
        }
    }
}

/// Counts a signature of the signer `label`, unless that exceeds the policy's
/// ceiling on signatures in the trailing hour.
pub fn check_and_record_sigrate(label: &str, policy: &MinimalHsmPolicy) -> (step: Step<
    RecordSigRate,
    Result<(), Pkcs11Error>,
>)
    ensures
        program::runs_as(step, rate_recording(label@, policy@.max_signatures_per_hour)),
{
    match policy.max_signatures_per_hour {
        None => Step::Done(Ok(())),
        Some(max) => {
            let ghost prog = sigrate_loading(label@);
            let step = load_sigrate(label);
            RecordSigRate::loading(label.to_owned(), max, step, Ghost(prog))
        },
    }
}

} // verus!
