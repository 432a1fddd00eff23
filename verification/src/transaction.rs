//! Signing a whole transaction: the policy and its ceiling first, then each input,
//! then the count of signatures.
use crate::error::{Pkcs11Error, Pkcs11ErrorView};
use crate::policy;
use crate::policy::{CheckSigRate, LoadPolicy, MinimalHsmPolicy, PolicyView, RecordSigRate};
use crate::program;
use crate::program::{Machine, Operation, Prog, Reply, Step};
use crate::psbt;
use crate::psbt::{Psbt, PsbtInput, PsbtInputView, PsbtView, TapScriptSigView};
use crate::signing;
use crate::signing::{InputSigs, InputSigsView, SignInput, SigningKey, SigningKeyView};
use vstd::prelude::*;
use vstd::string::*;

verus! {

// ---------------------------------------------------------------------------
// Putting signatures in
// ---------------------------------------------------------------------------

/// The signatures with all of `new` among them.
pub open spec fn with_tap_sigs(list: Seq<TapScriptSigView>, new: Seq<TapScriptSigView>) -> Seq<
    TapScriptSigView,
>
    decreases new.len(),
{
    if new.len() == 0 {
        list
    } else {
        psbt::with_tap_sig(with_tap_sigs(list, new.drop_last()), new.last())
    }
}

/// An input with the signatures in it.
pub open spec fn with_sigs(input: PsbtInputView, sigs: InputSigsView) -> PsbtInputView {
    match sigs {
        InputSigsView::Nothing => input,
        InputSigsView::Ecdsa(s) => PsbtInputView {
            partial_sigs: psbt::with_sig(input.partial_sigs, s),
            ..input
        },
        InputSigsView::Taproot(l) => PsbtInputView {
            tap_script_sigs: with_tap_sigs(input.tap_script_sigs, l),
            ..input
        },
    }
}

/// A transaction with the signatures in its first inputs, one entry for each.
pub open spec fn with_inputs(psbt: PsbtView, done: Seq<InputSigsView>) -> PsbtView {
    PsbtView {
        inputs: Seq::new(
            psbt.inputs.len(),
            |i: int|
                if i < done.len() {
                    with_sigs(psbt.inputs[i], done[i])
                } else {
                    psbt.inputs[i]
                },
        ),
        ..psbt
    }
}

/// Whether there is anything among the signatures.
pub open spec fn any_signed(done: Seq<InputSigsView>) -> bool {
    exists|i: int| 0 <= i < done.len() && #[trigger] done[i] !is Nothing
}

/// What a list of signatures says.
pub open spec fn signatures(list: Seq<InputSigs>) -> Seq<InputSigsView> {
    list.map_values(|s: InputSigs| s@)
}

fn put_sigs(input: &mut PsbtInput, sigs: InputSigs)
    ensures
        final(input)@ == with_sigs(old(input)@, sigs@),
{
    match sigs {
        InputSigs::Nothing => {},
        InputSigs::Ecdsa(s) => {
            psbt::insert_sig(&mut input.partial_sigs, s);
        },
        InputSigs::Taproot(l) => {
            let n: usize = l.len();
            let mut i: usize = 0;
            let ghost new = psbt::tap_sigs(l@);
            let ghost before = input@;
            let ghost list = before.tap_script_sigs;
            while i < n
                invariant
                    i <= n,
                    n == l@.len(),
                    new == psbt::tap_sigs(l@),
                    list == before.tap_script_sigs,
                    before == old(input)@,
                    input@ == (PsbtInputView {
                        tap_script_sigs: with_tap_sigs(list, new.take(i as int)),
                        ..before
                    }),
                decreases n - i,
            {
                proof {
                    assert(new.take(i + 1).drop_last() =~= new.take(i as int));
                    assert(new.take(i + 1).last() == l@[i as int]@);
                }
                psbt::insert_tap_sig(&mut input.tap_script_sigs, l[i]);
                i = i + 1;
            }
            assert(new.take(n as int) =~= new);
        },
    }
}

// ---------------------------------------------------------------------------
// The program
// ---------------------------------------------------------------------------

/// What signing a transaction gives: the transaction with what was signed in
/// it, and whether all went well. What was signed before something went wrong
/// is in it too, if it was counted.
pub type Signed = (PsbtView, Result<(), Seq<char>>);

/// What follows once a signature is counted, or may not be: what is not counted is
/// not handed back.
pub open spec fn then_hand_back(
    psbt: PsbtView,
    done: Seq<InputSigsView>,
    outcome: Result<(), Seq<char>>,
) -> spec_fn(Result<(), Pkcs11ErrorView>) -> Prog<Signed> {
    |d: Result<(), Pkcs11ErrorView>|
        match (d, outcome) {
            (Ok(_), _) => Prog::Done((with_inputs(psbt, done), outcome)),
            (Err(_), Err(t)) => Prog::Done((psbt, Err(t))),
            (Err(e), Ok(_)) => Prog::Done((psbt, Err(e.text()))),
        }
}

/// Ends with this outcome. If any input was signed, one signature is counted.
pub open spec fn finishing(
    label: Seq<char>,
    max: Option<u32>,
    psbt: PsbtView,
    done: Seq<InputSigsView>,
    outcome: Result<(), Seq<char>>,
) -> Prog<Signed> {
    if any_signed(done) {
        policy::rate_recording(label, max).bind(then_hand_back(psbt, done, outcome))
    } else {
        Prog::Done((psbt, outcome))
    }
}

/// Signs the inputs behind those that are done. The first that cannot be signed
/// ends it.
pub open spec fn inputs_signing(
    key: SigningKeyView,
    max: Option<u32>,
    psbt: PsbtView,
    done: Seq<InputSigsView>,
) -> Prog<Signed>
    decreases psbt.inputs.len() - done.len(), 1int,
{
    if done.len() >= psbt.inputs.len() {
        finishing(key.label, max, psbt, done, Ok(()))
    } else {
        signing::plan_signing(
            key.label,
            key.handle,
            signing::input_plan(key, psbt, done.len()),
        ).bind(then_next_input(key, max, psbt, done))
    }
}

/// What follows once an input is signed.
pub open spec fn then_next_input(
    key: SigningKeyView,
    max: Option<u32>,
    psbt: PsbtView,
    done: Seq<InputSigsView>,
) -> spec_fn(Result<InputSigsView, Seq<char>>) -> Prog<Signed>
    decreases psbt.inputs.len() - done.len(), 0int,
{
    |d: Result<InputSigsView, Seq<char>>|
        match d {
            Ok(sigs) if done.len() < psbt.inputs.len() => inputs_signing(
                key,
                max,
                psbt,
                done.push(sigs),
            ),
            Ok(_) => Prog::Stuck,
            Err(t) => finishing(key.label, max, psbt, done, Err(t)),
        }
}

/// What follows once the count of signatures is held against the ceiling.
pub open spec fn then_sign(key: SigningKeyView, max: Option<u32>, psbt: PsbtView) -> spec_fn(
    Result<(), Pkcs11ErrorView>,
) -> Prog<Signed> {
    |d: Result<(), Pkcs11ErrorView>|
        match d {
            Ok(_) => inputs_signing(key, max, psbt, Seq::empty()),
            Err(e) => Prog::Done((psbt, Err(e.text()))),
        }
}

/// What follows once the policy is read. Where no input is this signer's there is
/// nothing to sign, and no count to look at.
pub open spec fn then_check(key: SigningKeyView, psbt: PsbtView) -> spec_fn(
    Result<PolicyView, Pkcs11ErrorView>,
) -> Prog<Signed> {
    |d: Result<PolicyView, Pkcs11ErrorView>|
        match d {
            Err(e) => Prog::Done((psbt, Err(e.text()))),
            Ok(p) => match p.check(psbt.unsigned_tx.output, key.network) {
                Err(e) => Prog::Done((psbt, Err(e.text()))),
                Ok(_) => if signing::any_ours(key.fingerprint, psbt.inputs) {
                    policy::rate_checking(key.label, p.max_signatures_per_hour).bind(
                        then_sign(key, p.max_signatures_per_hour, psbt),
                    )
                } else {
                    Prog::Done((psbt, Ok(())))
                },
            },
        }
}

/// Signs a transaction: reads the policy, holds the transaction and the count of
/// signatures against it, signs the inputs that are this signer's, and counts a
/// signature.
pub open spec fn transaction_signing(key: SigningKeyView, psbt: PsbtView) -> Prog<Signed> {
    policy::policy_loading(key.label).bind(then_check(key, psbt))
}

// ---------------------------------------------------------------------------
// The machine
// ---------------------------------------------------------------------------

enum SignTransactionState {
    Loading(LoadPolicy),
    Checking(MinimalHsmPolicy, CheckSigRate),
    Signing(MinimalHsmPolicy, Vec<InputSigs>, SignInput),
    Recording(Vec<InputSigs>, Result<(), String>, RecordSigRate),
}

/// Signs a transaction.
pub struct SignTransaction {
    key: SigningKey,
    psbt: Psbt,
    state: SignTransactionState,
}

/// What a result says.
pub open spec fn outcome_view(r: Result<(), String>) -> Result<(), Seq<char>> {
    match r {
        Ok(u) => Ok(u),
        Err(t) => Err(t@),
    }
}

impl Operation for SignTransaction {
    type Out = (Psbt, Result<(), String>);

    type OutView = Signed;

    closed spec fn prog(self) -> Prog<Signed> {
        match self.state {
            SignTransactionState::Loading(m) if m.prog() is Ask => m.prog().bind(
                then_check(self.key@, self.psbt@),
            ),
            SignTransactionState::Checking(policy, inner) if inner.prog() is Ask
                => inner.prog().bind(
                then_sign(self.key@, policy@.max_signatures_per_hour, self.psbt@),
            ),
            SignTransactionState::Signing(policy, done, inner) if inner.prog() is Ask && done@.len()
                < self.psbt@.inputs.len() => inner.prog().bind(
                then_next_input(
                    self.key@,
                    policy@.max_signatures_per_hour,
                    self.psbt@,
                    signatures(done@),
                ),
            ),
            SignTransactionState::Recording(done, outcome, inner) if inner.prog() is Ask
                && done@.len() <= self.psbt@.inputs.len() => inner.prog().bind(
                then_hand_back(self.psbt@, signatures(done@), outcome_view(outcome)),
            ),
            _ => Prog::Stuck,
        }
    }

    open spec fn out_view(out: (Psbt, Result<(), String>)) -> Signed {
        (out.0@, outcome_view(out.1))
    }
}

impl SignTransaction {
    fn loading(
        key: SigningKey,
        psbt: Psbt,
        step: Step<LoadPolicy, Result<MinimalHsmPolicy, Pkcs11Error>>,
        Ghost(prog): Ghost<Prog<Result<PolicyView, Pkcs11ErrorView>>>,
    ) -> (next: Step<SignTransaction, (Psbt, Result<(), String>)>)
        requires
            program::runs_as(step, prog),
        ensures
            program::runs_as(next, prog.bind(then_check(key@, psbt@))),
    {
        match step {
            Step::Ask(q, m) => Step::Ask(
                q,
                SignTransaction { key, psbt, state: SignTransactionState::Loading(m) },
            ),
            Step::Done(Err(e)) => {
                let t = e.to_string();
                Step::Done((psbt, Err(t)))
            },
            Step::Done(Ok(policy)) => match policy.check_against_psbt(&psbt, key.network) {
                Err(e) => {
                    let t = e.to_string();
                    Step::Done((psbt, Err(t)))
                },
                Ok(_) => if signing::has_own_input(&psbt, &key.fingerprint) {
                    let ghost rest = policy::rate_checking(
                        key@.label,
                        policy@.max_signatures_per_hour,
                    );
                    let step = policy::check_sigrate(key.label.as_str(), &policy);
                    SignTransaction::checking(key, psbt, policy, step, Ghost(rest))
                } else {
                    Step::Done((psbt, Ok(())))
                },
            },
        }
    }

    fn checking(
        key: SigningKey,
        psbt: Psbt,
        policy: MinimalHsmPolicy,
        step: Step<CheckSigRate, Result<(), Pkcs11Error>>,
        Ghost(prog): Ghost<Prog<Result<(), Pkcs11ErrorView>>>,
    ) -> (next: Step<SignTransaction, (Psbt, Result<(), String>)>)
        requires
            program::runs_as(step, prog),
        ensures
            program::runs_as(
                next,
                prog.bind(then_sign(key@, policy@.max_signatures_per_hour, psbt@)),
            ),
    {
        match step {
            Step::Ask(q, inner) => Step::Ask(
                q,
                SignTransaction {
                    key,
                    psbt,
                    state: SignTransactionState::Checking(policy, inner),
                },
            ),
            Step::Done(Err(e)) => {
                let t = e.to_string();
                Step::Done((psbt, Err(t)))
            },
            Step::Done(Ok(_)) => {
                let done: Vec<InputSigs> = Vec::new();
                assert(signatures(done@) =~= Seq::<InputSigsView>::empty());
                SignTransaction::inputs(key, psbt, policy, done)
            },
        }
    }

    fn recording(
        key: SigningKey,
        psbt: Psbt,
        done: Vec<InputSigs>,
        outcome: Result<(), String>,
        step: Step<RecordSigRate, Result<(), Pkcs11Error>>,
        Ghost(prog): Ghost<Prog<Result<(), Pkcs11ErrorView>>>,
    ) -> (next: Step<SignTransaction, (Psbt, Result<(), String>)>)
        requires
            program::runs_as(step, prog),
            done@.len() <= psbt@.inputs.len(),
        ensures
            program::runs_as(
                next,
                prog.bind(then_hand_back(psbt@, signatures(done@), outcome_view(outcome))),
            ),
    {
        match step {
            Step::Ask(q, m) => Step::Ask(
                q,
                SignTransaction {
                    key,
                    psbt,
                    state: SignTransactionState::Recording(done, outcome, m),
                },
            ),
            Step::Done(Ok(_)) => Step::Done((SignTransaction::put_all(psbt, done), outcome)),
            Step::Done(Err(e)) => match outcome {
                Ok(_) => {
                    let t = e.to_string();
                    Step::Done((psbt, Err(t)))
                },
                Err(t) => Step::Done((psbt, Err(t))),
            },
        }
    }

    fn finish(
        key: SigningKey,
        psbt: Psbt,
        policy: MinimalHsmPolicy,
        done: Vec<InputSigs>,
        outcome: Result<(), String>,
    ) -> (next: Step<SignTransaction, (Psbt, Result<(), String>)>)
        requires
            done@.len() <= psbt@.inputs.len(),
        ensures
            program::runs_as(
                next,
                finishing(
                    key@.label,
                    policy@.max_signatures_per_hour,
                    psbt@,
                    signatures(done@),
                    outcome_view(outcome),
                ),
            ),
    {
        if SignTransaction::some(&done) {
            let ghost prog = policy::rate_recording(key@.label, policy@.max_signatures_per_hour);
            let step = policy::check_and_record_sigrate(key.label.as_str(), &policy);
            SignTransaction::recording(key, psbt, done, outcome, step, Ghost(prog))
        } else {
            Step::Done((psbt, outcome))
        }
    }

    #[verifier::loop_isolation(false)]
    fn inputs(key: SigningKey, psbt: Psbt, policy: MinimalHsmPolicy, done: Vec<InputSigs>) -> (next:
        Step<SignTransaction, (Psbt, Result<(), String>)>)
        requires
            done@.len() <= psbt@.inputs.len(),
        ensures
            program::runs_as(
                next,
                inputs_signing(
                    key@,
                    policy@.max_signatures_per_hour,
                    psbt@,
                    signatures(done@),
                ),
            ),
    {
        let mut done = done;
        let ghost max = policy@.max_signatures_per_hour;
        let ghost whole = inputs_signing(key@, max, psbt@, signatures(done@));
        while done.len() < psbt.inputs.len()
            invariant
                done@.len() <= psbt@.inputs.len(),
                max == policy@.max_signatures_per_hour,
                whole == inputs_signing(key@, max, psbt@, signatures(done@)),
            decreases psbt.inputs.len() - done.len(),
        {
            let plan = signing::plan_input(&key, &psbt, done.len());
            match SignInput::start(key.label.clone(), key.handle, plan) {
                Step::Ask(q, inner) => {
                    return Step::Ask(
                        q,
                        SignTransaction {
                            key,
                            psbt,
                            state: SignTransactionState::Signing(policy, done, inner),
                        },
                    );
                },
                Step::Done(Err(t)) => {
                    return SignTransaction::finish(key, psbt, policy, done, Err(t));
                },
                Step::Done(Ok(sigs)) => {
                    let ghost before = signatures(done@);
                    let ghost new = sigs@;
                    done.push(sigs);
                    assert(signatures(done@) =~= before.push(new));
                },
            }
        }
        SignTransaction::finish(key, psbt, policy, done, Ok(()))
    }

    fn some(done: &Vec<InputSigs>) -> (b: bool)
        ensures
            b == any_signed(signatures(done@)),
    {
        let n: usize = done.len();
        let mut i: usize = 0;
        let ghost all = signatures(done@);
        while i < n
            invariant
                i <= n,
                n == done@.len(),
                all == signatures(done@),
                forall|j: int| 0 <= j < i ==> #[trigger] all[j] is Nothing,
            decreases n - i,
        {
            assert(all[i as int] == done@[i as int]@);
            match &done[i] {
                InputSigs::Nothing => {},
                _ => {
                    return true;
                },
            }
            i = i + 1;
        }
        false
    }

    fn put_all(psbt: Psbt, done: Vec<InputSigs>) -> (signed: Psbt)
        requires
            done@.len() <= psbt@.inputs.len(),
        ensures
            signed@ == with_inputs(psbt@, signatures(done@)),
    {
        let mut psbt = psbt;
        let mut done = done;
        let ghost start = psbt@;
        let ghost all = signatures(done@);
        while done.len() > 0
            invariant
                done@.len() <= all.len() <= start.inputs.len(),
                psbt@.inputs.len() == start.inputs.len(),
                psbt@.unsigned_tx == start.unsigned_tx,
                forall|i: int| 0 <= i < done@.len() ==> #[trigger] done@[i]@ == all[i],
                forall|i: int|
                    0 <= i < start.inputs.len() ==> #[trigger] psbt@.inputs[i] == (if done@.len()
                        <= i < all.len() {
                        with_sigs(start.inputs[i], all[i])
                    } else {
                        start.inputs[i]
                    }),
            decreases done@.len(),
        {
            let index: usize = done.len() - 1;
            assert(done@[index as int]@ == all[index as int]);
            assert(psbt@.inputs[index as int] == start.inputs[index as int]);
            let ghost before = psbt@;
            match done.pop() {
                Some(sigs) => {
                    let ghost new = sigs@;
                    put_sigs(&mut psbt.inputs[index], sigs);
                    assert(psbt@.inputs =~= before.inputs.update(
                        index as int,
                        with_sigs(before.inputs[index as int], new),
                    ));
                },
                None => {},
            }
        }
        assert(psbt@.inputs =~= with_inputs(start, all).inputs);
        psbt
    }
}

impl Machine for SignTransaction {
    fn resume(self, reply: Reply) -> (step: Step<SignTransaction, (Psbt, Result<(), String>)>) {
        let key = self.key;
        let psbt = self.psbt;
        match self.state {
            SignTransactionState::Loading(m) => {
                let ghost prog = (m.prog()->Ask_1)(reply@);
                assert(prog.bind(then_check(key@, psbt@)) !is Stuck);
                let step = m.resume(reply);
                SignTransaction::loading(key, psbt, step, Ghost(prog))
            },
            SignTransactionState::Checking(policy, inner) => {
                let ghost prog = (inner.prog()->Ask_1)(reply@);
                let ghost then = then_sign(key@, policy@.max_signatures_per_hour, psbt@);
                assert(prog.bind(then) !is Stuck);
                let step = inner.resume(reply);
                SignTransaction::checking(key, psbt, policy, step, Ghost(prog))
            },
            SignTransactionState::Signing(policy, done, inner) => {
                let ghost prog = (inner.prog()->Ask_1)(reply@);
                let ghost then = then_next_input(
                    key@,
                    policy@.max_signatures_per_hour,
                    psbt@,
                    signatures(done@),
                );
                assert(prog.bind(then) !is Stuck);
                match inner.resume(reply) {
                    Step::Ask(q, inner) => Step::Ask(
                        q,
                        SignTransaction {
                            key,
                            psbt,
                            state: SignTransactionState::Signing(policy, done, inner),
                        },
                    ),
                    Step::Done(Err(t)) => SignTransaction::finish(key, psbt, policy, done, Err(t)),
                    Step::Done(Ok(sigs)) => {
                        let mut done = done;
                        let ghost before = signatures(done@);
                        let ghost new = sigs@;
                        done.push(sigs);
                        assert(signatures(done@) =~= before.push(new));
                        SignTransaction::inputs(key, psbt, policy, done)
                    },
                }
            },
            SignTransactionState::Recording(done, outcome, m) => {
                let ghost prog = (m.prog()->Ask_1)(reply@);
                let ghost then = then_hand_back(psbt@, signatures(done@), outcome_view(outcome));
                assert(prog.bind(then) !is Stuck);
                let step = m.resume(reply);
                SignTransaction::recording(key, psbt, done, outcome, step, Ghost(prog))
            },
        }
    }
}

/// Signs the inputs of a transaction that are this signer's.
pub fn sign_transaction(key: &SigningKey, psbt: Psbt) -> (step: Step<
    SignTransaction,
    (Psbt, Result<(), String>),
>)
    ensures
        program::runs_as(step, transaction_signing(key@, psbt@)),
{
    let ghost prog = policy::policy_loading(key@.label);
    let step = policy::load_policy(key.label.as_str());
    SignTransaction::loading(key.clone(), psbt, step, Ghost(prog))
}

} // verus!
