//! Opening sessions.
use crate::config;
use crate::config::SlotView;
use crate::environment;
use crate::environment::VariableView;
use crate::error::Pkcs11ErrorView;
use crate::program::{Prog, ReplyView, RequestView};
use crate::run;
use crate::session;
use crate::signer;
use crate::text;
use crate::token::{TokenErrorCode, TokenErrorView};
use vstd::prelude::*;
use vstd::string::*;

verus! {

/// A process can open sessions with several tokens through one module, and
/// several sessions with one token: that the module is initialized already, or
/// that the user is logged in already, makes no difference.
pub proof fn law_sessions_share_the_module(
    wanted: SlotView,
    pin: Seq<char>,
    slot: u64,
    e: TokenErrorView,
)
    ensures
        e.code == TokenErrorCode::CryptokiAlreadyInitialized ==> (session::initialize(
            wanted,
            pin,
        )->Ask_1)(ReplyView::Unit(Err(e))) == (session::initialize(wanted, pin)->Ask_1)(
            ReplyView::Unit(Ok(())),
        ),
        e.code == TokenErrorCode::UserAlreadyLoggedIn ==> (session::login(slot, pin)->Ask_1)(
            ReplyView::Unit(Err(e)),
        ) == (session::login(slot, pin)->Ask_1)(ReplyView::Unit(Ok(()))),
{
}

/// Whether a result, if it is a slot, is one of these, and the one that was
/// asked for where that was by number.
pub open spec fn one_of(wanted: SlotView, slots: Seq<u64>) -> spec_fn(
    Result<u64, Pkcs11ErrorView>,
) -> bool {
    |d: Result<u64, Pkcs11ErrorView>|
        d matches Ok(s) ==> slots.contains(s) && (wanted matches SlotView::SlotId(id) ==> s == id)
}

/// A slot that is found holds a token, whatever the token labels are.
pub proof fn law_found_slot_holds_a_token(wanted: SlotView, slots: Seq<u64>)
    ensures
        run::always(session::slot_search(wanted, slots), one_of(wanted, slots)),
{
    if let SlotView::Label(label) = wanted {
        lemma_label_search(label, slots, slots);
    }
}

proof fn lemma_label_search(label: Seq<char>, all: Seq<u64>, slots: Seq<u64>)
    requires
        forall|i: int| 0 <= i < slots.len() ==> all.contains(#[trigger] slots[i]),
    ensures
        run::always(session::label_search(label, slots), one_of(SlotView::Label(label), all)),
    decreases slots.len(),
{
    if slots.len() != 0 {
        let rest = slots.drop_first();
        assert forall|i: int| 0 <= i < rest.len() implies all.contains(#[trigger] rest[i]) by {
            assert(all.contains(slots[i + 1]));
        }
        lemma_label_search(label, all, rest);
        let prog = session::label_search(label, slots);
        assert forall|r: ReplyView|
            run::always(#[trigger] (prog->Ask_1)(r), one_of(SlotView::Label(label), all)) by {
            assert(all.contains(slots[0]));
        }
    }
}

/// What is asked for by name is the first of the slots whose token has that name,
/// white space at the ends aside: the labels are read in the order of the slots, and
/// none behind it. Where no token has the name there is no slot.
pub proof fn law_slot_is_found_by_label(
    wanted: Seq<char>,
    slots: Seq<u64>,
    labels: Seq<Seq<char>>,
    n: int,
)
    requires
        labels.len() == slots.len(),
        0 <= n <= slots.len(),
        slots.len() > 0,
        forall|k: int|
            0 <= k < n ==> text::trimmed(#[trigger] labels[k]) != text::trimmed(wanted),
        n < slots.len() ==> text::trimmed(labels[n]) == text::trimmed(wanted),
    ensures
        ({
            let prog = session::slot_search(SlotView::Label(wanted), slots);
            let count = if n < slots.len() {
                (n + 1) as nat
            } else {
                n as nat
            };
            let replies = Seq::new(count, |k: int| ReplyView::Label(Ok(labels[k])));
            &&& run::asked(prog, replies) == Seq::new(
                count,
                |k: int| RequestView::SlotLabel(slots[k]),
            )
            &&& n < slots.len() ==> run::behind(prog, replies) == Prog::<
                Result<u64, Pkcs11ErrorView>,
            >::Done(Ok(slots[n]))
            &&& n == slots.len() ==> run::behind(prog, replies) is Done && run::behind(
                prog,
                replies,
            )->Done_0 is Err && run::behind(prog, replies)->Done_0->Err_0 is SlotNotFound
        }),
{
    lemma_labels_in_turn(wanted, slots, labels, n);
}

proof fn lemma_labels_in_turn(
    wanted: Seq<char>,
    slots: Seq<u64>,
    labels: Seq<Seq<char>>,
    n: int,
)
    requires
        labels.len() == slots.len(),
        0 <= n <= slots.len(),
        forall|k: int|
            0 <= k < n ==> text::trimmed(#[trigger] labels[k]) != text::trimmed(wanted),
        n < slots.len() ==> text::trimmed(labels[n]) == text::trimmed(wanted),
    ensures
        ({
            let prog = session::label_search(wanted, slots);
            let count = if n < slots.len() {
                (n + 1) as nat
            } else {
                n as nat
            };
            let replies = Seq::new(count, |k: int| ReplyView::Label(Ok(labels[k])));
            &&& run::asked(prog, replies) == Seq::new(
                count,
                |k: int| RequestView::SlotLabel(slots[k]),
            )
            &&& n < slots.len() ==> run::behind(prog, replies) == Prog::<
                Result<u64, Pkcs11ErrorView>,
            >::Done(Ok(slots[n]))
            &&& n == slots.len() ==> run::behind(prog, replies) is Done && run::behind(
                prog,
                replies,
            )->Done_0 is Err && run::behind(prog, replies)->Done_0->Err_0 is SlotNotFound
        }),
    decreases slots.len(),
{
    let prog = session::label_search(wanted, slots);
    let count = if n < slots.len() {
        (n + 1) as nat
    } else {
        n as nat
    };
    let replies = Seq::new(count, |k: int| ReplyView::Label(Ok(labels[k])));
    let wants = Seq::new(count, |k: int| RequestView::SlotLabel(slots[k]));
    if slots.len() == 0 {
        assert(run::asked(prog, replies) =~= wants);
    } else if n == 0 {
        reveal_with_fuel(run::behind, 2);
        reveal_with_fuel(run::asked, 2);
        assert(replies[0] == ReplyView::Label(Ok(labels[0])));
        assert(replies.drop_first() =~= Seq::<ReplyView>::empty());
        assert(run::asked(prog, replies) =~= wants);
    } else {
        let rest = slots.drop_first();
        let others = labels.drop_first();
        assert forall|k: int| 0 <= k < n - 1 implies text::trimmed(#[trigger] others[k])
            != text::trimmed(wanted) by {
            assert(others[k] == labels[k + 1]);
        }
        lemma_labels_in_turn(wanted, rest, others, n - 1);
        let fewer = (count - 1) as nat;
        assert(replies.drop_first() =~= Seq::new(
            fewer,
            |k: int| ReplyView::Label(Ok(others[k])),
        ));
        assert(replies[0] == ReplyView::Label(Ok(labels[0])));
        assert((prog->Ask_1)(replies[0]) == session::label_search(wanted, rest));
        assert(run::asked(prog, replies) =~= wants);
    }
}

/// What is asked for by number is that slot, if it is one of those with a token. No
/// label is read.
pub proof fn law_slot_is_found_by_number(id: u64, slots: Seq<u64>)
    ensures
        session::slot_search(SlotView::SlotId(id), slots) is Done,
        slots.contains(id) ==> session::slot_search(SlotView::SlotId(id), slots) == Prog::<
            Result<u64, Pkcs11ErrorView>,
        >::Done(Ok(id)),
        !slots.contains(id) ==> (session::slot_search(SlotView::SlotId(id), slots)->Done_0
            matches Err(e) && e is SlotNotFound),
{
}

/// A session is opened in five steps: the library that is named is loaded and
/// initialized, the slot is found, a session with the token in that slot is opened,
/// and the user logs in to it with the PIN.
pub proof fn law_session_opens_in_order(
    library: Seq<char>,
    wanted: SlotView,
    pin: Seq<char>,
    found: Seq<ReplyView>,
    slot: u64,
)
    requires
        run::behind(session::slot_resolution(wanted), found) == Prog::<
            Result<u64, Pkcs11ErrorView>,
        >::Done(Ok(slot)),
    ensures
        ({
            let prog = session::session_opening(library, wanted, pin);
            let unit = ReplyView::Unit(Ok(()));
            let replies = seq![unit, unit] + (found + seq![unit, unit]);
            &&& run::asked(prog, replies) == seq![
                RequestView::LoadLibrary(library),
                RequestView::Initialize,
            ] + (run::asked(session::slot_resolution(wanted), found) + seq![
                RequestView::OpenSession(slot),
                RequestView::Login(pin),
            ])
            &&& run::behind(prog, replies) == Prog::<Result<u64, Pkcs11ErrorView>>::Done(Ok(slot))
        }),
{
    let prog = session::session_opening(library, wanted, pin);
    let unit = ReplyView::Unit(Ok::<(), TokenErrorView>(()));
    let end = seq![unit, unit];
    let rest = found + end;
    let replies = seq![unit, unit] + rest;
    let finding = session::slot_resolution(wanted);
    let next = session::then_open_slot(pin);
    run::lemma_behind_both(finding, next, found, end);
    let last = session::open_slot(slot, pin);
    assert(run::behind(last, end) == Prog::<Result<u64, Pkcs11ErrorView>>::Done(Ok(slot))
        && run::asked(last, end) == seq![
        RequestView::OpenSession(slot),
        RequestView::Login(pin),
    ]) by {
        reveal_with_fuel(run::behind, 3);
        reveal_with_fuel(run::asked, 3);
        let log = session::login(slot, pin);
        assert((last->Ask_1)(end[0]) == log);
        assert(end.drop_first().drop_first() =~= Seq::<ReplyView>::empty());
        assert(run::asked(last, end) =~= seq![
            RequestView::OpenSession(slot),
            RequestView::Login(pin),
        ]);
    }
    let second = session::initialize(wanted, pin);
    let tail = seq![unit] + rest;
    assert(replies.drop_first() =~= tail);
    assert(tail.drop_first() =~= rest);
    assert((prog->Ask_1)(replies[0]) == second);
    assert((second->Ask_1)(tail[0]) == finding.bind(next));
    assert(run::behind(prog, replies) == run::behind(second, tail));
    assert(run::behind(second, tail) == run::behind(finding.bind(next), rest));
    assert(run::asked(prog, replies) == seq![prog->Ask_0] + run::asked(second, tail));
    assert(run::asked(second, tail) == seq![second->Ask_0] + run::asked(finding.bind(next), rest));
    assert(run::asked(prog, replies) =~= seq![
        RequestView::LoadLibrary(library),
        RequestView::Initialize,
    ] + run::asked(finding.bind(next), rest));
}

/// What goes wrong while a session is opened is told as what it is: with the library,
/// with initializing it, with the token, or with the PIN.
pub proof fn law_session_tells_what_failed(
    library: Seq<char>,
    wanted: SlotView,
    name: Seq<char>,
    others: Seq<u64>,
    pin: Seq<char>,
    slot: u64,
    e: TokenErrorView,
)
    ensures
        ({
            let no = ReplyView::Unit(Err(e));
            &&& (session::session_opening(library, wanted, pin)->Ask_1)(no) == Prog::<
                Result<u64, Pkcs11ErrorView>,
            >::Done(Err(Pkcs11ErrorView::LibraryLoad { path: library, source: e }))
            &&& e.code != TokenErrorCode::CryptokiAlreadyInitialized ==> (session::initialize(
                wanted,
                pin,
            )->Ask_1)(no) == Prog::<Result<u64, Pkcs11ErrorView>>::Done(
                Err(Pkcs11ErrorView::Initialize(e)),
            )
            &&& (session::slot_resolution(wanted)->Ask_1)(ReplyView::Slots(Err(e))) == Prog::<
                Result<u64, Pkcs11ErrorView>,
            >::Done(Err(Pkcs11ErrorView::Pkcs11(e)))
            &&& (session::label_search(name, seq![slot] + others)->Ask_1)(ReplyView::Label(Err(e))) == Prog::<
                Result<u64, Pkcs11ErrorView>,
            >::Done(Err(Pkcs11ErrorView::Pkcs11(e)))
            &&& (session::open_slot(slot, pin)->Ask_1)(no) == Prog::<
                Result<u64, Pkcs11ErrorView>,
            >::Done(Err(Pkcs11ErrorView::Pkcs11(e)))
            &&& e.code != TokenErrorCode::UserAlreadyLoggedIn ==> (session::login(
                slot,
                pin,
            )->Ask_1)(no) == Prog::<Result<u64, Pkcs11ErrorView>>::Done(
                Err(Pkcs11ErrorView::LoginFailed(e)),
            )
        }),
{
}

/// A token that answers is healthy, and is told by its label; one that does not is
/// told as the failure it is.
pub proof fn law_health_is_the_tokens_answer(label: Seq<char>, e: TokenErrorView)
    ensures
        ({
            let prog = signer::health_checking();
            let well = run::behind(prog, seq![ReplyView::Label(Ok(label))]);
            let ill = run::behind(prog, seq![ReplyView::Label(Err(e))]);
            &&& prog is Ask
            &&& prog->Ask_0 == RequestView::TokenLabel
            &&& well is Done
            &&& well->Done_0 matches Ok(h) && h.reachable && h.firmware_version == Some(
                "pkcs11/"@ + text::trimmed(label),
            )
            &&& ill is Done
            &&& ill->Done_0 matches Err(told) && told == Pkcs11ErrorView::Pkcs11(e).signer_error()
        }),
{
    let first = session::token_label_reading();
    let next = signer::then_health();
    let yes = seq![ReplyView::Label(Ok::<Seq<char>, TokenErrorView>(label))];
    let no = seq![ReplyView::Label(Err::<Seq<char>, TokenErrorView>(e))];
    reveal_with_fuel(run::behind, 2);
    assert(yes.drop_first() =~= Seq::<ReplyView>::empty());
    assert(no.drop_first() =~= Seq::<ReplyView>::empty());
    assert((first->Ask_1)(yes[0]) is Done);
    assert((first->Ask_1)(no[0]) is Done);
    run::lemma_behind_bind(first, next, yes);
    run::lemma_behind_bind(first, next, no);
}

/// The library is the one that `PKCS11_LIB` names, and where that is not set the one
/// that `SOFTHSM2_LIB` names. Where neither is set there is none.
pub proof fn law_library_is_named(env: Seq<VariableView>, path: Seq<char>)
    ensures
        environment::lookup(env, "PKCS11_LIB"@) == Some(path) ==> config::library_path(env) == Ok::<
            Seq<char>,
            Pkcs11ErrorView,
        >(path),
        environment::lookup(env, "PKCS11_LIB"@) is None && environment::lookup(
            env,
            "SOFTHSM2_LIB"@,
        ) == Some(path) ==> config::library_path(env) == Ok::<Seq<char>, Pkcs11ErrorView>(path),
        environment::lookup(env, "PKCS11_LIB"@) is None && environment::lookup(
            env,
            "SOFTHSM2_LIB"@,
        ) is None ==> (config::library_path(env) matches Err(e) && e is Env),
{
}

} // verus!
