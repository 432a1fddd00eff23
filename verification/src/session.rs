//! Opening a session: loading the library, finding the slot, logging in.
use crate::config::{Pkcs11Config, SlotIdentifier, SlotView};
use crate::error::{Pkcs11Error, Pkcs11ErrorView};
use crate::program;
use crate::program::{Machine, Operation, Prog, Reply, ReplyView, Request, RequestView, Step};
use crate::text;
use crate::token::{TokenErrorCode, TokenErrorView};
use vstd::prelude::*;
use vstd::string::*;

verus! {

// ---------------------------------------------------------------------------
// Finding the slot
// ---------------------------------------------------------------------------

/// A refusal by the token.
pub open spec fn refused<A>(e: TokenErrorView) -> Prog<Result<A, Pkcs11ErrorView>> {
    Prog::Done(Err(Pkcs11ErrorView::Pkcs11(e)))
}

/// Looks for the slot whose token has this label, white space at the ends
/// aside, among `slots` in turn.
pub open spec fn label_search(wanted: Seq<char>, slots: Seq<u64>) -> Prog<
    Result<u64, Pkcs11ErrorView>,
>
    decreases slots.len(),
{
    if slots.len() == 0 {
        Prog::Done(Err(Pkcs11ErrorView::SlotNotFound("label="@ + wanted)))
    } else {
        Prog::Ask(
            RequestView::SlotLabel(slots[0]),
            |r: ReplyView|
                match r {
                    ReplyView::Label(Ok(label)) => if text::trimmed(label) == text::trimmed(
                        wanted,
                    ) {
                        Prog::Done(Ok(slots[0]))
                    } else {
                        label_search(wanted, slots.drop_first())
                    },
                    ReplyView::Label(Err(e)) => refused(e),
                    _ => Prog::Stuck,
                },
        )
    }
}

/// Looks for the slot among those with a token.
pub open spec fn slot_search(wanted: SlotView, slots: Seq<u64>) -> Prog<
    Result<u64, Pkcs11ErrorView>,
> {
    if slots.len() == 0 {
        Prog::Done(
            Err(
                Pkcs11ErrorView::SlotNotFound(
                    "no slots with tokens (looked for "@ + wanted.text() + ")"@,
                ),
            ),
        )
    } else {
        match wanted {
            SlotView::Label(label) => label_search(label, slots),
            SlotView::SlotId(id) => if slots.contains(id) {
                Prog::Done(Ok(id))
            } else {
                Prog::Done(Err(Pkcs11ErrorView::SlotNotFound(wanted.text())))
            },
        }
    }
}

/// Finds the slot.
pub open spec fn slot_resolution(wanted: SlotView) -> Prog<Result<u64, Pkcs11ErrorView>> {
    Prog::Ask(
        RequestView::SlotsWithToken,
        |r: ReplyView|
            match r {
                ReplyView::Slots(Ok(slots)) => slot_search(wanted, slots),
                ReplyView::Slots(Err(e)) => refused(e),
                _ => Prog::Stuck,
            },
    )
}

/// What a result says.
pub open spec fn slot_result(r: Result<u64, Pkcs11Error>) -> Result<u64, Pkcs11ErrorView> {
    match r {
        Ok(s) => Ok(s),
        Err(e) => Err(e@),
    }
}

enum ResolveState {
    Listing(SlotIdentifier),
    Searching { label: String, slots: Vec<u64>, next: usize },
}

/// Finds a slot.
pub struct ResolveSlot {
    state: ResolveState,
}

impl Operation for ResolveSlot {
    type Out = Result<u64, Pkcs11Error>;

    type OutView = Result<u64, Pkcs11ErrorView>;

    closed spec fn prog(self) -> Prog<Result<u64, Pkcs11ErrorView>> {
        match self.state {
            ResolveState::Listing(wanted) => slot_resolution(wanted@),
            ResolveState::Searching { label, slots, next } if next < slots@.len() => label_search(
                label@,
                slots@.skip(next as int),
            ),
            _ => Prog::Stuck,
        }
    }

    open spec fn out_view(out: Result<u64, Pkcs11Error>) -> Result<u64, Pkcs11ErrorView> {
        slot_result(out)
    }
}

impl ResolveSlot {
    fn search(label: String, slots: Vec<u64>, next: usize) -> (step: Step<
        ResolveSlot,
        Result<u64, Pkcs11Error>,
    >)
        requires
            next <= slots@.len(),
        ensures
            program::runs_as(step, label_search(label@, slots@.skip(next as int))),
    {
        if next == slots.len() {
            Step::Done(Err(Pkcs11Error::SlotNotFound(text::join2("label=", label.as_str()))))
        } else {
            let slot: u64 = slots[next];
            Step::Ask(
                Request::SlotLabel(slot),
                ResolveSlot { state: ResolveState::Searching { label, slots, next } },
            )
        }
    }

    fn among(wanted: SlotIdentifier, slots: Vec<u64>) -> (step: Step<
        ResolveSlot,
        Result<u64, Pkcs11Error>,
    >)
        ensures
            program::runs_as(step, slot_search(wanted@, slots@)),
    {
        if slots.len() == 0 {
            return Step::Done(
                Err(
                    Pkcs11Error::SlotNotFound(
                        text::join3(
                            "no slots with tokens (looked for ",
                            wanted.to_string().as_str(),
                            ")",
                        ),
                    ),
                ),
            );
        }
        match wanted {
            SlotIdentifier::Label(label) => {
                assert(slots@.skip(0) =~= slots@);
                ResolveSlot::search(label, slots, 0)
            },
            SlotIdentifier::SlotId(id) => {
                let n: usize = slots.len();
                let mut i: usize = 0;
                while i < n
                    invariant
                        i <= n,
                        n == slots@.len(),
                        n > 0,
                        wanted@ == SlotView::SlotId(id),
                        forall|j: int| 0 <= j < i ==> slots@[j] != id,
                    decreases n - i,
                {
                    if slots[i] == id {
                        assert(slots@.contains(id));
                        return Step::Done(Ok(id));
                    }
                    i = i + 1;
                }
                Step::Done(
                    Err(
                        Pkcs11Error::SlotNotFound(
                            text::join2("slot_id=", text::decimal_text(id).as_str()),
                        ),
                    ),
                )
            },
        }
    }
}

impl Machine for ResolveSlot {
    fn resume(self, reply: Reply) -> (step: Step<ResolveSlot, Result<u64, Pkcs11Error>>) {
        match self.state {
            ResolveState::Listing(wanted) => match reply {
                Reply::Slots(Ok(slots)) => ResolveSlot::among(wanted, slots),
                Reply::Slots(Err(e)) => Step::Done(Err(Pkcs11Error::Pkcs11(e))),
                _ => vstd::pervasive::unreached(),
            },
            ResolveState::Searching { label, slots, next } => match reply {
                Reply::Label(Ok(found)) => {
                    let ghost rest = slots@.skip(next as int);
                    if text::same_text(found.as_str().trim(), label.as_str().trim()) {
                        Step::Done(Ok(slots[next]))
                    } else {
                        assert(next < slots.len());
                        assert(rest.drop_first() =~= slots@.skip(next + 1));
                        ResolveSlot::search(label, slots, next + 1)
                    }
                },
                Reply::Label(Err(e)) => Step::Done(Err(Pkcs11Error::Pkcs11(e))),
                _ => vstd::pervasive::unreached(),
            },
        }
    }
}

/// Finds the slot that `wanted` names.
pub fn resolve_slot(wanted: &SlotIdentifier) -> (step: Step<ResolveSlot, Result<u64, Pkcs11Error>>)
    ensures
        program::runs_as(step, slot_resolution(wanted@)),
{
    Step::Ask(
        Request::SlotsWithToken,
        ResolveSlot { state: ResolveState::Listing(wanted.clone()) },
    )
}

// ---------------------------------------------------------------------------
// Opening
// ---------------------------------------------------------------------------

/// Logs in. That the user is logged in already, through another session with
/// the token, is as good.
pub open spec fn login(slot: u64, pin: Seq<char>) -> Prog<Result<u64, Pkcs11ErrorView>> {
    Prog::Ask(
        RequestView::Login(pin),
        |r: ReplyView|
            match r {
                ReplyView::Unit(Ok(_)) => Prog::Done(Ok(slot)),
                ReplyView::Unit(Err(e)) => if e.code == TokenErrorCode::UserAlreadyLoggedIn {
                    Prog::Done(Ok(slot))
                } else {
                    Prog::Done(Err(Pkcs11ErrorView::LoginFailed(e)))
                },
                _ => Prog::Stuck,
            },
    )
}

/// Opens a read-write session, and logs in.
pub open spec fn open_slot(slot: u64, pin: Seq<char>) -> Prog<Result<u64, Pkcs11ErrorView>> {
    Prog::Ask(
        RequestView::OpenSession(slot),
        |r: ReplyView|
            match r {
                ReplyView::Unit(Ok(_)) => login(slot, pin),
                ReplyView::Unit(Err(e)) => refused(e),
                _ => Prog::Stuck,
            },
    )
}

/// What follows once the slot is found.
pub open spec fn then_open_slot(pin: Seq<char>) -> spec_fn(Result<u64, Pkcs11ErrorView>) -> Prog<
    Result<u64, Pkcs11ErrorView>,
> {
    |d: Result<u64, Pkcs11ErrorView>|
        match d {
            Ok(slot) => open_slot(slot, pin),
            Err(e) => Prog::Done(Err(e)),
        }
}

/// Initializes the module, and goes on to the slot. A module is shared by the
/// whole process, so that it is initialized already is as good.
pub open spec fn initialize(wanted: SlotView, pin: Seq<char>) -> Prog<
    Result<u64, Pkcs11ErrorView>,
> {
    Prog::Ask(
        RequestView::Initialize,
        |r: ReplyView|
            match r {
                ReplyView::Unit(Ok(_)) => slot_resolution(wanted).bind(then_open_slot(pin)),
                ReplyView::Unit(Err(e)) => if e.code
                    == TokenErrorCode::CryptokiAlreadyInitialized {
                    slot_resolution(wanted).bind(then_open_slot(pin))
                } else {
                    Prog::Done(Err(Pkcs11ErrorView::Initialize(e)))
                },
                _ => Prog::Stuck,
            },
    )
}

/// Opens a session: loads the library, initializes it, finds the slot, opens a
/// read-write session and logs in. Gives the slot.
pub open spec fn session_opening(library: Seq<char>, wanted: SlotView, pin: Seq<char>) -> Prog<
    Result<u64, Pkcs11ErrorView>,
> {
    Prog::Ask(
        RequestView::LoadLibrary(library),
        |r: ReplyView|
            match r {
                ReplyView::Unit(Ok(_)) => initialize(wanted, pin),
                ReplyView::Unit(Err(e)) => Prog::Done(
                    Err(Pkcs11ErrorView::LibraryLoad { path: library, source: e }),
                ),
                _ => Prog::Stuck,
            },
    )
}

/// A session that is open, and logged in as the user.
#[derive(Clone, Copy, Debug)]
pub struct Pkcs11Session {
    /// The slot that the session is with.
    pub slot: u64,
}

enum OpenState {
    Loading(String, SlotIdentifier),
    Initializing(SlotIdentifier),
    Resolving(ResolveSlot),
    Opening(u64),
    LoggingIn(u64),
}

/// Opens a session.
pub struct OpenSession {
    pin: String,
    state: OpenState,
}

impl Operation for OpenSession {
    type Out = Result<Pkcs11Session, Pkcs11Error>;

    type OutView = Result<u64, Pkcs11ErrorView>;

    closed spec fn prog(self) -> Prog<Result<u64, Pkcs11ErrorView>> {
        match self.state {
            OpenState::Loading(library, wanted) => session_opening(library@, wanted@, self.pin@),
            OpenState::Initializing(wanted) => initialize(wanted@, self.pin@),
            OpenState::Resolving(m) if m.prog() is Ask => m.prog().bind(
                then_open_slot(self.pin@),
            ),
            OpenState::Opening(slot) => open_slot(slot, self.pin@),
            OpenState::LoggingIn(slot) => login(slot, self.pin@),
            _ => Prog::Stuck,
        }
    }

    open spec fn out_view(out: Result<Pkcs11Session, Pkcs11Error>) -> Result<
        u64,
        Pkcs11ErrorView,
    > {
        match out {
            Ok(s) => Ok(s.slot),
            Err(e) => Err(e@),
        }
    }
}

impl OpenSession {
    fn resolving(
        pin: String,
        step: Step<ResolveSlot, Result<u64, Pkcs11Error>>,
        Ghost(prog): Ghost<Prog<Result<u64, Pkcs11ErrorView>>>,
    ) -> (next: Step<OpenSession, Result<Pkcs11Session, Pkcs11Error>>)
        requires
            program::runs_as(step, prog),
        ensures
            program::runs_as(next, prog.bind(then_open_slot(pin@))),
    {
        match step {
            Step::Ask(q, m) => Step::Ask(q, OpenSession { pin, state: OpenState::Resolving(m) }),
            Step::Done(Ok(slot)) => Step::Ask(
                Request::OpenSession(slot),
                OpenSession { pin, state: OpenState::Opening(slot) },
            ),
            Step::Done(Err(e)) => Step::Done(Err(e)),
        }
    }

    fn resolve(pin: String, wanted: SlotIdentifier) -> (next: Step<
        OpenSession,
        Result<Pkcs11Session, Pkcs11Error>,
    >)
        ensures
            program::runs_as(next, slot_resolution(wanted@).bind(then_open_slot(pin@))),
    {
        let ghost prog = slot_resolution(wanted@);
        OpenSession::resolving(pin, resolve_slot(&wanted), Ghost(prog))
    }
}

impl Machine for OpenSession {
    fn resume(self, reply: Reply) -> (step: Step<
        OpenSession,
        Result<Pkcs11Session, Pkcs11Error>,
    >) {
        let pin = self.pin;
        match self.state {
            OpenState::Loading(library, wanted) => match reply {
                Reply::Unit(Ok(_)) => Step::Ask(
                    Request::Initialize,
                    OpenSession { pin, state: OpenState::Initializing(wanted) },
                ),
                Reply::Unit(Err(e)) => Step::Done(
                    Err(Pkcs11Error::LibraryLoad { path: library, source: e }),
                ),
                _ => vstd::pervasive::unreached(),
            },
            OpenState::Initializing(wanted) => match reply {
                Reply::Unit(Ok(_)) => OpenSession::resolve(pin, wanted),
                Reply::Unit(Err(e)) => if e.code == TokenErrorCode::CryptokiAlreadyInitialized {
                    OpenSession::resolve(pin, wanted)
                } else {
                    Step::Done(Err(Pkcs11Error::Initialize(e)))
                },
                _ => vstd::pervasive::unreached(),
            },
            OpenState::Resolving(m) => {
                let ghost prog = (m.prog()->Ask_1)(reply@);
                assert(prog.bind(then_open_slot(pin@)) !is Stuck);
                let step = m.resume(reply);
                OpenSession::resolving(pin, step, Ghost(prog))
            },
            OpenState::Opening(slot) => match reply {
                Reply::Unit(Ok(_)) => Step::Ask(
                    Request::Login(pin.clone()),
                    OpenSession { pin, state: OpenState::LoggingIn(slot) },
                ),
                Reply::Unit(Err(e)) => Step::Done(Err(Pkcs11Error::Pkcs11(e))),
                _ => vstd::pervasive::unreached(),
            },
            OpenState::LoggingIn(slot) => match reply {
                Reply::Unit(Ok(_)) => Step::Done(Ok(Pkcs11Session { slot })),
                Reply::Unit(Err(e)) => if e.code == TokenErrorCode::UserAlreadyLoggedIn {
                    Step::Done(Ok(Pkcs11Session { slot }))
                } else {
                    Step::Done(Err(Pkcs11Error::LoginFailed(e)))
                },
                _ => vstd::pervasive::unreached(),
            },
        }
    }
}

// ---------------------------------------------------------------------------
// The token's label
// ---------------------------------------------------------------------------

/// Reads the label of the token, without white space at its ends.
pub open spec fn token_label_reading() -> Prog<Result<Seq<char>, Pkcs11ErrorView>> {
    Prog::Ask(
        RequestView::TokenLabel,
        |r: ReplyView|
            match r {
                ReplyView::Label(Ok(label)) => Prog::Done(Ok(text::trimmed(label))),
                ReplyView::Label(Err(e)) => refused(e),
                _ => Prog::Stuck,
            },
    )
}

/// Reads the label of the token.
pub struct ReadTokenLabel {}

impl ReadTokenLabel {
    /// Starts to read the label of the token.
    pub fn start() -> (step: Step<ReadTokenLabel, Result<String, Pkcs11Error>>)
        ensures
            program::runs_as(step, token_label_reading()),
    {
        Step::Ask(Request::TokenLabel, ReadTokenLabel {  })
    }
}

impl Operation for ReadTokenLabel {
    type Out = Result<String, Pkcs11Error>;

    type OutView = Result<Seq<char>, Pkcs11ErrorView>;

    open spec fn prog(self) -> Prog<Result<Seq<char>, Pkcs11ErrorView>> {
        token_label_reading()
    }

    open spec fn out_view(out: Result<String, Pkcs11Error>) -> Result<Seq<char>, Pkcs11ErrorView> {
        match out {
            Ok(t) => Ok(t@),
            Err(e) => Err(e@),
        }
    }
}

impl Machine for ReadTokenLabel {
    fn resume(self, reply: Reply) -> (step: Step<ReadTokenLabel, Result<String, Pkcs11Error>>) {
        match reply {
            Reply::Label(Ok(label)) => Step::Done(Ok(label.as_str().trim().to_owned())),
            Reply::Label(Err(e)) => Step::Done(Err(Pkcs11Error::Pkcs11(e))),
            _ => vstd::pervasive::unreached(),
        }
    }
}

impl Pkcs11Session {
    /// Opens an authenticated read-write session with the token in the slot
    /// that `slot` names, through the library that the configuration names.
    pub fn open<B>(cfg: &Pkcs11Config<B>, slot: &SlotIdentifier, user_pin: &str) -> (step: Step<
        OpenSession,
        Result<Pkcs11Session, Pkcs11Error>,
    >)
        ensures
            program::runs_as(step, session_opening(cfg.library_path@, slot@, user_pin@)),
    {
        Step::Ask(
            Request::LoadLibrary(cfg.library_path.clone()),
            OpenSession {
                pin: user_pin.to_owned(),
                state: OpenState::Loading(cfg.library_path.clone(), slot.clone()),
            },
        )
    }

    /// The slot that the session is with.
    pub fn slot(&self) -> (s: u64)
        ensures
            s == self.slot,
    {
        self.slot
    }

    /// Reads the label of the token.
    pub fn token_label(&self) -> (step: Step<ReadTokenLabel, Result<String, Pkcs11Error>>)
        ensures
            program::runs_as(step, token_label_reading()),
    {
        ReadTokenLabel::start()
    }
}

} // verus!
